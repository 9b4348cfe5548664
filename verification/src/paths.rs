//! Construction of cache paths.
//!
//! All cached resources live under one cache root; a cache key is a relative
//! path joined onto that root with `/`.  Unpacked page bodies live under the
//! `db` directory of a documentation set's generation, one `_index` file per
//! page.

use vstd::prelude::*;

verus! {

/// `a` and `b` joined with a single separator.
pub open spec fn spec_joined(a: Seq<char>, b: Seq<char>) -> Seq<char> {
    a + seq!['/'] + b
}

/// Joins one relative path segment onto a base path.
pub fn join_path(a: &str, b: &str) -> (r: String)
    ensures
        r@ == spec_joined(a@, b@),
{
    let mut s = a.to_owned();
    s.append("/");
    s.append(b);
    proof {
        reveal_strlit("/");
        assert("/"@ =~= seq!['/']);
        assert(s@ =~= spec_joined(a@, b@));
    }
    s
}

/// The absolute location of a cache key under the cache root.
pub fn build_cache_path(cache_dir: &str, filename: &str) -> (r: String)
    ensures
        r@ == spec_joined(cache_dir@, filename@),
{
    join_path(cache_dir, filename)
}

/// The file that holds one unpacked page body: the page's relative path
/// under the generation's `db` directory, with a trailing `_index` entry.
pub open spec fn spec_page_file(db_base: Seq<char>, page: Seq<char>) -> Seq<char> {
    spec_joined(spec_joined(db_base, page), "_index"@)
}

/// Builds the target file path for one page of a content bundle.
pub fn page_file_path(db_base: &str, page: &str) -> (r: String)
    ensures
        r@ == spec_page_file(db_base@, page@),
{
    let joined = join_path(db_base, page);
    join_path(joined.as_str(), "_index")
}

/// Joining distinct pages under one base yields distinct page files, so the
/// writers of one bundle's fan-out never share a target path.
pub proof fn lemma_page_file_injective(db_base: Seq<char>, p1: Seq<char>, p2: Seq<char>)
    requires
        p1 != p2,
    ensures
        spec_page_file(db_base, p1) != spec_page_file(db_base, p2),
{
    let f1 = spec_page_file(db_base, p1);
    let f2 = spec_page_file(db_base, p2);
    if f1 == f2 {
        let n: int = db_base.len() as int + 1;
        let t: int = "_index"@.len() as int + 1;
        assert(f1.len() == n + p1.len() + t);
        assert(f2.len() == n + p2.len() + t);
        assert(p1.len() == p2.len());
        assert(p1 =~= f1.subrange(n, n + p1.len() as int));
        assert(p2 =~= f2.subrange(n, n + p2.len() as int));
        assert(false);
    }
}

} // verus!
