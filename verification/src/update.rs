//! The update pipeline: per-set fetch/unpack unit and the orchestrator's
//! decisions.
//!
//! For one documentation set the unit fetches the index resource and the
//! content-bundle resource (two independent operations), joins them —
//! either failure fails the whole unit with that error — and on success
//! unpacks the bundle into one file per page under the generation's `db`
//! directory.  The orchestrator filters the catalog by the caller's
//! selection and drives the units under the bounded pool of
//! [`crate::pool::BoundedPool`].  The network transfers themselves happen
//! outside the library; their outcomes are handed in as values.

use vstd::prelude::*;

use crate::config::Config;
use crate::entity::Docset;
use crate::paths::spec_joined;
use crate::paths::spec_page_file;
use crate::paths::lemma_page_file_injective;
use crate::store::FileSys;
use crate::StoreError;

verus! {

/// Arguments of the update command.
pub struct UpdateArgs {
    /// Force the update even where freshness or existence checks would
    /// skip work.
    pub force: bool,
    /// Update every documentation set instead of the named ones.
    pub all: bool,
    /// Suppress all progress bars.
    pub no_progress: bool,
    /// The directory to store the downloaded files in.
    pub cache_dir: Option<String>,
    /// The number of concurrent downloads.
    pub limit: usize,
    /// The slugs of the sets to update.
    pub slugs: Vec<String>,
}

/// Arguments of the search command.
pub struct SearchArgs {
    /// The docset to search.
    pub slug: String,
    /// The query to search.
    pub keyword: String,
}

/// Arguments of the cat command.
pub struct CatArgs {
    /// The docset to display.
    pub slug: String,
    /// The doc page to display.
    pub path: String,
    /// Do not try to update the docset if the expected page is not found.
    pub no_update: bool,
    /// Max width of the output.
    pub width: usize,
}

impl From<UpdateArgs> for Config {
    /// The configuration overrides carried by the update command's flags.
    fn from(args: UpdateArgs) -> (r: Config) {
        Config {
            cache_dir: args.cache_dir,
            progress: if args.no_progress {
                Some(false)
            } else {
                None
            },
            update_interval: None,
            force: if args.force {
                Some(true)
            } else {
                None
            },
            limit: Some(args.limit),
        }
    }
}

impl vstd::std_specs::convert::FromSpecImpl<UpdateArgs> for Config {
    open spec fn obeys_from_spec() -> bool {
        true
    }

    open spec fn from_spec(args: UpdateArgs) -> Config {
        Config {
            cache_dir: args.cache_dir,
            progress: if args.no_progress {
                Some(false)
            } else {
                None
            },
            update_interval: None,
            force: if args.force {
                Some(true)
            } else {
                None
            },
            limit: Some(args.limit),
        }
    }
}

/// Whether a documentation set is selected for update: every set is when
/// `all` is given, otherwise exactly the sets whose slug is named.
pub open spec fn spec_selected(d: Docset, all: bool, slugs: Seq<String>) -> bool {
    all || exists|t: int| 0 <= t < slugs.len() && slugs[t]@ == d.slug@
}

fn contains_slug(slugs: &Vec<String>, slug: &String) -> (r: bool)
    ensures
        r == exists|t: int| 0 <= t < slugs@.len() && slugs@[t]@ == slug@,
{
    let mut i: usize = 0;
    while i < slugs.len()
        invariant
            i <= slugs@.len(),
            forall|t: int| 0 <= t < i ==> slugs@[t]@ != slug@,
        decreases slugs@.len() - i,
    {
        if slugs[i] == *slug {
            assert(slugs@[i as int]@ == slug@);
            return true;
        }
        i = i + 1;
    }
    false
}

/// Filters the catalog by the selection, keeping catalog order: the result
/// holds the indices of exactly the selected sets, in increasing order.
pub fn select_docsets(docsets: &Vec<Docset>, all: bool, slugs: &Vec<String>) -> (r: Vec<usize>)
    ensures
        forall|t: int|
            0 <= t < r@.len() ==> #[trigger] r@[t] < docsets@.len() && spec_selected(
                docsets@[r@[t] as int],
                all,
                slugs@,
            ),
        forall|t1: int, t2: int| 0 <= t1 < t2 < r@.len() ==> r@[t1] < r@[t2],
        forall|j: int|
            0 <= j < docsets@.len() && spec_selected(#[trigger] docsets@[j], all, slugs@)
                ==> r@.contains(j as usize),
{
    let mut r: Vec<usize> = Vec::new();
    let mut i: usize = 0;
    while i < docsets.len()
        invariant
            i <= docsets@.len(),
            forall|t: int|
                0 <= t < r@.len() ==> #[trigger] r@[t] < i && spec_selected(
                    docsets@[r@[t] as int],
                    all,
                    slugs@,
                ),
            forall|t1: int, t2: int| 0 <= t1 < t2 < r@.len() ==> r@[t1] < r@[t2],
            forall|j: int|
                0 <= j < i && spec_selected(#[trigger] docsets@[j], all, slugs@) ==> r@.contains(
                    j as usize,
                ),
        decreases docsets@.len() - i,
    {
        let keep = if all {
            true
        } else {
            contains_slug(slugs, &docsets[i].slug)
        };
        if keep {
            let ghost r0 = r@;
            r.push(i);
            proof {
                assert(r@[r@.len() - 1] == i);
                assert forall|j: int|
                    0 <= j < i + 1 && spec_selected(#[trigger] docsets@[j], all, slugs@)
                    implies r@.contains(j as usize) by {
                    if j < i {
                        let t = choose|t: int| 0 <= t < r0.len() && r0[t] == (j as usize);
                        assert(r@[t] == (j as usize));
                    } else {
                        assert(r@[r@.len() - 1] == (j as usize));
                    }
                }
            }
        } else {
            proof {
                assert(!spec_selected(docsets@[i as int], all, slugs@));
            }
        }
        i = i + 1;
    }
    r
}

/// A fetched content bundle: the raw payload as cached at the `db.json`
/// key, and the per-page mapping parsed out of it.
pub struct ContentBundle {
    pub raw: String,
    pub pages: Vec<(String, String)>,
}

/// Joins the two fetch operations of one unit: both must succeed, and
/// either failure fails the unit with that error — the index side's error
/// takes precedence, and a surviving result of the other side is
/// discarded.
pub fn join_fetch_results(index: Result<String, StoreError>, db: Result<
    ContentBundle,
    StoreError,
>) -> (r: Result<(String, ContentBundle), StoreError>)
    ensures
        index is Ok && db is Ok ==> r is Ok && r->Ok_0.0 == index->Ok_0 && r->Ok_0.1 == db->Ok_0,
        index is Err ==> r is Err && r->Err_0 == index->Err_0,
        index is Ok && db is Err ==> r is Err && r->Err_0 == db->Err_0,
{
    match index {
        Ok(i) => match db {
            Ok(d) => Ok((i, d)),
            Err(e) => Err(e),
        },
        Err(e) => Err(e),
    }
}

/// A page of the bundle whose target file is `q`, among the first `n`
/// pages.
pub open spec fn page_written(
    pages: Seq<(String, String)>,
    db_base: Seq<char>,
    n: int,
    q: Seq<char>,
) -> bool {
    exists|t: int| 0 <= t < n && q == spec_page_file(db_base, pages[t].0@)
}

impl Docset {
    /// The directory holding this generation's unpacked pages, relative to
    /// the cache root.
    pub open spec fn spec_db_directory(self) -> Seq<char> {
        spec_joined(self.spec_base_directory(), "db"@)
    }

    /// The cache-relative directory of this generation's unpacked pages.
    pub fn db_directory(&self) -> (r: String)
        ensures
            r@ == self.spec_db_directory(),
    {
        let base = self.base_directory();
        crate::paths::join_path(base.as_str(), "db")
    }

    /// Unpacks a content bundle: writes each page's body to its own file
    /// under this generation's `db` directory.  Pages carry distinct paths
    /// (the bundle is a mapping); page writes may land in any order, and
    /// distinct pages never share a target file, so afterwards every page's
    /// file holds exactly that page's body and no other path changed.
    pub fn unpack_db(&self, fs: &mut FileSys, pages: &Vec<(String, String)>)
        requires
            old(fs).wf(),
            forall|t1: int, t2: int|
                0 <= t1 < t2 < pages@.len() ==> pages@[t1].0@ != pages@[t2].0@,
        ensures
            final(fs).wf(),
            forall|t: int|
                0 <= t < pages@.len() ==> final(fs)@.contains_key(
                    #[trigger] spec_page_file(self.spec_db_directory(), pages@[t].0@),
                ) && final(fs)@[spec_page_file(self.spec_db_directory(), pages@[t].0@)]
                    == pages@[t].1@,
            forall|q: Seq<char>|
                #![trigger final(fs)@.contains_key(q)]
                #![trigger final(fs)@[q]]
                !page_written(pages@, self.spec_db_directory(), pages@.len() as int, q)
                    ==> (final(fs)@.contains_key(q) == old(fs)@.contains_key(q) && (old(
                    fs)@.contains_key(q) ==> final(fs)@[q] == old(fs)@[q])),
    {
        let ghost m0 = fs@;
        let ghost base = self.spec_db_directory();
        let db_base = self.db_directory();
        let mut i: usize = 0;
        while i < pages.len()
            invariant
                fs.wf(),
                db_base@ == base,
                i <= pages@.len(),
                forall|t1: int, t2: int|
                    0 <= t1 < t2 < pages@.len() ==> pages@[t1].0@ != pages@[t2].0@,
                forall|t: int|
                    0 <= t < i ==> fs@.contains_key(
                        #[trigger] spec_page_file(base, pages@[t].0@),
                    ) && fs@[spec_page_file(base, pages@[t].0@)] == pages@[t].1@,
                forall|q: Seq<char>|
                    #![trigger fs@.contains_key(q)]
                    #![trigger fs@[q]]
                    !page_written(pages@, base, i as int, q) ==> (fs@.contains_key(q)
                        == m0.contains_key(q) && (m0.contains_key(q) ==> fs@[q] == m0[q])),
            decreases pages@.len() - i,
        {
            let target = crate::paths::page_file_path(db_base.as_str(), pages[i].0.as_str());
            fs.write_plain(target.as_str(), pages[i].1.as_str());
            proof {
                assert forall|t: int|
                    0 <= t < i + 1 implies fs@.contains_key(
                    #[trigger] spec_page_file(base, pages@[t].0@),
                ) && fs@[spec_page_file(base, pages@[t].0@)] == pages@[t].1@ by {
                    if t < i {
                        lemma_page_file_injective(base, pages@[t].0@, pages@[i as int].0@);
                    }
                }
                assert forall|q: Seq<char>|
                    !page_written(pages@, base, i + 1, q) implies (fs@.contains_key(q)
                    == m0.contains_key(q) && (m0.contains_key(q) ==> fs@[q] == m0[q])) by {
                    assert(!page_written(pages@, base, i as int, q));
                    assert(q != spec_page_file(base, pages@[i as int].0@));
                }
            }
            i = i + 1;
        }
    }

    /// Runs one fetch/unpack unit for this documentation set.
    ///
    /// The index resource and the content bundle are fetched independently
    /// (their outcomes are `index_fetch` and `db_fetch`); each successful
    /// fetch is cached durably under this generation's key.  The two are
    /// then joined: either failure fails the unit with that error — the
    /// index side first — and in that case not a single page file is
    /// written.  On success the bundle is unpacked, one file per page, and
    /// the index payload is the unit's result.
    pub fn update_all(
        &self,
        fs: &mut FileSys,
        index_fetch: Result<String, StoreError>,
        db_fetch: Result<ContentBundle, StoreError>,
        temp_index: &str,
        temp_db: &str,
    ) -> (r: Result<String, StoreError>)
        requires
            old(fs).wf(),
            !old(fs)@.contains_key(temp_index@),
            !old(fs)@.contains_key(temp_db@),
            temp_index@ != self.spec_index_filename(),
            temp_db@ != temp_index@,
            temp_db@ != self.spec_db_filename(),
            temp_db@ != self.spec_index_filename(),
            self.spec_index_filename() != self.spec_db_filename(),
            db_fetch is Ok ==> forall|t1: int, t2: int|
                0 <= t1 < t2 < db_fetch->Ok_0.pages@.len() ==> db_fetch->Ok_0.pages@[t1].0@
                    != db_fetch->Ok_0.pages@[t2].0@,
        ensures
            final(fs).wf(),
            r is Ok <==> (index_fetch is Ok && db_fetch is Ok),
            index_fetch is Err ==> r->Err_0 == index_fetch->Err_0,
            index_fetch is Ok && db_fetch is Err ==> r->Err_0 == db_fetch->Err_0,
            r is Ok ==> r->Ok_0 == index_fetch->Ok_0,
            // what lands in the cache: each successful fetch, and on full
            // success the unpacked pages; a failed unit writes no page.
            match (index_fetch, db_fetch) {
                (Err(_), Err(_)) => final(fs)@ == old(fs)@,
                (Ok(ix), Err(_)) => final(fs)@ == old(fs)@.insert(self.spec_index_filename(), ix@),
                (Err(_), Ok(db)) => final(fs)@ == old(fs)@.insert(self.spec_db_filename(), db.raw@),
                (Ok(ix), Ok(db)) => {
                    &&& (forall|t: int|
                        0 <= t < db.pages@.len() ==> final(fs)@.contains_key(
                            #[trigger] spec_page_file(self.spec_db_directory(), db.pages@[t].0@),
                        ) && final(fs)@[spec_page_file(self.spec_db_directory(), db.pages@[t].0@)]
                            == db.pages@[t].1@)
                    &&& (forall|q: Seq<char>|
                        #![trigger final(fs)@.contains_key(q)]
                        #![trigger final(fs)@[q]]
                        !page_written(db.pages@, self.spec_db_directory(), db.pages@.len() as int, q)
                            ==> {
                            let mid = old(fs)@.insert(self.spec_index_filename(), ix@).insert(
                                self.spec_db_filename(),
                                db.raw@,
                            );
                            final(fs)@.contains_key(q) == mid.contains_key(q) && (mid.contains_key(
                                q,
                            ) ==> final(fs)@[q] == mid[q])
                        })
                },
            },
    {
        let index_filename = self.index_filename();
        let db_filename = self.db_filename();
        let cached_index: Result<String, StoreError> = match index_fetch {
            Ok(payload) => {
                fs.write_to_cache(index_filename.as_str(), temp_index, payload.as_str());
                Ok(payload)
            },
            Err(e) => Err(e),
        };
        let cached_db: Result<ContentBundle, StoreError> = match db_fetch {
            Ok(bundle) => {
                fs.write_to_cache(db_filename.as_str(), temp_db, bundle.raw.as_str());
                Ok(bundle)
            },
            Err(e) => Err(e),
        };
        match join_fetch_results(cached_index, cached_db) {
            Ok((index_payload, bundle)) => {
                self.unpack_db(fs, &bundle.pages);
                Ok(index_payload)
            },
            Err(e) => Err(e),
        }
    }
}

} // verus!
