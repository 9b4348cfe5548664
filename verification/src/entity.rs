//! The entities of the documentation mirror: the catalog entry of one
//! documentation set, and the index of pages and symbols inside a set.
//!
//! A documentation set is identified by its slug; together with its
//! modification token (`mtime`) the slug names one *generation* of cached
//! data.  Every derived cache path and remote URL embeds both, so a changed
//! token naturally invalidates the previously cached sub-resources.

use vstd::prelude::*;

use crate::cache::CacheMeta;
use crate::cache::CachesManager;
use crate::digits::dec_seq_signed;
use crate::digits::i64_to_dec;
use crate::paths::spec_joined;
use crate::store::spec_fetches;
use crate::store::FileSys;
use crate::StoreError;

verus! {

/// What one guarded catalog refresh did: the catalog payload (or the error
/// that stopped it), whether the network was reached, and the freshness
/// record to persist if — and only if — the refresh succeeded.
pub struct CatalogFetch {
    pub outcome: Result<String, StoreError>,
    pub fetched: bool,
    pub new_meta: Option<CacheMeta>,
}

/// One remote documentation corpus, as described by the remote catalog.
pub struct Docset {
    pub name: String,
    pub slug: String,
    pub doc_type: String,
    pub links: Option<Vec<(String, String)>>,
    pub version: Option<String>,
    pub release: Option<String>,
    pub mtime: i64,
    pub db_size: i64,
}

/// One page or symbol inside a documentation set's index.
pub struct IndexEntry {
    pub name: String,
    pub path: String,
    pub doc_type: String,
}

/// One type facet of an index: a type name with its entry count.
pub struct IndexType {
    pub name: String,
    pub count: u32,
    pub slug: String,
}

/// The full index of one documentation set.
pub struct Index {
    pub entries: Vec<IndexEntry>,
    pub types: Vec<IndexType>,
}

/// One index entry as consumed by the search collaborator.
pub struct Entry {
    pub name: String,
    pub path: String,
    pub doc_type: String,
}

impl Docset {
    /// The directory that holds one generation of this set's cached data:
    /// the slug, then the decimal modification token.
    pub open spec fn spec_base_directory(self) -> Seq<char> {
        spec_joined(self.slug@, dec_seq_signed(self.mtime as int))
    }

    /// The cache key of this generation's index resource.
    pub open spec fn spec_index_filename(self) -> Seq<char> {
        spec_joined(self.spec_base_directory(), "index.json"@)
    }

    /// The cache key of this generation's content-bundle resource.
    pub open spec fn spec_db_filename(self) -> Seq<char> {
        spec_joined(self.spec_base_directory(), "db.json"@)
    }

    /// The remote URL of this generation's index resource.
    pub open spec fn spec_index_url(self) -> Seq<char> {
        "https://documents.devdocs.io/"@ + self.slug@ + "/index.json?"@ + dec_seq_signed(
            self.mtime as int,
        )
    }

    /// The remote URL of this generation's content-bundle resource.
    pub open spec fn spec_db_url(self) -> Seq<char> {
        "https://documents.devdocs.io/"@ + self.slug@ + "/db.json?"@ + dec_seq_signed(
            self.mtime as int,
        )
    }

    /// The cache directory of this generation, `slug/mtime`.
    pub fn base_directory(&self) -> (r: String)
        ensures
            r@ == self.spec_base_directory(),
    {
        let mtime = i64_to_dec(self.mtime);
        crate::paths::join_path(self.slug.as_str(), mtime.as_str())
    }

    /// The cache key under which this generation's index is stored.
    pub fn index_filename(&self) -> (r: String)
        ensures
            r@ == self.spec_index_filename(),
    {
        let base = self.base_directory();
        crate::paths::join_path(base.as_str(), "index.json")
    }

    /// The cache key under which this generation's content bundle is stored.
    pub fn db_filename(&self) -> (r: String)
        ensures
            r@ == self.spec_db_filename(),
    {
        let base = self.base_directory();
        crate::paths::join_path(base.as_str(), "db.json")
    }

    /// The remote URL of this generation's index.
    pub fn index_url(&self) -> (r: String)
        ensures
            r@ == self.spec_index_url(),
    {
        let mut s = "https://documents.devdocs.io/".to_owned();
        s.append(self.slug.as_str());
        s.append("/index.json?");
        let mtime = i64_to_dec(self.mtime);
        s.append(mtime.as_str());
        proof {
            assert(s@ =~= self.spec_index_url());
        }
        s
    }

    /// The remote URL of this generation's content bundle.
    pub fn db_url(&self) -> (r: String)
        ensures
            r@ == self.spec_db_url(),
    {
        let mut s = "https://documents.devdocs.io/".to_owned();
        s.append(self.slug.as_str());
        s.append("/db.json?");
        let mtime = i64_to_dec(self.mtime);
        s.append(mtime.as_str());
        proof {
            assert(s@ =~= self.spec_db_url());
        }
        s
    }
}

impl Docset {
    /// Fetches the documentation-set catalog through the freshness check.
    ///
    /// When the catalog is cached and still fresh it is read back with no
    /// network traffic.  Otherwise the remote outcome decides: a successful
    /// fetch is written durably and only then is the freshness timestamp
    /// advanced to `now`; a failed fetch leaves both the cache and the
    /// freshness state exactly as they were, so the next invocation retries
    /// the same refresh.
    pub fn try_to_fetch_docsets(
        fs: &mut FileSys,
        caches: &mut CachesManager,
        now: u64,
        remote: Result<String, StoreError>,
        temp: &str,
    ) -> (r: CatalogFetch)
        requires
            old(fs).wf(),
            !old(fs)@.contains_key(temp@),
            temp@ != "docsets.json"@,
        ensures
            final(fs).wf(),
            r.fetched == !(old(fs)@.contains_key("docsets.json"@)
                && !old(caches).spec_should_refresh(now)),
            !r.fetched ==> final(fs)@ == old(fs)@ && *final(caches) == *old(caches)
                && r.new_meta is None && r.outcome is Ok && r.outcome->Ok_0@ == old(
                fs)@["docsets.json"@],
            r.fetched ==> match remote {
                Ok(payload) => final(fs)@ == old(fs)@.insert("docsets.json"@, payload@)
                    && final(caches).last_modified == now
                    && final(caches).root == old(caches).root
                    && final(caches).update_interval == old(caches).update_interval
                    && final(caches).force == old(caches).force
                    && r.outcome is Ok && r.outcome->Ok_0@ == payload@
                    && r.new_meta is Some && r.new_meta->0.last_modified == now,
                Err(_) => final(fs)@ == old(fs)@ && *final(caches) == *old(caches) && r.outcome
                    == remote && r.new_meta is None,
            },
    {
        let cached = fs.cache_file_exists("docsets.json");
        let refresh = caches.should_refresh_cache(now);
        if cached && !refresh {
            match fs.read_from_cache("docsets.json") {
                Ok(d) => CatalogFetch { outcome: Ok(d), fetched: false, new_meta: None },
                Err(_) => {
                    proof {
                        assert(false);
                    }
                    CatalogFetch {
                        outcome: Err(StoreError::NotFound),
                        fetched: false,
                        new_meta: None,
                    }
                },
            }
        } else {
            match remote {
                Ok(payload) => {
                    fs.write_to_cache("docsets.json", temp, payload.as_str());
                    let meta = caches.flush_meta(now);
                    CatalogFetch { outcome: Ok(payload), fetched: true, new_meta: Some(meta) }
                },
                Err(e) => CatalogFetch { outcome: Err(e), fetched: true, new_meta: None },
            }
        }
    }
}

impl Entry {
    /// Brings one documentation set's index up to date: the cached index is
    /// reused when present, and fetched, parsed and cached otherwise.  The
    /// remote outcome `remote` stands for the index fetch; the returned flag
    /// says whether the network was reached.
    pub fn try_to_update(
        fs: &mut FileSys,
        docset: &Docset,
        remote: Result<String, StoreError>,
        temp: &str,
    ) -> (r: (Result<String, StoreError>, bool))
        requires
            old(fs).wf(),
            !old(fs)@.contains_key(temp@),
            temp@ != docset.spec_index_filename(),
        ensures
            final(fs).wf(),
            r.1 == spec_fetches(old(fs)@, docset.spec_index_filename(), true),
            !r.1 ==> final(fs)@ == old(fs)@ && r.0 is Ok && r.0->Ok_0@ == old(
                fs)@[docset.spec_index_filename()],
            r.1 ==> match remote {
                Ok(payload) => final(fs)@ == old(fs)@.insert(docset.spec_index_filename(), payload@)
                    && r.0 is Ok && r.0->Ok_0@ == payload@,
                Err(_) => final(fs)@ == old(fs)@ && r.0 == remote,
            },
    {
        let filename = docset.index_filename();
        fs.download_file(filename.as_str(), remote, temp, true)
    }
}

/// Two generations of one documentation set never share a cache location:
/// the `slug/mtime` directory embeds the modification token, so a changed
/// token yields a fresh path and the previously cached sub-resources are
/// left untouched rather than overwritten.
pub proof fn lemma_generations_never_collide(d1: Docset, d2: Docset)
    requires
        d1.slug@ == d2.slug@,
        d1.mtime != d2.mtime,
    ensures
        d1.spec_base_directory() != d2.spec_base_directory(),
{
    if d1.spec_base_directory() == d2.spec_base_directory() {
        let n: int = d1.slug@.len() as int + 1;
        let b1 = d1.spec_base_directory();
        let b2 = d2.spec_base_directory();
        assert(dec_seq_signed(d1.mtime as int) =~= b1.subrange(n, b1.len() as int));
        assert(dec_seq_signed(d2.mtime as int) =~= b2.subrange(n, b2.len() as int));
        crate::digits::lemma_dec_seq_signed_injective(d1.mtime as int, d2.mtime as int);
    }
}

/// The remote endpoint that serves the documentation-set catalog.
pub fn devdocs_meta_url() -> (r: &'static str)
    ensures
        r@ == "https://devdocs.io/docs.json"@,
{
    "https://devdocs.io/docs.json"
}

} // verus!
