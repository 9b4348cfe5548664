//! Durable cache store.
//!
//! The store is a uniform get/put of string-valued resources at named paths
//! under one cache root.  Its durability contract is the atomic-write
//! protocol: a value is first written to a freshly created, uniquely named
//! temporary file, and only then renamed onto its final path.  A reader of
//! the final path therefore sees either the complete previous value or the
//! complete new value, never a partial write.
//!
//! The store is modelled here as a map from path to content, and the
//! protocol's three steps — create the temporary file, fill it, rename it —
//! are each specified by the exact effect on that map.  The I/O that realizes
//! a step on a real filesystem lives outside the library; every decision
//! (whether a key is cached, what is written where, what a failed fetch
//! leaves behind) is made and proved here.

use vstd::prelude::*;

use crate::StoreError;

verus! {

struct FileEntry {
    path: String,
    data: String,
}

/// The contents of the cache: a map from path to complete file content.
pub struct FileSys {
    files: Vec<FileEntry>,
}

/// No two entries share a path.
spec fn uniq(s: Seq<FileEntry>) -> bool {
    forall|i: int, j: int| 0 <= i < j < s.len() ==> s[i].path@ != s[j].path@
}

/// The map held by a sequence of file entries, later entries winning.
spec fn map_of(s: Seq<FileEntry>) -> Map<Seq<char>, Seq<char>>
    decreases s.len(),
{
    if s.len() == 0 {
        Map::empty()
    } else {
        map_of(s.drop_last()).insert(s.last().path@, s.last().data@)
    }
}

impl View for FileSys {
    type V = Map<Seq<char>, Seq<char>>;

    closed spec fn view(&self) -> Map<Seq<char>, Seq<char>> {
        map_of(self.files@)
    }
}

proof fn lemma_map_of_contains(s: Seq<FileEntry>, p: Seq<char>)
    ensures
        map_of(s).contains_key(p) <==> exists|i: int| 0 <= i < s.len() && s[i].path@ == p,
    decreases s.len(),
{
    if s.len() > 0 {
        lemma_map_of_contains(s.drop_last(), p);
        if s.last().path@ == p {
            assert(s[s.len() - 1].path@ == p);
        } else if map_of(s).contains_key(p) {
            let i = choose|i: int| 0 <= i < s.drop_last().len() && s.drop_last()[i].path@ == p;
            assert(s[i].path@ == p);
        } else {
            assert forall|i: int| 0 <= i < s.len() implies s[i].path@ != p by {
                if i < s.len() - 1 {
                    assert(s.drop_last()[i].path@ == s[i].path@);
                }
            }
        }
    }
}

proof fn lemma_map_of_index(s: Seq<FileEntry>, i: int)
    requires
        uniq(s),
        0 <= i < s.len(),
    ensures
        map_of(s).contains_key(s[i].path@),
        map_of(s)[s[i].path@] == s[i].data@,
    decreases s.len(),
{
    lemma_map_of_contains(s, s[i].path@);
    if i == s.len() - 1 {
    } else {
        assert(s.drop_last()[i] == s[i]);
        lemma_map_of_index(s.drop_last(), i);
        assert(s.last().path@ != s[i].path@);
    }
}

/// Replacing entry `i` by `e` removes the old path and inserts the new one,
/// provided no other entry holds `e`'s path.
proof fn lemma_map_of_set_entry(s: Seq<FileEntry>, i: int, e: FileEntry)
    requires
        uniq(s),
        0 <= i < s.len(),
        forall|j: int| 0 <= j < s.len() && j != i ==> s[j].path@ != e.path@,
    ensures
        map_of(s.update(i, e)) == map_of(s).remove(s[i].path@).insert(e.path@, e.data@),
        uniq(s.update(i, e)),
    decreases s.len(),
{
    let t = s.update(i, e);
    assert forall|x: int, y: int| 0 <= x < y < t.len() implies t[x].path@ != t[y].path@ by {
        if x != i && y != i {
            assert(s[x].path@ != s[y].path@);
        }
    }
    if i == s.len() - 1 {
        assert(t.drop_last() =~= s.drop_last());
        lemma_map_of_contains(s.drop_last(), s[i].path@);
        assert(!map_of(s.drop_last()).contains_key(s[i].path@)) by {
            if exists|j: int| 0 <= j < s.drop_last().len() && s.drop_last()[j].path@
                == s[i].path@ {
                let j = choose|j: int|
                    0 <= j < s.drop_last().len() && s.drop_last()[j].path@ == s[i].path@;
                assert(s[j].path@ == s[i].path@);
            }
        }
        assert(map_of(t) =~= map_of(s).remove(s[i].path@).insert(e.path@, e.data@));
    } else {
        assert(t.last() == s.last());
        assert(t.drop_last() =~= s.drop_last().update(i, e));
        assert(s.drop_last()[i] == s[i]);
        assert forall|j: int| 0 <= j < s.drop_last().len() && j != i
            implies s.drop_last()[j].path@ != e.path@ by {
            assert(s.drop_last()[j] == s[j]);
        }
        lemma_map_of_set_entry(s.drop_last(), i, e);
        assert(s.last().path@ != s[i].path@);
        assert(s.last().path@ != e.path@);
        assert(map_of(t) =~= map_of(s).remove(s[i].path@).insert(e.path@, e.data@));
    }
}

/// Removing entry `i` removes exactly its path from the map.
proof fn lemma_map_of_remove(s: Seq<FileEntry>, i: int)
    requires
        uniq(s),
        0 <= i < s.len(),
    ensures
        map_of(s.remove(i)) == map_of(s).remove(s[i].path@),
        uniq(s.remove(i)),
    decreases s.len(),
{
    let t = s.remove(i);
    assert forall|x: int, y: int| 0 <= x < y < t.len() implies t[x].path@ != t[y].path@ by {
        let sx: int = if x < i {
            x
        } else {
            x + 1
        };
        let sy: int = if y < i {
            y
        } else {
            y + 1
        };
        assert(t[x] == s[sx]);
        assert(t[y] == s[sy]);
    }
    if i == s.len() - 1 {
        assert(t =~= s.drop_last());
        lemma_map_of_contains(s.drop_last(), s[i].path@);
        assert(!map_of(s.drop_last()).contains_key(s[i].path@)) by {
            if exists|j: int| 0 <= j < s.drop_last().len() && s.drop_last()[j].path@
                == s[i].path@ {
                let j = choose|j: int|
                    0 <= j < s.drop_last().len() && s.drop_last()[j].path@ == s[i].path@;
                assert(s[j].path@ == s[i].path@);
            }
        }
        assert(map_of(t) =~= map_of(s).remove(s[i].path@));
    } else {
        assert(t.last() == s.last());
        assert(t.drop_last() =~= s.drop_last().remove(i));
        assert(s.drop_last()[i] == s[i]);
        lemma_map_of_remove(s.drop_last(), i);
        assert(s.last().path@ != s[i].path@);
        assert(map_of(t) =~= map_of(s).remove(s[i].path@));
    }
}

impl FileSys {
    /// The store's invariant: every path is held by at most one entry.
    pub closed spec fn wf(self) -> bool {
        uniq(self.files@)
    }

    /// An empty cache.
    pub fn new() -> (fs: FileSys)
        ensures
            fs.wf(),
            fs@ == Map::<Seq<char>, Seq<char>>::empty(),
    {
        FileSys { files: Vec::new() }
    }

    /// The index of the entry holding `path`, if any.
    fn find(&self, path: &str) -> (r: Option<usize>)
        ensures
            match r {
                Some(i) => i < self.files@.len() && self.files@[i as int].path@ == path@,
                None => forall|j: int| 0 <= j < self.files@.len() ==> self.files@[j].path@ != path@,
            },
    {
        let owned = path.to_owned();
        let mut i: usize = 0;
        while i < self.files.len()
            invariant
                i <= self.files@.len(),
                owned@ == path@,
                forall|j: int| 0 <= j < i ==> self.files@[j].path@ != path@,
            decreases self.files@.len() - i,
        {
            if self.files[i].path == owned {
                return Some(i);
            }
            i = i + 1;
        }
        None
    }

    /// Whether a complete value is cached at `path`.
    pub fn cache_file_exists(&self, path: &str) -> (r: bool)
        requires
            self.wf(),
        ensures
            r == self@.contains_key(path@),
    {
        let found = self.find(path);
        proof {
            lemma_map_of_contains(self.files@, path@);
        }
        found.is_some()
    }

    /// Reads the complete value cached at `path`; a missing path is the
    /// recoverable `NotFound`.
    pub fn read_from_cache(&self, path: &str) -> (r: Result<String, StoreError>)
        requires
            self.wf(),
        ensures
            match r {
                Ok(data) => self@.contains_key(path@) && data@ == self@[path@],
                Err(e) => e is NotFound && !self@.contains_key(path@),
            },
    {
        proof {
            lemma_map_of_contains(self.files@, path@);
        }
        match self.find(path) {
            Some(i) => {
                proof {
                    lemma_map_of_index(self.files@, i as int);
                }
                Ok(self.files[i].data.clone())
            },
            None => Err(StoreError::NotFound),
        }
    }

    /// Writes `data` at `path` in place, as the page fan-out does for the
    /// many small page bodies of one content bundle.
    pub fn write_plain(&mut self, path: &str, data: &str)
        requires
            old(self).wf(),
        ensures
            final(self).wf(),
            final(self)@ == old(self)@.insert(path@, data@),
    {
        let ghost s0 = self.files@;
        match self.find(path) {
            Some(i) => {
                self.files[i].data = data.to_owned();
                proof {
                    assert(self.files@ =~= s0.update(i as int, self.files@[i as int]));
                    lemma_map_of_set_entry(s0, i as int, self.files@[i as int]);
                    assert(map_of(self.files@) =~= map_of(s0).insert(path@, data@));
                }
            },
            None => {
                self.files.push(FileEntry { path: path.to_owned(), data: data.to_owned() });
                proof {
                    assert(self.files@.drop_last() =~= s0);
                    assert(map_of(self.files@) =~= map_of(s0).insert(path@, data@));
                }
            },
        }
    }

    /// First protocol step: create the temporary file, empty.  The name is
    /// fresh by construction (a unique-temp-file primitive supplies it), so
    /// no existing path — in particular no final cache path — is touched.
    pub fn create_temp(&mut self, temp: &str)
        requires
            old(self).wf(),
            !old(self)@.contains_key(temp@),
        ensures
            final(self).wf(),
            final(self)@ == old(self)@.insert(temp@, Seq::<char>::empty()),
    {
        let ghost s0 = self.files@;
        proof {
            lemma_map_of_contains(s0, temp@);
        }
        self.files.push(FileEntry { path: temp.to_owned(), data: String::new() });
        proof {
            assert(self.files@.drop_last() =~= s0);
            assert(map_of(self.files@) =~= map_of(s0).insert(temp@, Seq::<char>::empty()));
        }
    }

    /// Second protocol step: append a chunk to the temporary file.  An
    /// interrupted write stops after some number of appends; only the
    /// temporary path ever changes.
    pub fn append_temp(&mut self, temp: &str, chunk: &str)
        requires
            old(self).wf(),
            old(self)@.contains_key(temp@),
        ensures
            final(self).wf(),
            final(self)@ == old(self)@.insert(temp@, old(self)@[temp@] + chunk@),
    {
        let ghost s0 = self.files@;
        proof {
            lemma_map_of_contains(s0, temp@);
        }
        match self.find(temp) {
            Some(i) => {
                proof {
                    lemma_map_of_index(s0, i as int);
                }
                self.files[i].data.append(chunk);
                proof {
                    assert(self.files@ =~= s0.update(i as int, self.files@[i as int]));
                    lemma_map_of_set_entry(s0, i as int, self.files@[i as int]);
                    assert(map_of(self.files@) =~= map_of(s0).insert(
                        temp@,
                        map_of(s0)[temp@] + chunk@,
                    ));
                }
            },
            None => {
                proof {
                    assert(false);
                }
            },
        }
    }

    /// Third protocol step: atomically rename the temporary file onto the
    /// final path, replacing whatever complete value was there.
    pub fn rename_file(&mut self, from: &str, to: &str)
        requires
            old(self).wf(),
            old(self)@.contains_key(from@),
            from@ != to@,
        ensures
            final(self).wf(),
            final(self)@ == old(self)@.remove(from@).insert(to@, old(self)@[from@]),
    {
        let ghost s0 = self.files@;
        proof {
            lemma_map_of_contains(s0, from@);
            lemma_map_of_contains(s0, to@);
        }
        match self.find(to) {
            Some(j) => {
                self.files.remove(j);
                proof {
                    lemma_map_of_remove(s0, j as int);
                }
            },
            None => {
                proof {
                    assert(map_of(s0).remove(to@) =~= map_of(s0));
                }
            },
        }
        let ghost s1 = self.files@;
        proof {
            assert(map_of(s1) == map_of(s0).remove(to@));
            assert(uniq(s1));
            lemma_map_of_contains(s1, from@);
        }
        match self.find(from) {
            Some(i) => {
                proof {
                    lemma_map_of_index(s1, i as int);
                }
                self.files[i].path = to.to_owned();
                proof {
                    assert(self.files@ =~= s1.update(i as int, self.files@[i as int]));
                    assert forall|j: int|
                        0 <= j < s1.len() && j != i implies s1[j].path@ != to@ by {
                        lemma_map_of_index(s1, j);
                        assert(!map_of(s1).contains_key(to@));
                    }
                    lemma_map_of_set_entry(s1, i as int, self.files@[i as int]);
                    assert(map_of(self.files@) =~= map_of(s0).remove(from@).insert(
                        to@,
                        map_of(s0)[from@],
                    ));
                }
            },
            None => {
                proof {
                    assert(false);
                }
            },
        }
    }

    /// Writes a complete value durably: the full atomic-write protocol in
    /// one call.  `temp` is the fresh unique temporary name; the net effect
    /// on the cache is exactly one complete value appearing at `path`.
    pub fn write_to_cache(&mut self, path: &str, temp: &str, data: &str)
        requires
            old(self).wf(),
            !old(self)@.contains_key(temp@),
            temp@ != path@,
        ensures
            final(self).wf(),
            final(self)@ == old(self)@.insert(path@, data@),
    {
        let ghost m0 = self@;
        self.create_temp(temp);
        self.append_temp(temp, data);
        proof {
            assert(Seq::<char>::empty() + data@ =~= data@);
        }
        self.rename_file(temp, path);
        proof {
            assert(self@ =~= m0.insert(path@, data@));
        }
    }
}

/// Whether `download_file` reaches the network: only when the value is not
/// taken from the cache.
pub open spec fn spec_fetches(
    m: Map<Seq<char>, Seq<char>>,
    key: Seq<char>,
    skip_if_exists: bool,
) -> bool {
    !(skip_if_exists && m.contains_key(key))
}

impl FileSys {
    /// Fetch-or-read combinator: with `skip_if_exists` set and the key
    /// cached, the cached value is returned without touching the network;
    /// otherwise the remote outcome `remote` decides.  A successful fetch is
    /// written durably before it is returned; a failed fetch writes nothing,
    /// not even partial data, and surfaces its error unchanged.
    pub fn download_file(
        &mut self,
        filename: &str,
        remote: Result<String, StoreError>,
        temp: &str,
        skip_if_exists: bool,
    ) -> (r: (Result<String, StoreError>, bool))
        requires
            old(self).wf(),
            !old(self)@.contains_key(temp@),
            temp@ != filename@,
        ensures
            final(self).wf(),
            r.1 == spec_fetches(old(self)@, filename@, skip_if_exists),
            !r.1 ==> final(self)@ == old(self)@ && r.0 is Ok && r.0->Ok_0@ == old(
                self)@[filename@],
            r.1 ==> match remote {
                Ok(payload) => final(self)@ == old(self)@.insert(filename@, payload@)
                    && r.0 is Ok && r.0->Ok_0@ == payload@,
                Err(_) => final(self)@ == old(self)@ && r.0 == remote,
            },
    {
        if skip_if_exists && self.cache_file_exists(filename) {
            match self.read_from_cache(filename) {
                Ok(d) => (Ok(d), false),
                Err(_) => {
                    proof {
                        assert(false);
                    }
                    (Err(StoreError::NotFound), false)
                },
            }
        } else {
            match remote {
                Ok(payload) => {
                    self.write_to_cache(filename, temp, payload.as_str());
                    (Ok(payload), true)
                },
                Err(e) => (Err(e), true),
            }
        }
    }
}

/// Fetch-once idempotence: with `skip_if_exists` set, an uncached key is
/// fetched by the first call and a successful fetch caches it, so a second
/// call finds it cached and fetches nothing; a key cached from the start is
/// never fetched at all.  Two calls thus reach the network exactly once for
/// an uncached key, and zero times for a cached one.
pub proof fn lemma_download_file_idempotent(
    m: Map<Seq<char>, Seq<char>>,
    key: Seq<char>,
    payload: Seq<char>,
)
    ensures
        spec_fetches(m, key, true) == !m.contains_key(key),
        !spec_fetches(m.insert(key, payload), key, true),
{
}

/// Atomicity of the durable write: while the protocol has created and filled
/// the temporary file but not yet renamed it, the destination path is exactly
/// as it was — present with the same complete content, or absent.  A reader
/// of the destination never observes a partial value.
pub proof fn lemma_interrupted_write_preserves_dest(
    m: Map<Seq<char>, Seq<char>>,
    temp: Seq<char>,
    partial: Seq<char>,
    dest: Seq<char>,
)
    requires
        temp != dest,
    ensures
        m.insert(temp, partial).contains_key(dest) == m.contains_key(dest),
        m.contains_key(dest) ==> m.insert(temp, partial)[dest] == m[dest],
{
}

/// Round trip of the durable write: after the full protocol writes `data` at
/// `path`, the value read back at `path` is exactly `data`.
pub proof fn lemma_write_read_round_trip(m: Map<Seq<char>, Seq<char>>, path: Seq<char>, data: Seq<char>)
    ensures
        m.insert(path, data).contains_key(path),
        m.insert(path, data)[path] == data,
{
}

} // verus!
