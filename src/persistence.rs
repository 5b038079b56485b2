//! The node cache of the data utility: releases by manifest reference, kept on disk and
//! reconciled with fresh downloads according to a mode.

use vstd::prelude::*;
use vstd::string::{StrSliceExecFns, StringExecFns};
use crate::graph::{Release, ReleaseModel};
use crate::strmap::{keys_unique, map_of, lemma_map_of_dom, lemma_map_of_index, lemma_map_of_update};

verus! {

/// What a cached value holds.
pub open spec fn model_of(v: Option<Release>) -> Option<ReleaseModel> {
    match v {
        Some(r) => Some(r.model()),
        None => None,
    }
}

pub open spec fn cache_pairs(entries: Seq<(String, Option<Release>)>) -> Seq<(Seq<char>, Option<ReleaseModel>)> {
    entries.map_values(|p: (String, Option<Release>)| (p.0@, model_of(p.1)))
}

fn copy_value(v: &Option<Release>) -> (r: Option<Release>)
    ensures
        model_of(r) == model_of(*v),
{
    match v {
        Some(rel) => Some(rel.copy()),
        None => None,
    }
}

/// Cached releases by manifest reference (`algo:hash`). A reference may map to no release.
pub struct Cache {
    entries: Vec<(String, Option<Release>)>,
}

impl Cache {
    pub closed spec fn pairs(&self) -> Seq<(Seq<char>, Option<ReleaseModel>)> {
        cache_pairs(self.entries@)
    }

    pub open spec fn view(&self) -> Map<Seq<char>, Option<ReleaseModel>> {
        map_of(self.pairs())
    }

    /// The keys in order of insertion.
    pub open spec fn keys(&self) -> Seq<Seq<char>> {
        self.pairs().map_values(|p: (Seq<char>, Option<ReleaseModel>)| p.0)
    }

    /// Keys are unique.
    #[verifier::type_invariant]
    pub closed spec fn wf(&self) -> bool {
        keys_unique(self.pairs())
    }

    pub fn new() -> (r: Cache)
        ensures
            r.view() == Map::<Seq<char>, Option<ReleaseModel>>::empty(),
            r.pairs().len() == 0,
    {
        let r = Cache { entries: Vec::new() };
        assert(r.pairs() =~= Seq::<(Seq<char>, Option<ReleaseModel>)>::empty());
        r
    }

    /// The number of entries.
    pub fn len(&self) -> (n: usize)
        ensures
            n == self.pairs().len(),
    {
        self.entries.len()
    }

    /// The entry at position `i` in order of insertion.
    pub fn entry(&self, i: usize) -> (r: (&String, &Option<Release>))
        requires
            i < self.pairs().len(),
        ensures
            r.0@ == self.pairs()[i as int].0,
            model_of(*r.1) == self.pairs()[i as int].1,
    {
        (&self.entries[i].0, &self.entries[i].1)
    }

    proof fn lemma_entry(&self, i: int)
        requires
            self.wf(),
            0 <= i < self.pairs().len(),
        ensures
            self.view().contains_key(self.pairs()[i].0),
            self.view()[self.pairs()[i].0] == self.pairs()[i].1,
    {
        lemma_map_of_index(self.pairs(), i);
    }

    fn position(&self, key: &str) -> (r: Option<usize>)
        ensures
            match r {
                Some(i) => i < self.pairs().len() && self.pairs()[i as int].0 == key@,
                None => !self.view().contains_key(key@),
            },
    {
        let wanted: String = key.to_owned();
        let mut i: usize = 0;
        while i < self.entries.len()
            invariant
                i <= self.entries.len(),
                wanted@ == key@,
                forall|j: int| 0 <= j < i ==> self.pairs()[j].0 != key@,
            decreases self.entries.len() - i,
        {
            if self.entries[i].0 == wanted {
                return Some(i);
            }
            i = i + 1;
        }
        proof {
            lemma_map_of_dom(self.pairs(), key@);
        }
        None
    }

    /// The value under `key`, if the key is present.
    pub fn get(&self, key: &str) -> (r: Option<&Option<Release>>)
        ensures
            match r {
                Some(v) => self.view().contains_key(key@) && self.view()[key@] == model_of(*v),
                None => !self.view().contains_key(key@),
            },
    {
        proof {
            use_type_invariant(self);
        }
        match self.position(key) {
            Some(i) => {
                proof {
                    self.lemma_entry(i as int);
                }
                Some(&self.entries[i].1)
            },
            None => None,
        }
    }

    /// A cache with the same entries.
    pub fn copy(&self) -> (r: Cache)
        ensures
            r.view() == self.view(),
    {
        proof {
            use_type_invariant(self);
        }
        let mut entries: Vec<(String, Option<Release>)> = Vec::new();
        let mut i: usize = 0;
        while i < self.entries.len()
            invariant
                i <= self.entries.len(),
                self.wf(),
                entries@.len() == i,
                self.pairs().len() == self.entries@.len(),
                cache_pairs(entries@) == self.pairs().take(i as int),
            decreases self.entries.len() - i,
        {
            let k = self.entries[i].0.clone();
            let v = copy_value(&self.entries[i].1);
            let ghost before = entries@;
            entries.push((k, v));
            assert forall|j: int| 0 <= j < i + 1 implies #[trigger] cache_pairs(entries@)[j] == self.pairs().take(i + 1)[j] by {
                if j < i {
                    assert(entries@[j] == before[j]);
                    assert(cache_pairs(before)[j] == self.pairs().take(i as int)[j]);
                }
            }
            assert(cache_pairs(entries@) =~= self.pairs().take(i + 1));
            i = i + 1;
        }
        assert(self.pairs().take(i as int) =~= self.pairs());
        Cache { entries }
    }

    /// Sets `key` to `value`, replacing any earlier value.
    pub fn insert(&mut self, key: String, value: Option<Release>)
        ensures
            final(self).view() == old(self).view().insert(key@, model_of(value)),
    {
        proof {
            use_type_invariant(&*self);
        }
        let found = self.position(key.as_str());
        let mut taken = Cache { entries: Vec::new() };
        proof {
            assert(taken.pairs() =~= Seq::<(Seq<char>, Option<ReleaseModel>)>::empty());
        }
        std::mem::swap(self, &mut taken);
        let mut entries = taken.entries;
        let ghost before = cache_pairs(entries@);
        let ghost mv = model_of(value);
        match found {
            Some(i) => {
                proof {
                    lemma_map_of_update(before, i as int, mv);
                }
                let k = entries[i].0.clone();
                entries.set(i, (k, value));
                assert(cache_pairs(entries@) =~= before.update(i as int, (before[i as int].0, mv)));
                assert forall|a: int, b: int|
                    0 <= a < cache_pairs(entries@).len() && 0 <= b < cache_pairs(entries@).len() && a
                        != b implies cache_pairs(entries@)[a].0 != cache_pairs(entries@)[b].0 by {
                    assert(cache_pairs(entries@)[a].0 == before[a].0);
                    assert(cache_pairs(entries@)[b].0 == before[b].0);
                }
            },
            None => {
                proof {
                    lemma_map_of_dom(before, key@);
                }
                entries.push((key, value));
                assert(cache_pairs(entries@).drop_last() =~= before);
                assert forall|a: int, b: int|
                    0 <= a < cache_pairs(entries@).len() && 0 <= b < cache_pairs(entries@).len() && a
                        != b implies cache_pairs(entries@)[a].0 != cache_pairs(entries@)[b].0 by {
                    if a < before.len() {
                        assert(cache_pairs(entries@)[a] == before[a]);
                    }
                    if b < before.len() {
                        assert(cache_pairs(entries@)[b] == before[b]);
                    }
                }
            },
        }
        *self = Cache { entries };
    }
}

/// How fresh downloads are reconciled with the cache.
#[derive(Clone, Copy, Debug, PartialEq, Eq, Structural)]
pub enum DownloadMode {
    /// Compare the download with the cache; change nothing.
    VerifyExistingOnly,
    /// Compare, then add what the cache lacks.
    VerifyExistingAddNew,
    /// Add everything downloaded, replacing cached values.
    AddNew,
    /// Start from an empty cache and add everything downloaded.
    AddNewOverwriteExisting,
}

/// Why reconciling failed.
#[derive(Debug)]
pub enum PersistenceError {
    /// Cached and downloaded values differ under these references.
    ValueMismatch(Vec<String>),
    /// This reference is not of the form `algo:hash`.
    BadManifestref(String),
    /// A downloaded release lacks the metadata key that holds its reference.
    MissingManifestref(String),
}

/// A value to be written to `<directory>/<algo>/<hash>`.
pub struct PersistJob {
    pub manifestref: String,
    pub algo: String,
    pub hash: String,
}

/// `m` holds one colon, at `p`.
pub open spec fn colon_at(m: Seq<char>, p: int) -> bool {
    &&& 0 <= p < m.len()
    &&& m[p] == ':'
    &&& forall|q: int| 0 <= q < m.len() && q != p ==> m[q] != ':'
}

/// The algorithm and hash of a reference `algo:hash`; `None` unless it holds one colon.
pub open spec fn manifestref_parts(m: Seq<char>) -> Option<(Seq<char>, Seq<char>)> {
    if exists|p: int| colon_at(m, p) {
        let p = choose|p: int| colon_at(m, p);
        Some((m.take(p), m.skip(p + 1)))
    } else {
        None
    }
}

/// Splits a reference `algo:hash` at its one colon.
pub fn split_manifestref(m: &str) -> (r: Option<(String, String)>)
    ensures
        match manifestref_parts(m@) {
            Some(parts) => r matches Some(x) && x.0@ == parts.0 && x.1@ == parts.1,
            None => r is None,
        },
{
    let n = m.unicode_len();
    let mut colon: Option<usize> = None;
    let mut i: usize = 0;
    while i < n
        invariant
            n == m@.len(),
            i <= n,
            match colon {
                None => forall|q: int| 0 <= q < i ==> m@[q] != ':',
                Some(p) => p < i && m@[p as int] == ':' && forall|q: int|
                    0 <= q < i && q != p ==> m@[q] != ':',
            },
        decreases n - i,
    {
        if m.get_char(i) == ':' {
            match colon {
                Some(p) => {
                    proof {
                        if exists|x: int| colon_at(m@, x) {
                            let x = choose|x: int| colon_at(m@, x);
                            assert(x == p as int);
                            assert(x == i as int);
                        }
                    }
                    return None;
                },
                None => {
                    colon = Some(i);
                },
            }
        }
        i = i + 1;
    }
    match colon {
        None => {
            proof {
                if exists|x: int| colon_at(m@, x) {
                    let x = choose|x: int| colon_at(m@, x);
                    assert(m@[x] == ':');
                }
            }
            None
        },
        Some(p) => {
            proof {
                assert(colon_at(m@, p as int));
                let x = choose|x: int| colon_at(m@, x);
                if x != p as int {
                    assert(m@[p as int] != ':');
                }
            }
            let algo = m.substring_char(0, p).to_owned();
            let hash = m.substring_char(p + 1, n).to_owned();
            proof {
                assert(m@.subrange(0, p as int) =~= m@.take(p as int));
                assert(m@.subrange(p + 1, n as int) =~= m@.skip(p + 1));
            }
            Some((algo, hash))
        },
    }
}

/// Cached and downloaded values agree wherever both have the reference.
pub open spec fn consistent(
    cached: Map<Seq<char>, Option<ReleaseModel>>,
    updated: Map<Seq<char>, Option<ReleaseModel>>,
) -> bool {
    forall|k: Seq<char>| #[trigger] cached.contains_key(k) && updated.contains_key(k) ==> cached[k]
        == updated[k]
}

/// The references whose values an update writes.
pub open spec fn to_persist(
    mode: DownloadMode,
    cached: Map<Seq<char>, Option<ReleaseModel>>,
    updated: Map<Seq<char>, Option<ReleaseModel>>,
) -> Set<Seq<char>> {
    if mode == DownloadMode::VerifyExistingAddNew {
        updated.dom().difference(cached.dom())
    } else {
        updated.dom()
    }
}

/// The references of a list of jobs.
pub open spec fn job_refs(jobs: Seq<PersistJob>) -> Set<Seq<char>> {
    Set::new(|k: Seq<char>| exists|t: int| 0 <= t < jobs.len() && #[trigger] jobs[t].manifestref@ == k)
}

/// Each job writes under the algorithm and hash of its reference.
pub open spec fn jobs_well_split(jobs: Seq<PersistJob>) -> bool {
    forall|t: int| 0 <= t < jobs.len() ==> #[trigger] manifestref_parts(jobs[t].manifestref@) == Some(
        (jobs[t].algo@, jobs[t].hash@),
    )
}

/// The cache agrees with entry `j` of an update.
pub open spec fn agrees_at(
    cached: Map<Seq<char>, Option<ReleaseModel>>,
    pairs: Seq<(Seq<char>, Option<ReleaseModel>)>,
    j: int,
) -> bool {
    !cached.contains_key(pairs[j].0) || cached[pairs[j].0] == pairs[j].1
}

fn same_value(a: &Option<Release>, b: &Option<Release>) -> (r: bool)
    ensures
        r == (model_of(*a) == model_of(*b)),
{
    match (a, b) {
        (Some(x), Some(y)) => x.same_as(y),
        (None, None) => true,
        _ => false,
    }
}

/// What `update_with` does with the fresh values `fresh`, for each mode.
pub open spec fn update_outcome(
    old: Persistence,
    new: Persistence,
    fresh: Map<Seq<char>, Option<ReleaseModel>>,
    r: Result<Vec<PersistJob>, PersistenceError>,
) -> bool {
    let cached = old.cache_view();
    let mode = old.mode_view();
    &&& new.directory_view() == old.directory_view()
    &&& new.mode_view() == old.mode_view()
    &&& if mode == DownloadMode::VerifyExistingOnly {
        &&& (r is Ok <==> consistent(cached, fresh))
        &&& (r matches Ok(jobs) ==> jobs@.len() == 0)
        &&& (r is Err ==> r matches Err(PersistenceError::ValueMismatch(_)))
        &&& new.cache_view() == cached
    } else if mode == DownloadMode::VerifyExistingAddNew && !consistent(cached, fresh) {
        &&& (r matches Err(PersistenceError::ValueMismatch(_)))
        &&& new.cache_view() == cached
    } else {
        let writes = to_persist(mode, cached, fresh);
        &&& (r is Ok <==> forall|k: Seq<char>| #[trigger] writes.contains(k) ==> manifestref_parts(k) is Some)
        &&& (r matches Ok(jobs) ==> new.cache_view() == cached.union_prefer_right(fresh)
            && job_refs(jobs@) == writes && jobs_well_split(jobs@))
        &&& (r matches Err(e) ==> e matches PersistenceError::BadManifestref(k) && writes.contains(k@)
            && manifestref_parts(k@) is None)
    }
}

/// The cache of downloaded releases, with its directory and reconciliation mode.
pub struct Persistence {
    directory: String,
    mode: DownloadMode,
    cache: Cache,
}

impl Persistence {
    pub closed spec fn directory_view(&self) -> Seq<char> {
        self.directory@
    }

    pub closed spec fn mode_view(&self) -> DownloadMode {
        self.mode
    }

    pub closed spec fn cache_view(&self) -> Map<Seq<char>, Option<ReleaseModel>> {
        self.cache.view()
    }

    /// A persistence over `directory` in `mode`, with an empty cache. Values on disk are
    /// added with `load_value` where `needs_loading` says so.
    pub fn new(directory: String, mode: DownloadMode) -> (p: Persistence)
        ensures
            p.directory_view() == directory@,
            p.mode_view() == mode,
            p.cache_view() == Map::<Seq<char>, Option<ReleaseModel>>::empty(),
    {
        Persistence { directory, mode, cache: Cache::new() }
    }

    pub fn directory(&self) -> (d: &String)
        ensures
            d@ == self.directory_view(),
    {
        &self.directory
    }

    pub fn mode(&self) -> (m: DownloadMode)
        ensures
            m == self.mode_view(),
    {
        self.mode
    }

    /// Whether the values on disk are read into the cache: in every mode but the one that
    /// starts afresh.
    pub fn needs_loading(&self) -> (r: bool)
        ensures
            r == (self.mode_view() != DownloadMode::AddNewOverwriteExisting),
    {
        self.mode != DownloadMode::AddNewOverwriteExisting
    }

    /// Adds a value read from `<directory>/<algo>/<filename>`, under `algo:filename`.
    pub fn load_value(&mut self, algo: &str, filename: &str, value: Option<Release>)
        ensures
            final(self).directory_view() == old(self).directory_view(),
            final(self).mode_view() == old(self).mode_view(),
            final(self).cache_view() == old(self).cache_view().insert(
                algo@ + seq![':'] + filename@,
                model_of(value),
            ),
    {
        let mut key: String = algo.to_owned();
        key.append(":");
        key.append(filename);
        proof {
            reveal_strlit(":");
            assert(key@ =~= algo@ + seq![':'] + filename@);
        }
        self.cache.insert(key, value);
    }

    pub fn get_cache(&self) -> (c: &Cache)
        ensures
            c.view() == self.cache_view(),
    {
        &self.cache
    }

    pub fn get_cache_mut(&mut self) -> (c: &mut Cache)
        ensures
            c.view() == old(self).cache_view(),
            final(self).cache_view() == final(c).view(),
            final(self).directory_view() == old(self).directory_view(),
            final(self).mode_view() == old(self).mode_view(),
    {
        &mut self.cache
    }

    /// Compares the cache with an update wherever both have a reference. Fails listing the
    /// references whose values differ.
    fn verify(&self, updated: &Cache) -> (r: Result<(), PersistenceError>)
        ensures
            r is Ok <==> consistent(self.cache_view(), updated.view()),
            r is Err ==> (r matches Err(PersistenceError::ValueMismatch(ks)) && ks@.len() > 0),
    {
        proof {
            use_type_invariant(updated);
        }
        let mut mismatched: Vec<String> = Vec::new();
        let n = updated.len();
        let mut i: usize = 0;
        while i < n
            invariant
                i <= n,
                n == updated.pairs().len(),
                updated.wf(),
                mismatched@.len() == 0 <==> forall|j: int| 0 <= j < i ==> #[trigger] agrees_at(
                    self.cache_view(),
                    updated.pairs(),
                    j,
                ),
            decreases n - i,
        {
            let (key, value) = updated.entry(i);
            let ghost before = mismatched@;
            match self.cache.get(key.as_str()) {
                Some(cached) => {
                    if !same_value(cached, value) {
                        mismatched.push(key.clone());
                    }
                },
                None => {},
            }
            proof {
                if before.len() == 0 && agrees_at(self.cache_view(), updated.pairs(), i as int) {
                    assert(mismatched@.len() == 0);
                    assert forall|j: int| 0 <= j < i + 1 implies #[trigger] agrees_at(
                        self.cache_view(),
                        updated.pairs(),
                        j,
                    ) by {}
                }
                if !agrees_at(self.cache_view(), updated.pairs(), i as int) {
                    assert(mismatched@.len() > 0);
                }
                if before.len() > 0 {
                    assert(mismatched@.len() > 0);
                    let j = choose|j: int| 0 <= j < i && !#[trigger] agrees_at(self.cache_view(), updated.pairs(), j);
                }
            }
            i = i + 1;
        }
        proof {
            if mismatched@.len() == 0 {
                assert forall|k: Seq<char>| #[trigger] self.cache_view().contains_key(k) && updated.view().contains_key(k)
                    implies self.cache_view()[k] == updated.view()[k] by {
                    lemma_map_of_dom(updated.pairs(), k);
                    let j = choose|j: int| 0 <= j < updated.pairs().len() && updated.pairs()[j].0 == k;
                    updated.lemma_entry(j);
                    assert(agrees_at(self.cache_view(), updated.pairs(), j));
                }
            } else {
                let j = choose|j: int| 0 <= j < i && !#[trigger] agrees_at(self.cache_view(), updated.pairs(), j);
                updated.lemma_entry(j);
                assert(!consistent(self.cache_view(), updated.view()));
            }
        }
        if mismatched.len() == 0 {
            Ok(())
        } else {
            Err(PersistenceError::ValueMismatch(mismatched))
        }
    }

    /// Reconciles the cache with freshly downloaded values, as the mode says. In a verifying
    /// mode a mismatch fails before anything changes. Returns the values to write to disk.
    pub fn update_with(&mut self, updated: &Cache) -> (r: Result<Vec<PersistJob>, PersistenceError>)
        ensures
            update_outcome(*old(self), *final(self), updated.view(), r),
    {
        proof {
            use_type_invariant(updated);
        }
        let ghost cached = self.cache_view();
        let ghost fresh = updated.view();
        match self.mode {
            DownloadMode::VerifyExistingOnly => {
                self.verify(updated)?;
                return Ok(Vec::new());
            },
            DownloadMode::VerifyExistingAddNew => {
                self.verify(updated)?;
            },
            _ => {},
        }
        let ghost writes = to_persist(self.mode, cached, fresh);
        let only_new = self.mode == DownloadMode::VerifyExistingAddNew;
        let mut jobs: Vec<PersistJob> = Vec::new();
        let n = updated.len();
        let mut i: usize = 0;
        while i < n
            invariant
                i <= n,
                n == updated.pairs().len(),
                updated.wf(),
                fresh == updated.view(),
                self.mode_view() == old(self).mode_view(),
                self.mode_view() != DownloadMode::VerifyExistingOnly,
                cached == old(self).cache_view(),
                self.directory_view() == old(self).directory_view(),
                only_new == (self.mode_view() == DownloadMode::VerifyExistingAddNew),
                only_new ==> consistent(cached, fresh),
                writes == to_persist(self.mode_view(), cached, fresh),
                self.cache_view() == cached.union_prefer_right(map_of(updated.pairs().take(i as int))),
                jobs_well_split(jobs@),
                forall|t: int| 0 <= t < jobs@.len() ==> #[trigger] writes.contains(jobs@[t].manifestref@),
                forall|j: int| 0 <= j < i && #[trigger] writes.contains(updated.pairs()[j].0) ==> job_refs(jobs@).contains(
                    updated.pairs()[j].0,
                ),
            decreases n - i,
        {
            let (key, value) = updated.entry(i);
            let ghost k = key@;
            let ghost before_jobs = jobs@;
            proof {
                updated.lemma_entry(i as int);
                assert(updated.pairs().take(i + 1).drop_last() =~= updated.pairs().take(i as int));
                lemma_map_of_dom(updated.pairs().take(i as int), k);
                if map_of(updated.pairs().take(i as int)).contains_key(k) {
                    let j = choose|j: int| 0 <= j < i && updated.pairs().take(i as int)[j].0 == k;
                    assert(updated.pairs()[j].0 == updated.pairs()[i as int].0);
                }
                assert(self.cache_view().contains_key(k) == cached.contains_key(k));
                assert(writes.contains(k) == (!only_new || !cached.contains_key(k)));
            }
            let present = self.cache.get(key.as_str()).is_some();
            if only_new && present {
                proof {
                    assert(cached[k] == fresh[k]);
                    assert(self.cache_view() =~= cached.union_prefer_right(map_of(updated.pairs().take(i + 1))));
                }
            } else {
                self.cache.insert(key.clone(), copy_value(value));
                proof {
                    assert(self.cache_view() =~= cached.union_prefer_right(map_of(updated.pairs().take(i + 1))));
                }
                match split_manifestref(key.as_str()) {
                    Some((algo, hash)) => {
                        jobs.push(PersistJob { manifestref: key.clone(), algo, hash });
                        proof {
                            assert(jobs@[jobs@.len() - 1].manifestref@ == k);
                            assert forall|t: int| 0 <= t < jobs@.len() implies #[trigger] manifestref_parts(
                                jobs@[t].manifestref@,
                            ) == Some((jobs@[t].algo@, jobs@[t].hash@)) by {
                                if t < before_jobs.len() {
                                    assert(jobs@[t] == before_jobs[t]);
                                }
                            }
                            assert forall|x: Seq<char>| job_refs(before_jobs).contains(x) implies job_refs(jobs@).contains(x) by {
                                let t = choose|t: int| 0 <= t < before_jobs.len() && #[trigger] before_jobs[t].manifestref@ == x;
                                assert(jobs@[t] == before_jobs[t]);
                            }
                            assert(job_refs(jobs@).contains(k));
                            assert forall|t: int| 0 <= t < jobs@.len() implies #[trigger] writes.contains(jobs@[t].manifestref@) by {
                                if t < before_jobs.len() {
                                    assert(jobs@[t] == before_jobs[t]);
                                }
                            }
                        }
                    },
                    None => {
                        let bad = key.clone();
                        proof {
                            assert(writes.contains(bad@) && manifestref_parts(bad@) is None);
                        }
                        return Err(PersistenceError::BadManifestref(bad));
                    },
                }
            }
            i = i + 1;
        }
        proof {
            assert(updated.pairs().take(i as int) =~= updated.pairs());
            assert forall|x: Seq<char>| writes.contains(x) implies job_refs(jobs@).contains(x) by {
                lemma_map_of_dom(updated.pairs(), x);
                let j = choose|j: int| 0 <= j < updated.pairs().len() && updated.pairs()[j].0 == x;
                assert(writes.contains(updated.pairs()[j].0));
            }
            assert forall|x: Seq<char>| job_refs(jobs@).contains(x) implies writes.contains(x) by {
                let t = choose|t: int| 0 <= t < jobs@.len() && #[trigger] jobs@[t].manifestref@ == x;
            }
            assert(job_refs(jobs@) =~= writes);
            assert forall|x: Seq<char>| #[trigger] writes.contains(x) implies manifestref_parts(x) is Some by {
                let t = choose|t: int| 0 <= t < jobs@.len() && #[trigger] jobs@[t].manifestref@ == x;
            }
        }
        Ok(jobs)
    }
}

/// The reference under which a downloaded release is cached: its metadata under `key`.
pub open spec fn manifestref_of(r: Release, key: Seq<char>) -> Option<Seq<char>> {
    match r {
        Release::Concrete(c) => if c.metadata.view().contains_key(key) {
            Some(c.metadata.view()[key])
        } else {
            None
        },
        Release::Abstract(_) => None,
    }
}

/// The cache that downloaded releases make, each under its reference; a later release
/// wins.
pub open spec fn collected(releases: Seq<Release>, key: Seq<char>) -> Map<Seq<char>, Option<ReleaseModel>>
    decreases releases.len(),
{
    if releases.len() == 0 {
        Map::empty()
    } else {
        let rest = collected(releases.drop_last(), key);
        match manifestref_of(releases.last(), key) {
            Some(m) => rest.insert(m, Some(releases.last().model())),
            None => rest,
        }
    }
}

/// Caches downloaded releases by the reference in their metadata under `key`. Fails naming
/// `key` when a release lacks it.
pub fn collect_by_manifestref(releases: &Vec<Release>, key: &str) -> (r: Result<Cache, PersistenceError>)
    ensures
        r is Ok <==> forall|j: int| 0 <= j < releases@.len() ==> #[trigger] manifestref_of(releases@[j], key@) is Some,
        r matches Ok(c) ==> c.view() == collected(releases@, key@),
        r matches Err(e) ==> e matches PersistenceError::MissingManifestref(k) && k@ == key@,
{
    let mut cache = Cache::new();
    let mut i: usize = 0;
    while i < releases.len()
        invariant
            i <= releases.len(),
            cache.view() == collected(releases@.take(i as int), key@),
            forall|j: int| 0 <= j < i ==> #[trigger] manifestref_of(releases@[j], key@) is Some,
        decreases releases.len() - i,
    {
        assert(releases@.take(i + 1).drop_last() =~= releases@.take(i as int));
        let m = match &releases[i] {
            Release::Concrete(c) => match c.metadata.get(key) {
                Some(m) => m.clone(),
                None => {
                    assert(manifestref_of(releases@[i as int], key@) is None);
                    return Err(PersistenceError::MissingManifestref(key.to_owned()));
                },
            },
            Release::Abstract(_) => {
                assert(manifestref_of(releases@[i as int], key@) is None);
                return Err(PersistenceError::MissingManifestref(key.to_owned()));
            },
        };
        cache.insert(m, Some(releases[i].copy()));
        i = i + 1;
    }
    assert(releases@.take(i as int) =~= releases@);
    Ok(cache)
}

/// Downloads release metadata and reconciles it with the node cache.
pub struct Downloader {
    pub options: crate::command::DownloadNodes,
    pub persistence: Persistence,
}

impl Downloader {
    /// The cache that the download starts from: empty in the verifying modes, so that
    /// everything is downloaded; else the cached values.
    pub fn initial_cache(&self) -> (c: Cache)
        ensures
            match self.options.persistence_mode {
                DownloadMode::VerifyExistingOnly | DownloadMode::VerifyExistingAddNew => c.view()
                    == Map::<Seq<char>, Option<ReleaseModel>>::empty(),
                _ => c.view() == self.persistence.cache_view(),
            },
    {
        match self.options.persistence_mode {
            DownloadMode::VerifyExistingOnly | DownloadMode::VerifyExistingAddNew => Cache::new(),
            _ => self.persistence.get_cache().copy(),
        }
    }

    /// Caches the downloaded releases by reference and reconciles the node cache with them.
    pub fn finish(&mut self, releases: &Vec<Release>) -> (r: Result<Vec<PersistJob>, PersistenceError>)
        ensures
            final(self).options == old(self).options,
            if forall|j: int| 0 <= j < releases@.len() ==> #[trigger] manifestref_of(
                releases@[j],
                old(self).options.manifestref_key@,
            ) is Some {
                update_outcome(
                    old(self).persistence,
                    final(self).persistence,
                    collected(releases@, old(self).options.manifestref_key@),
                    r,
                )
            } else {
                r matches Err(PersistenceError::MissingManifestref(_)) && final(self).persistence
                    == old(self).persistence
            },
    {
        let fresh = collect_by_manifestref(releases, self.options.manifestref_key.as_str())?;
        self.persistence.update_with(&fresh)
    }
}

} // verus!
