//! A small map from strings to strings with unique keys, in insertion order.

use vstd::prelude::*;

verus! {

/// The pairs of a map as plain character sequences.
pub open spec fn pair_views(entries: Seq<(String, String)>) -> Seq<(Seq<char>, Seq<char>)> {
    entries.map_values(|p: (String, String)| (p.0@, p.1@))
}

/// No key occurs twice.
pub open spec fn keys_unique<V>(s: Seq<(Seq<char>, V)>) -> bool {
    forall|i: int, j: int| 0 <= i < s.len() && 0 <= j < s.len() && i != j ==> s[i].0 != s[j].0
}

/// The map that a sequence of pairs stands for; a later pair wins over an earlier one.
pub open spec fn map_of<V>(s: Seq<(Seq<char>, V)>) -> Map<Seq<char>, V>
    decreases s.len(),
{
    if s.len() == 0 {
        Map::empty()
    } else {
        map_of(s.drop_last()).insert(s.last().0, s.last().1)
    }
}

pub proof fn lemma_map_of_dom<V>(s: Seq<(Seq<char>, V)>, k: Seq<char>)
    ensures
        map_of(s).contains_key(k) <==> exists|i: int| 0 <= i < s.len() && s[i].0 == k,
    decreases s.len(),
{
    if s.len() > 0 {
        lemma_map_of_dom(s.drop_last(), k);
        if map_of(s).contains_key(k) && k != s.last().0 {
            let i = choose|i: int| 0 <= i < s.len() - 1 && s.drop_last()[i].0 == k;
            assert(s[i].0 == k);
        }
        if exists|i: int| 0 <= i < s.len() && s[i].0 == k {
            let i = choose|i: int| 0 <= i < s.len() && s[i].0 == k;
            if i < s.len() - 1 {
                assert(s.drop_last()[i].0 == k);
            }
        }
    }
}

pub proof fn lemma_map_of_index<V>(s: Seq<(Seq<char>, V)>, i: int)
    requires
        keys_unique(s),
        0 <= i < s.len(),
    ensures
        map_of(s).contains_key(s[i].0),
        map_of(s)[s[i].0] == s[i].1,
    decreases s.len(),
{
    if i < s.len() - 1 {
        lemma_map_of_index(s.drop_last(), i);
    }
}

pub proof fn lemma_map_of_update<V>(s: Seq<(Seq<char>, V)>, i: int, v: V)
    requires
        keys_unique(s),
        0 <= i < s.len(),
    ensures
        map_of(s.update(i, (s[i].0, v))) == map_of(s).insert(s[i].0, v),
    decreases s.len(),
{
    let t = s.update(i, (s[i].0, v));
    if i == s.len() - 1 {
        assert(t.drop_last() == s.drop_last());
        if exists|j: int| 0 <= j < s.len() - 1 && s.drop_last()[j].0 == s[i].0 {
            let j = choose|j: int| 0 <= j < s.len() - 1 && s.drop_last()[j].0 == s[i].0;
            assert(s[j].0 == s[i].0);
        }
        lemma_map_of_dom(s.drop_last(), s[i].0);
        assert(map_of(t) =~= map_of(s).insert(s[i].0, v));
    } else {
        assert(t.drop_last() == s.drop_last().update(i, (s[i].0, v)));
        lemma_map_of_update(s.drop_last(), i, v);
        assert(map_of(t) =~= map_of(s).insert(s[i].0, v));
    }
}

/// A map from strings to strings. Keys are unique; order of insertion is kept.
pub struct StringMap {
    entries: Vec<(String, String)>,
}

impl StringMap {
    pub closed spec fn pairs(&self) -> Seq<(Seq<char>, Seq<char>)> {
        pair_views(self.entries@)
    }

    pub open spec fn view(&self) -> Map<Seq<char>, Seq<char>> {
        map_of(self.pairs())
    }

    /// Keys are unique.
    #[verifier::type_invariant]
    pub closed spec fn wf(&self) -> bool {
        keys_unique(self.pairs())
    }

    /// An empty map.
    pub fn new() -> (r: StringMap)
        ensures
            r.wf(),
            r.view() == Map::<Seq<char>, Seq<char>>::empty(),
    {
        let r = StringMap { entries: Vec::new() };
        assert(r.pairs() =~= Seq::<(Seq<char>, Seq<char>)>::empty());
        r
    }

    /// The number of keys.
    pub fn len(&self) -> (n: usize)
        ensures
            n == self.view().dom().len(),
    {
        proof {
            use_type_invariant(self);
            self.lemma_len();
        }
        self.entries.len()
    }

    /// The keys in order of insertion.
    pub closed spec fn keys(&self) -> Seq<Seq<char>> {
        self.pairs().map_values(|p: (Seq<char>, Seq<char>)| p.0)
    }

    /// Every key of the map is in `keys()`, and the two have the same length.
    pub proof fn lemma_keys(&self)
        requires
            self.wf(),
        ensures
            self.keys().len() == self.view().dom().len(),
            forall|k: Seq<char>| self.view().contains_key(k) ==> #[trigger] self.keys().contains(k),
    {
        lemma_unique_dom_len(self.pairs());
        assert forall|k: Seq<char>| self.view().contains_key(k) implies #[trigger] self.keys().contains(k) by {
            lemma_map_of_dom(self.pairs(), k);
            let j = choose|j: int| 0 <= j < self.pairs().len() && self.pairs()[j].0 == k;
            assert(self.keys()[j] == k);
        }
    }

    /// The key and value at position `i`, in order of insertion.
    pub fn entry(&self, i: usize) -> (r: (&String, &String))
        requires
            i < self.view().dom().len(),
        ensures
            r.0@ == self.keys()[i as int],
            self.view().contains_key(r.0@),
            self.view()[r.0@] == r.1@,
    {
        proof {
            use_type_invariant(self);
            self.lemma_len();
            lemma_map_of_index(self.pairs(), i as int);
        }
        (&self.entries[i].0, &self.entries[i].1)
    }

    proof fn lemma_len(&self)
        requires
            self.wf(),
        ensures
            self.entries.len() == self.view().dom().len(),
            self.view().dom().finite(),
    {
        lemma_unique_dom_len(self.pairs());
    }

    fn position(&self, key: &str) -> (r: Option<usize>)
        ensures
            match r {
                Some(i) => i < self.entries.len() && self.pairs()[i as int].0 == key@,
                None => !self.view().contains_key(key@),
            },
    {
        proof {
            use_type_invariant(self);
        }
        let wanted: String = key.to_owned();
        let mut i: usize = 0;
        while i < self.entries.len()
            invariant
                i <= self.entries.len(),
                wanted@ == key@,
                forall|j: int| 0 <= j < i ==> self.pairs()[j].0 != key@,
            decreases self.entries.len() - i,
        {
            if self.entries[i].0 == wanted {
                return Some(i);
            }
            i = i + 1;
        }
        proof {
            lemma_map_of_dom(self.pairs(), key@);
        }
        None
    }

    /// The value under `key`, if any.
    pub fn get(&self, key: &str) -> (r: Option<&String>)
        ensures
            match r {
                Some(v) => self.view().contains_key(key@) && self.view()[key@] == v@,
                None => !self.view().contains_key(key@),
            },
    {
        proof {
            use_type_invariant(self);
        }
        match self.position(key) {
            Some(i) => {
                proof {
                    lemma_map_of_index(self.pairs(), i as int);
                }
                Some(&self.entries[i].1)
            },
            None => None,
        }
    }

    /// A map with the same keys and values.
    pub fn copy(&self) -> (r: StringMap)
        ensures
            r.view() == self.view(),
    {
        proof {
            use_type_invariant(self);
        }
        let mut entries: Vec<(String, String)> = Vec::new();
        let mut i: usize = 0;
        while i < self.entries.len()
            invariant
                i <= self.entries.len(),
                self.wf(),
                entries@.len() == i,
                self.pairs().len() == self.entries@.len(),
                pair_views(entries@) == self.pairs().take(i as int),
            decreases self.entries.len() - i,
        {
            let k = self.entries[i].0.clone();
            let v = self.entries[i].1.clone();
            let ghost before = entries@;
            entries.push((k, v));
            assert forall|j: int| 0 <= j < i + 1 implies #[trigger] pair_views(entries@)[j] == self.pairs().take(i + 1)[j] by {
                if j < i {
                    assert(entries@[j] == before[j]);
                    assert(pair_views(before)[j] == self.pairs().take(i as int)[j]);
                }
            }
            assert(pair_views(entries@) =~= self.pairs().take(i + 1));
            i = i + 1;
        }
        assert(self.pairs().take(i as int) =~= self.pairs());
        StringMap { entries }
    }

    /// Whether both maps hold the same keys with the same values.
    pub fn same_as(&self, other: &StringMap) -> (r: bool)
        ensures
            r == (self.view() == other.view()),
    {
        proof {
            use_type_invariant(self);
            use_type_invariant(other);
            self.lemma_len();
            other.lemma_len();
        }
        if self.entries.len() != other.entries.len() {
            return false;
        }
        let mut i: usize = 0;
        while i < self.entries.len()
            invariant
                i <= self.entries.len(),
                self.wf(),
                other.wf(),
                self.view().dom().len() == other.view().dom().len(),
                self.pairs().len() == self.entries@.len(),
                self.view().dom().finite(),
                other.view().dom().finite(),
                forall|j: int| 0 <= j < i ==> #[trigger] other.view().contains_key(self.pairs()[j].0)
                    && other.view()[self.pairs()[j].0] == self.pairs()[j].1,
            decreases self.entries.len() - i,
        {
            proof {
                lemma_map_of_index(self.pairs(), i as int);
            }
            match other.get(self.entries[i].0.as_str()) {
                Some(v) => {
                    if !(*v == self.entries[i].1) {
                        return false;
                    }
                    assert(other.view().contains_key(self.pairs()[i as int].0));
                    assert(other.view()[self.pairs()[i as int].0] == self.pairs()[i as int].1);
                    assert forall|j: int| 0 <= j < i + 1 implies #[trigger] other.view().contains_key(
                        self.pairs()[j].0,
                    ) && other.view()[self.pairs()[j].0] == self.pairs()[j].1 by {
                        if j == i {
                        }
                    }
                },
                None => {
                    return false;
                },
            }
            i = i + 1;
        }
        proof {
            assert(self.pairs().len() == i);
            assert forall|k: Seq<char>| self.view().contains_key(k) implies other.view().contains_key(k)
                && other.view()[k] == self.view()[k] by {
                lemma_map_of_dom(self.pairs(), k);
                let j = choose|j: int| 0 <= j < self.pairs().len() && self.pairs()[j].0 == k;
                lemma_map_of_index(self.pairs(), j);
                assert(other.view().contains_key(self.pairs()[j].0));
            }
            assert forall|k: Seq<char>| self.view().dom().contains(k) implies other.view().dom().contains(k) by {
                lemma_map_of_dom(self.pairs(), k);
                let j = choose|j: int| 0 <= j < self.pairs().len() && self.pairs()[j].0 == k;
                assert(other.view().contains_key(self.pairs()[j].0));
            }
            assert(self.view().dom().subset_of(other.view().dom()));
            assert forall|k: Seq<char>| other.view().contains_key(k) implies self.view().contains_key(k) by {
                if !self.view().contains_key(k) {
                    self.view().dom().lemma_subset_not_in_lt(other.view().dom(), k);
                }
            }
            assert(self.view() =~= other.view());
        }
        true
    }

    /// Sets `key` to `value`, replacing any earlier value.
    pub fn insert(&mut self, key: String, value: String)
        ensures
            final(self).wf(),
            final(self).view() == old(self).view().insert(key@, value@),
    {
        proof {
            use_type_invariant(&*self);
        }
        let found = self.position(key.as_str());
        let mut taken = StringMap { entries: Vec::new() };
        proof {
            assert(taken.pairs() =~= Seq::<(Seq<char>, Seq<char>)>::empty());
        }
        std::mem::swap(self, &mut taken);
        let mut entries = taken.entries;
        let ghost before = pair_views(entries@);
        match found {
            Some(i) => {
                proof {
                    lemma_map_of_update(before, i as int, value@);
                }
                let k = entries[i].0.clone();
                entries.set(i, (k, value));
                assert(pair_views(entries@) =~= before.update(i as int, (before[i as int].0, value@)));
                assert forall|a: int, b: int|
                    0 <= a < pair_views(entries@).len() && 0 <= b < pair_views(entries@).len() && a
                        != b implies pair_views(entries@)[a].0 != pair_views(entries@)[b].0 by {
                    assert(pair_views(entries@)[a].0 == before[a].0);
                    assert(pair_views(entries@)[b].0 == before[b].0);
                }
            },
            None => {
                proof {
                    lemma_map_of_dom(before, key@);
                }
                entries.push((key, value));
                assert(pair_views(entries@).drop_last() =~= before);
                assert forall|a: int, b: int|
                    0 <= a < pair_views(entries@).len() && 0 <= b < pair_views(entries@).len() && a
                        != b implies pair_views(entries@)[a].0 != pair_views(entries@)[b].0 by {
                    if a < before.len() {
                        assert(pair_views(entries@)[a] == before[a]);
                    }
                    if b < before.len() {
                        assert(pair_views(entries@)[b] == before[b]);
                    }
                }
            },
        }
        *self = StringMap { entries };
    }
}

pub proof fn lemma_unique_dom_len<V>(s: Seq<(Seq<char>, V)>)
    requires
        keys_unique(s),
    ensures
        map_of(s).dom().finite(),
        map_of(s).dom().len() == s.len(),
    decreases s.len(),
{
    if s.len() > 0 {
        lemma_unique_dom_len(s.drop_last());
        lemma_map_of_dom(s.drop_last(), s.last().0);
        assert(!map_of(s.drop_last()).contains_key(s.last().0));
    }
}

} // verus!
