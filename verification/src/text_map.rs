//! A map from text to values, kept in the order of its keys.

use crate::data::Duplicate;
use crate::text::{str_equal, str_less};
use vstd::prelude::*;

verus! {

/// A finite map whose keys are text. Its entries stand in the lexicographic
/// order of their keys, so that walking it is deterministic.
#[derive(Debug, PartialEq)]
pub struct TextMap<V> {
    entries: Vec<(String, V)>,
}

/// The keys of `entries`, in order.
spec fn keys_of<V>(entries: Seq<(String, V)>) -> Seq<Seq<char>> {
    Seq::new(entries.len(), |i: int| entries[i].0@)
}

/// Each key is less than those that follow it.
pub open spec fn ascending(keys: Seq<Seq<char>>) -> bool {
    forall|i: int, j: int| 0 <= i < j < keys.len() ==> crate::text::text_less(#[trigger] keys[i], #[trigger] keys[j])
}

/// The map that pairs the keys of `entries` with the models of their values.
spec fn map_of<V: DeepView>(entries: Seq<(String, V)>) -> Map<Seq<char>, V::V> {
    Map::new(
        |key: Seq<char>| keys_of(entries).contains(key),
        |key: Seq<char>| entries[keys_of(entries).index_of(key)].1.deep_view(),
    )
}

/// In ascending keys every key stands once.
pub proof fn ascending_keys_are_distinct(keys: Seq<Seq<char>>, i: int, j: int)
    requires
        ascending(keys),
        0 <= i < keys.len(),
        0 <= j < keys.len(),
        keys[i] == keys[j],
    ensures
        i == j,
{
    crate::text::text_less_irreflexive(keys[i]);
}

impl<V> TextMap<V> {
    #[verifier::type_invariant]
    spec fn is_ordered(self) -> bool {
        ascending(keys_of(self.entries@))
    }

    /// The keys in ascending order.
    pub closed spec fn keys(self) -> Seq<Seq<char>> {
        keys_of(self.entries@)
    }
}

impl<V: DeepView> View for TextMap<V> {
    type V = Map<Seq<char>, V::V>;

    closed spec fn view(&self) -> Map<Seq<char>, V::V> {
        map_of(self.entries@)
    }
}

impl<V: DeepView> DeepView for TextMap<V> {
    type V = Map<Seq<char>, V::V>;

    open spec fn deep_view(&self) -> Map<Seq<char>, V::V> {
        self@
    }
}

/// `keys` lists the keys of `map` in ascending order, each once.
pub open spec fn lists_keys<A>(keys: Seq<Seq<char>>, map: Map<Seq<char>, A>) -> bool {
    &&& ascending(keys)
    &&& forall|key: Seq<char>| #[trigger] map.contains_key(key) <==> keys.contains(key)
}

impl<V: DeepView> TextMap<V> {
    /// The empty map.
    pub fn new() -> (map: Self)
        ensures
            map@ == Map::<Seq<char>, V::V>::empty(),
            map.keys() == Seq::<Seq<char>>::empty(),
    {
        let map = TextMap { entries: Vec::new() };
        assert(map@ =~= Map::<Seq<char>, V::V>::empty());
        map
    }

    /// The number of entries.
    pub fn len(&self) -> (n: usize)
        ensures
            n == self.keys().len(),
            lists_keys(self.keys(), self@),
    {
        proof {
            use_type_invariant(self);
        }
        self.entries.len()
    }

    /// Whether there is no entry.
    pub fn is_empty(&self) -> (empty: bool)
        ensures
            empty == (self.keys().len() == 0),
            empty == (self@ == Map::<Seq<char>, V::V>::empty()),
    {
        proof {
            if self.entries@.len() == 0 {
                assert(self@ =~= Map::<Seq<char>, V::V>::empty());
            } else {
                assert(keys_of(self.entries@)[0] == self.entries@[0].0@);
                assert(self@.contains_key(self.entries@[0].0@));
            }
        }
        self.entries.len() == 0
    }

    /// The key at position `i`.
    pub fn key_at(&self, i: usize) -> (key: &String)
        requires
            i < self.keys().len(),
        ensures
            key@ == self.keys()[i as int],
            self@.contains_key(key@),
    {
        proof {
            assert(keys_of(self.entries@)[i as int] == self.entries@[i as int].0@);
        }
        &self.entries[i].0
    }

    /// The value at position `i`.
    pub fn value_at(&self, i: usize) -> (value: &V)
        requires
            i < self.keys().len(),
        ensures
            value.deep_view() == self@[self.keys()[i as int]],
            self@.contains_key(self.keys()[i as int]),
    {
        proof {
            use_type_invariant(self);
            let keys = keys_of(self.entries@);
            assert(keys.contains(keys[i as int]));
            ascending_keys_are_distinct(keys, i as int, keys.index_of(keys[i as int]));
        }
        &self.entries[i].1
    }

    /// The first position whose key is not less than `key`.
    fn position(&self, key: &str) -> (at: usize)
        ensures
            at <= self.entries@.len(),
            forall|i: int| 0 <= i < at ==> crate::text::text_less(#[trigger] self.entries@[i].0@, key@),
            forall|i: int| at <= i < self.entries@.len() ==> !crate::text::text_less(
                #[trigger] self.entries@[i].0@,
                key@,
            ),
    {
        proof {
            use_type_invariant(self);
        }
        let mut lo: usize = 0;
        let mut hi: usize = self.entries.len();
        while lo < hi
            invariant
                lo <= hi <= self.entries@.len(),
                ascending(keys_of(self.entries@)),
                forall|i: int| 0 <= i < lo ==> crate::text::text_less(#[trigger] self.entries@[i].0@, key@),
                forall|i: int| hi <= i < self.entries@.len() ==> !crate::text::text_less(
                    #[trigger] self.entries@[i].0@,
                    key@,
                ),
            decreases hi - lo,
        {
            let mid: usize = lo + (hi - lo) / 2;
            let ghost keys = keys_of(self.entries@);
            if str_less(self.entries[mid].0.as_str(), key) {
                assert forall|i: int| 0 <= i < mid + 1 implies crate::text::text_less(
                    #[trigger] self.entries@[i].0@,
                    key@,
                ) by {
                    if i < mid {
                        assert(crate::text::text_less(keys[i], keys[mid as int]));
                        crate::text::text_less_transitive(keys[i], keys[mid as int], key@);
                    }
                }
                lo = mid + 1;
            } else {
                assert forall|i: int| mid <= i < self.entries@.len() implies !crate::text::text_less(
                    #[trigger] self.entries@[i].0@,
                    key@,
                ) by {
                    if mid < i && crate::text::text_less(keys[i], key@) {
                        assert(crate::text::text_less(keys[mid as int], keys[i]));
                        crate::text::text_less_transitive(keys[mid as int], keys[i], key@);
                    }
                }
                hi = mid;
            }
        }
        lo
    }

    /// The position of `key`, if it is there.
    fn find(&self, key: &str) -> (found: Option<usize>)
        ensures
            match found {
                Some(at) => at < self.entries@.len() && self.entries@[at as int].0@ == key@,
                None => !self@.contains_key(key@),
            },
    {
        let at: usize = self.position(key);
        if at < self.entries.len() && str_equal(self.entries[at].0.as_str(), key) {
            Some(at)
        } else {
            proof {
                use_type_invariant(self);
                let keys = keys_of(self.entries@);
                if keys.contains(key@) {
                    let i = keys.index_of(key@);
                    crate::text::text_less_irreflexive(key@);
                    assert(keys[i] == self.entries@[i].0@);
                    assert(i > at);
                    assert(keys[at as int] == self.entries@[at as int].0@);
                    assert(crate::text::text_less(keys[at as int], keys[i]));
                }
            }
            None
        }
    }

    /// The value under `key`.
    pub fn get(&self, key: &str) -> (value: Option<&V>)
        ensures
            match value {
                Some(v) => self@.contains_key(key@) && v.deep_view() == self@[key@],
                None => !self@.contains_key(key@),
            },
    {
        match self.find(key) {
            Some(at) => {
                proof {
                    use_type_invariant(self);
                    let keys = keys_of(self.entries@);
                    assert(keys[at as int] == key@);
                    ascending_keys_are_distinct(keys, at as int, keys.index_of(key@));
                }
                Some(&self.entries[at].1)
            },
            None => None,
        }
    }

    /// Whether `key` has a value.
    pub fn contains_key(&self, key: &str) -> (found: bool)
        ensures
            found == self@.contains_key(key@),
    {
        self.get(key).is_some()
    }

    /// Sets the value under `key`.
    pub fn insert(&mut self, key: String, value: V)
        ensures
            final(self)@ == old(self)@.insert(key@, value.deep_view()),
    {
        let at: usize = self.position(key.as_str());
        let found = self.find(key.as_str());
        let ghost before = self.entries@;
        let ghost before_keys = keys_of(self.entries@);
        proof {
            use_type_invariant(&*self);
        }
        let mut entries: Vec<(String, V)> = Vec::new();
        std::mem::swap(&mut entries, &mut self.entries);
        match found {
            Some(i) => {
                assert(before_keys[i as int] == key@);
                let ghost value_model = value.deep_view();
                entries.set(i, (key, value));
                proof {
                    assert(keys_of(entries@) =~= before_keys);
                    assert(map_of(entries@) =~= map_of(before).insert(key@, value_model)) by {
                        assert forall|k: Seq<char>| before_keys.contains(k) implies #[trigger] map_of(entries@)[k]
                            == map_of(before).insert(key@, value_model)[k] by {
                            let p = before_keys.index_of(k);
                            if k == key@ {
                                ascending_keys_are_distinct(before_keys, p, i as int);
                            } else {
                                assert(p != i);
                            }
                        }
                        assert(before_keys.contains(key@));
                    }
                }
            },
            None => {
                let ghost value_model = value.deep_view();
                entries.insert(at, (key, value));
                proof {
                    let keys = keys_of(entries@);
                    assert(keys[at as int] == key@);
                    assert forall|i: int| 0 <= i < before.len() implies before_keys[i] != key@ by {
                        if before_keys[i] == key@ {
                            assert(before_keys.contains(key@));
                        }
                    }
                    assert forall|i: int, j: int| 0 <= i < j < keys.len() implies crate::text::text_less(
                        #[trigger] keys[i],
                        #[trigger] keys[j],
                    ) by {
                        let i0 = if i < at { i } else { i - 1 };
                        let j0 = if j < at { j } else { j - 1 };
                        if i == at {
                            assert(keys[j] == before_keys[j0]);
                            assert(before_keys[j0] == before[j0].0@);
                            crate::text::text_less_total(key@, before_keys[j0]);
                        } else if j == at {
                            assert(keys[i] == before_keys[i0]);
                            assert(before_keys[i0] == before[i0].0@);
                        } else {
                            assert(keys[i] == before_keys[i0]);
                            assert(keys[j] == before_keys[j0]);
                        }
                    }
                    assert(map_of(entries@) =~= map_of(before).insert(key@, value_model)) by {
                        assert forall|k: Seq<char>| keys.contains(k) == (before_keys.contains(k) || k == key@) by {
                            if before_keys.contains(k) {
                                let p = before_keys.index_of(k);
                                let q = if p < at { p } else { p + 1 };
                                assert(keys[q] == k);
                            }
                            if keys.contains(k) && k != key@ {
                                let q = keys.index_of(k);
                                let p = if q < at { q } else { q - 1 };
                                assert(before_keys[p] == k);
                            }
                        }
                        assert forall|k: Seq<char>| keys.contains(k) implies #[trigger] map_of(entries@)[k]
                            == map_of(before).insert(key@, value_model)[k] by {
                            let q = keys.index_of(k);
                            if k == key@ {
                                ascending_keys_are_distinct(keys, q, at as int);
                            } else {
                                let p = before_keys.index_of(k);
                                let p0 = if q < at { q } else { q - 1 };
                                assert(before_keys[p0] == k);
                                ascending_keys_are_distinct(before_keys, p, p0);
                            }
                        }
                    }
                }
            },
        }
        self.entries = entries;
    }

    /// Removes the value under `key`, if there is one.
    pub fn remove(&mut self, key: &str)
        ensures
            final(self)@ == old(self)@.remove(key@),
    {
        let found = self.find(key);
        let ghost before = self.entries@;
        let ghost before_keys = keys_of(self.entries@);
        proof {
            use_type_invariant(&*self);
        }
        match found {
            Some(at) => {
                assert(before_keys[at as int] == key@);
                let mut entries: Vec<(String, V)> = Vec::new();
                std::mem::swap(&mut entries, &mut self.entries);
                entries.remove(at);
                proof {
                    let keys = keys_of(entries@);
                    assert forall|i: int, j: int| 0 <= i < j < keys.len() implies crate::text::text_less(
                        #[trigger] keys[i],
                        #[trigger] keys[j],
                    ) by {
                        let i0 = if i < at { i } else { i + 1 };
                        let j0 = if j < at { j } else { j + 1 };
                        assert(keys[i] == before_keys[i0]);
                        assert(keys[j] == before_keys[j0]);
                    }
                    assert(map_of(entries@) =~= map_of(before).remove(key@)) by {
                        assert forall|k: Seq<char>| keys.contains(k) == (before_keys.contains(k) && k != key@) by {
                            if before_keys.contains(k) && k != key@ {
                                let p = before_keys.index_of(k);
                                let q = if p < at { p } else { p - 1 };
                                assert(keys[q] == k);
                            }
                            if keys.contains(k) {
                                let q = keys.index_of(k);
                                let p = if q < at { q } else { q + 1 };
                                assert(before_keys[p] == k);
                                if k == key@ {
                                    ascending_keys_are_distinct(before_keys, p, at as int);
                                }
                            }
                        }
                        assert forall|k: Seq<char>| keys.contains(k) implies #[trigger] map_of(entries@)[k] == map_of(
                            before,
                        ).remove(key@)[k] by {
                            let q = keys.index_of(k);
                            let p0 = if q < at { q } else { q + 1 };
                            assert(before_keys[p0] == k);
                            ascending_keys_are_distinct(before_keys, p0, before_keys.index_of(k));
                        }
                    }
                }
                self.entries = entries;
            },
            None => {
                assert(self@.remove(key@) =~= self@);
            },
        }
    }
}

impl<V: Duplicate> Duplicate for TextMap<V> {
    fn duplicate(&self) -> (copy: Self) {
        let mut copy: TextMap<V> = TextMap::new();
        let n: usize = self.len();
        let mut i: usize = 0;
        while i < n
            invariant
                i <= n == self.keys().len(),
                lists_keys(self.keys(), self@),
                forall|k: Seq<char>| #[trigger] copy@.contains_key(k) <==> self.keys().take(i as int).contains(k),
                forall|k: Seq<char>| copy@.contains_key(k) ==> #[trigger] copy@[k] == self@[k],
            decreases n - i,
        {
            let key = self.key_at(i);
            let value = self.value_at(i);
            copy.insert(key.clone(), value.duplicate());
            proof {
                let before = self.keys().take(i as int);
                let after = self.keys().take(i + 1);
                assert(after =~= before.push(key@));
                assert forall|k: Seq<char>| after.contains(k) == (before.contains(k) || k == key@) by {
                    if before.contains(k) {
                        assert(after[before.index_of(k)] == k);
                    }
                    assert(after[i as int] == key@);
                }
            }
            i = i + 1;
        }
        assert(self.keys().take(n as int) =~= self.keys());
        assert(copy@ =~= self@);
        copy
    }
}

} // verus!
