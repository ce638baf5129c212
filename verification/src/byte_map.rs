//! An ordered map keyed by byte strings, kept as one vector sorted by key.
//!
//! Its abstract value is a `Map` from byte strings to values, together with the
//! ascending order of its keys, which iteration follows.

use crate::bytes::{bytes_eq, bytes_lt, lemma_lex_lt_irreflexive, lemma_lex_lt_transitive, lemma_lex_lt_trichotomy, lex_lt};
use vstd::prelude::*;

verus! {

/// The keys of `entries`, in order.
pub open spec fn keys_of<V>(entries: Seq<(Vec<u8>, V)>) -> Seq<Seq<u8>> {
    Seq::new(entries.len(), |i: int| entries[i].0@)
}

/// Keys strictly ascend: no key occurs twice and iteration is in key order.
pub open spec fn strictly_ascending(keys: Seq<Seq<u8>>) -> bool {
    forall|i: int, j: int| 0 <= i < j < keys.len() ==> lex_lt(#[trigger] keys[i], #[trigger] keys[j])
}

/// A position of `entries` whose key is `k`, where there is one.
pub open spec fn position_of<V>(entries: Seq<(Vec<u8>, V)>, k: Seq<u8>) -> int {
    choose|i: int| 0 <= i < entries.len() && #[trigger] entries[i].0@ == k
}

/// The map that a key-sorted entry sequence stands for.
pub open spec fn map_of<V>(entries: Seq<(Vec<u8>, V)>) -> Map<Seq<u8>, V> {
    Map::new(
        |k: Seq<u8>| exists|i: int| 0 <= i < entries.len() && #[trigger] entries[i].0@ == k,
        |k: Seq<u8>| entries[position_of(entries, k)].1,
    )
}

/// In a strictly ascending entry sequence, the entry at `i` is the one the map holds for its key.
pub proof fn lemma_map_of_index<V>(entries: Seq<(Vec<u8>, V)>, i: int)
    requires
        strictly_ascending(keys_of(entries)),
        0 <= i < entries.len(),
    ensures
        map_of(entries).contains_key(entries[i].0@),
        map_of(entries)[entries[i].0@] == entries[i].1,
{
    let k = entries[i].0@;
    assert(entries[i].0@ == k);
    assert(map_of(entries).contains_key(k));
    let j = position_of(entries, k);
    assert(map_of(entries)[k] == entries[j].1);
    if j != i {
        let ks = keys_of(entries);
        assert(ks[i] == k && ks[j] == k);
        lemma_lex_lt_irreflexive(k);
        if i < j {
            assert(lex_lt(ks[i], ks[j]));
        } else {
            assert(lex_lt(ks[j], ks[i]));
        }
    }
}

/// An ordered map from byte-string keys to values.
pub struct ByteMap<V> {
    entries: Vec<(Vec<u8>, V)>,
}

impl<V> ByteMap<V> {
    /// The entries in ascending key order.
    pub closed spec fn ordered(&self) -> Seq<(Vec<u8>, V)> {
        self.entries@
    }

    /// The keys in ascending order.
    pub open spec fn ordered_keys(&self) -> Seq<Seq<u8>> {
        keys_of(self.ordered())
    }

    /// The map's keys ascend strictly.
    pub open spec fn wf(&self) -> bool {
        strictly_ascending(self.ordered_keys())
    }

    /// The abstract map.
    pub open spec fn view(&self) -> Map<Seq<u8>, V> {
        map_of(self.ordered())
    }

    /// An empty map.
    pub fn new() -> (m: Self)
        ensures
            m.wf(),
            m.ordered().len() == 0,
            m@ == Map::<Seq<u8>, V>::empty(),
    {
        let m = ByteMap { entries: Vec::new() };
        assert(m@ =~= Map::<Seq<u8>, V>::empty());
        m
    }

    /// The number of entries.
    pub fn len(&self) -> (n: usize)
        ensures
            n == self.ordered().len(),
    {
        self.entries.len()
    }

    /// The key of the entry at position `i` of the ascending order.
    pub fn key_at(&self, i: usize) -> (k: &Vec<u8>)
        requires
            i < self.ordered().len(),
        ensures
            *k == self.ordered()[i as int].0,
    {
        &self.entries[i].0
    }

    /// The value of the entry at position `i` of the ascending order.
    pub fn value_at(&self, i: usize) -> (v: &V)
        requires
            i < self.ordered().len(),
        ensures
            *v == self.ordered()[i as int].1,
    {
        &self.entries[i].1
    }

    /// The first position whose key is not below `key`, and whether that key is `key`.
    fn locate(&self, key: &[u8]) -> (r: (usize, bool))
        requires
            self.wf(),
        ensures
            r.0 <= self.ordered().len(),
            forall|j: int| 0 <= j < r.0 ==> lex_lt(#[trigger] self.ordered_keys()[j], key@),
            forall|j: int| r.0 <= j < self.ordered().len() ==> !lex_lt(#[trigger] self.ordered_keys()[j], key@),
            r.1 == (r.0 < self.ordered().len() && self.ordered_keys()[r.0 as int] == key@),
            r.1 == self@.contains_key(key@),
    {
        let ghost ks = self.ordered_keys();
        let mut i: usize = 0;
        let mut done = false;
        while !done && i < self.entries.len()
            invariant
                self.wf(),
                ks == self.ordered_keys(),
                i <= self.ordered().len(),
                forall|j: int| 0 <= j < i ==> lex_lt(#[trigger] ks[j], key@),
                done ==> i < self.ordered().len() && !lex_lt(ks[i as int], key@),
            decreases self.ordered().len() - i + (if done { 0int } else { 1int }),
        {
            if !bytes_lt(self.entries[i].0.as_slice(), key) {
                done = true;
            } else {
                i = i + 1;
            }
        }
        proof {
            assert forall|j: int| i <= j < self.ordered().len() implies !lex_lt(#[trigger] ks[j], key@) by {
                if j > i as int {
                    assert(lex_lt(ks[i as int], ks[j]));
                    if lex_lt(ks[j], key@) {
                        lemma_lex_lt_transitive(ks[i as int], ks[j], key@);
                    }
                }
            }
        }
        let found = i < self.entries.len() && bytes_eq(self.entries[i].0.as_slice(), key);
        proof {
            if found {
                lemma_map_of_index(self.ordered(), i as int);
            } else if self@.contains_key(key@) {
                let j = choose|j: int| 0 <= j < self.ordered().len() && #[trigger] self.ordered()[j].0@ == key@;
                assert(ks[j] == key@);
                lemma_lex_lt_irreflexive(key@);
                if j > i as int {
                    lemma_lex_lt_trichotomy(ks[i as int], key@);
                    assert(lex_lt(ks[i as int], ks[j]));
                }
            }
        }
        (i, found)
    }

    /// The value stored under `key`, if any.
    pub fn get(&self, key: &[u8]) -> (v: Option<&V>)
        requires
            self.wf(),
        ensures
            v == (if self@.contains_key(key@) { Some(&self@[key@]) } else { None::<&V> }),
    {
        let (i, found) = self.locate(key);
        if found {
            proof {
                lemma_map_of_index(self.ordered(), i as int);
            }
            Some(&self.entries[i].1)
        } else {
            None
        }
    }

    /// Stores `value` under `key`, replacing what was there.
    pub fn insert(&mut self, key: Vec<u8>, value: V)
        requires
            old(self).wf(),
        ensures
            final(self).wf(),
            final(self)@ == old(self)@.insert(key@, value),
    {
        let (i, found) = self.locate(key.as_slice());
        let ghost old_entries = self.entries@;
        let ghost k = key@;
        let ghost old_keys = keys_of(old_entries);
        if found {
            self.entries.set(i, (key, value));
            proof {
                let ne = self.entries@;
                assert(keys_of(ne) =~= old_keys);
                assert(self.wf());
                assert forall|q: Seq<u8>| #[trigger] map_of(ne).contains_key(q) == map_of(old_entries).insert(k, value).contains_key(q) by {
                    if map_of(ne).contains_key(q) {
                        let j = choose|j: int| 0 <= j < ne.len() && #[trigger] ne[j].0@ == q;
                        if j != i as int {
                            assert(old_entries[j].0@ == q);
                        }
                    }
                    if q != k && map_of(old_entries).contains_key(q) {
                        let j = choose|j: int| 0 <= j < old_entries.len() && #[trigger] old_entries[j].0@ == q;
                        assert(ne[j].0@ == q);
                    }
                    if q == k {
                        assert(ne[i as int].0@ == q);
                    }
                }
                assert forall|q: Seq<u8>| #[trigger] map_of(ne).contains_key(q) implies map_of(ne)[q] == map_of(old_entries).insert(k, value)[q] by {
                    let j = choose|j: int| 0 <= j < ne.len() && #[trigger] ne[j].0@ == q;
                    lemma_map_of_index(ne, j);
                    if j != i as int {
                        lemma_map_of_index(old_entries, j);
                        lemma_lex_lt_trichotomy(old_keys[j], old_keys[i as int]);
                        if j < i as int {
                            assert(lex_lt(old_keys[j], old_keys[i as int]));
                        } else {
                            assert(lex_lt(old_keys[i as int], old_keys[j]));
                        }
                        assert(q != k);
                        assert(map_of(old_entries).insert(k, value)[q] == map_of(old_entries)[q]);
                    }
                }
                assert(map_of(ne) =~= map_of(old_entries).insert(k, value));
            }
        } else {
            self.entries.insert(i, (key, value));
            proof {
                let ne = self.entries@;
                let nk = keys_of(ne);
                assert(nk =~= old_keys.insert(i as int, k));
                assert forall|a: int, b: int| 0 <= a < b < nk.len() implies lex_lt(#[trigger] nk[a], #[trigger] nk[b]) by {
                    if b == i as int {
                        assert(lex_lt(old_keys[a], k));
                    } else if a == i as int {
                        assert(!lex_lt(old_keys[b - 1], k));
                        lemma_lex_lt_trichotomy(old_keys[b - 1], k);
                        assert(old_keys[b - 1] != k) by {
                            if b - 1 == i as int {
                            } else {
                                assert(lex_lt(old_keys[i as int], old_keys[b - 1]));
                                lemma_lex_lt_trichotomy(old_keys[i as int], k);
                                if old_keys[b - 1] == k {
                                    lemma_lex_lt_trichotomy(old_keys[i as int], old_keys[b - 1]);
                                }
                            }
                        }
                    } else if a < i as int && b > i as int {
                        assert(lex_lt(old_keys[a], old_keys[b - 1]));
                    } else if a > i as int {
                        assert(lex_lt(old_keys[a - 1], old_keys[b - 1]));
                    }
                }
                assert(self.wf());
                assert forall|q: Seq<u8>| #[trigger] map_of(ne).contains_key(q) == map_of(old_entries).insert(k, value).contains_key(q) by {
                    if map_of(ne).contains_key(q) {
                        let j = choose|j: int| 0 <= j < ne.len() && #[trigger] ne[j].0@ == q;
                        if j < i as int {
                            assert(old_entries[j].0@ == q);
                        } else if j > i as int {
                            assert(old_entries[j - 1].0@ == q);
                        }
                    }
                    if q != k && map_of(old_entries).contains_key(q) {
                        let j = choose|j: int| 0 <= j < old_entries.len() && #[trigger] old_entries[j].0@ == q;
                        if j < i as int {
                            assert(ne[j].0@ == q);
                        } else {
                            assert(ne[j + 1].0@ == q);
                        }
                    }
                    if q == k {
                        assert(ne[i as int].0@ == q);
                    }
                }
                assert forall|q: Seq<u8>| #[trigger] map_of(ne).contains_key(q) implies map_of(ne)[q] == map_of(old_entries).insert(k, value)[q] by {
                    let j = choose|j: int| 0 <= j < ne.len() && #[trigger] ne[j].0@ == q;
                    lemma_map_of_index(ne, j);
                    assert(ne[j].0@ == q);
                    if j < i as int {
                        assert(ne[j] == old_entries[j]);
                        lemma_map_of_index(old_entries, j);
                        lemma_lex_lt_trichotomy(old_keys[j], k);
                        assert(q != k);
                        assert(map_of(ne)[q] == ne[j].1);
                        assert(map_of(old_entries)[q] == old_entries[j].1);
                        assert(map_of(old_entries).insert(k, value)[q] == map_of(old_entries)[q]);
                    } else if j == i as int {
                        assert(q == k);
                        assert(ne[j].1 == value);
                        assert(map_of(ne)[q] == value);
                        assert(map_of(old_entries).insert(k, value)[q] == value);
                    } else {
                        assert(ne[j] == old_entries[j - 1]);
                        lemma_map_of_index(old_entries, j - 1);
                        if old_keys[j - 1] == k {
                            if j - 1 > i as int {
                                assert(lex_lt(old_keys[i as int], old_keys[j - 1]));
                            }
                        }
                        assert(q != k);
                        assert(map_of(ne)[q] == ne[j].1);
                        assert(map_of(old_entries)[q] == old_entries[j - 1].1);
                        assert(map_of(old_entries).insert(k, value)[q] == map_of(old_entries)[q]);
                    }
                }
                assert(map_of(ne) =~= map_of(old_entries).insert(k, value));
            }
        }
    }

    /// Removes what is stored under `key` and hands it back.
    pub fn remove(&mut self, key: &[u8]) -> (removed: Option<V>)
        requires
            old(self).wf(),
        ensures
            final(self).wf(),
            final(self)@ == old(self)@.remove(key@),
            removed == (if old(self)@.contains_key(key@) { Some(old(self)@[key@]) } else { None::<V> }),
    {
        let (i, found) = self.locate(key);
        let ghost old_entries = self.entries@;
        let ghost k = key@;
        let ghost old_keys = keys_of(old_entries);
        if found {
            let (_, value) = self.entries.remove(i);
            proof {
                lemma_map_of_index(old_entries, i as int);
            }
            proof {
                let ne = self.entries@;
                let nk = keys_of(ne);
                assert(nk =~= old_keys.remove(i as int));
                assert forall|a: int, b: int| 0 <= a < b < nk.len() implies lex_lt(#[trigger] nk[a], #[trigger] nk[b]) by {
                    if a < i as int && b >= i as int {
                        assert(lex_lt(old_keys[a], old_keys[b + 1]));
                    } else if a >= i as int {
                        assert(lex_lt(old_keys[a + 1], old_keys[b + 1]));
                    }
                }
                assert(self.wf());
                assert forall|q: Seq<u8>| #[trigger] map_of(ne).contains_key(q) == map_of(old_entries).remove(k).contains_key(q) by {
                    if map_of(ne).contains_key(q) {
                        let j = choose|j: int| 0 <= j < ne.len() && #[trigger] ne[j].0@ == q;
                        if j < i as int {
                            assert(old_entries[j].0@ == q);
                            assert(lex_lt(old_keys[j], old_keys[i as int]));
                            lemma_lex_lt_trichotomy(old_keys[j], old_keys[i as int]);
                        } else {
                            assert(old_entries[j + 1].0@ == q);
                            assert(lex_lt(old_keys[i as int], old_keys[j + 1]));
                            lemma_lex_lt_trichotomy(old_keys[i as int], old_keys[j + 1]);
                        }
                    }
                    if q != k && map_of(old_entries).contains_key(q) {
                        let j = choose|j: int| 0 <= j < old_entries.len() && #[trigger] old_entries[j].0@ == q;
                        if j < i as int {
                            assert(ne[j].0@ == q);
                        } else {
                            assert(j != i as int);
                            assert(ne[j - 1].0@ == q);
                        }
                    }
                }
                assert forall|q: Seq<u8>| #[trigger] map_of(ne).contains_key(q) implies map_of(ne)[q] == map_of(old_entries).remove(k)[q] by {
                    let j = choose|j: int| 0 <= j < ne.len() && #[trigger] ne[j].0@ == q;
                    lemma_map_of_index(ne, j);
                    if j < i as int {
                        lemma_map_of_index(old_entries, j);
                    } else {
                        lemma_map_of_index(old_entries, j + 1);
                    }
                }
                assert(map_of(ne) =~= map_of(old_entries).remove(k));
            }
            Some(value)
        } else {
            proof {
                assert(old(self)@.remove(key@) =~= old(self)@);
            }
            None
        }
    }
}

/// The keys of a strictly ascending entry sequence are its map's domain, and
/// there are as many as entries.
pub proof fn lemma_dom_is_key_set<V>(entries: Seq<(Vec<u8>, V)>)
    requires
        strictly_ascending(keys_of(entries)),
    ensures
        map_of(entries).dom() == keys_of(entries).to_set(),
        map_of(entries).dom().finite(),
        map_of(entries).dom().len() == entries.len(),
{
    let ks = keys_of(entries);
    assert forall|k: Seq<u8>| map_of(entries).dom().contains(k) == ks.to_set().contains(k) by {
        if map_of(entries).dom().contains(k) {
            let i = choose|i: int| 0 <= i < entries.len() && #[trigger] entries[i].0@ == k;
            assert(ks[i] == k);
        }
        if ks.contains(k) {
            let i = choose|i: int| 0 <= i < ks.len() && ks[i] == k;
            assert(entries[i].0@ == k);
        }
    }
    assert(map_of(entries).dom() =~= ks.to_set());
    assert(ks.no_duplicates()) by {
        assert forall|i: int, j: int| 0 <= i < ks.len() && 0 <= j < ks.len() && i != j implies ks[i] != ks[j] by {
            if i < j {
                assert(lex_lt(ks[i], ks[j]));
                crate::bytes::lemma_lex_lt_trichotomy(ks[i], ks[j]);
            } else {
                assert(lex_lt(ks[j], ks[i]));
                crate::bytes::lemma_lex_lt_trichotomy(ks[j], ks[i]);
            }
        }
    }
    ks.unique_seq_to_set();
}

} // verus!
