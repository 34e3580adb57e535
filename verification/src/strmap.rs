//! A map with string keys.

use vstd::prelude::*;

use crate::order;
use crate::text;

verus! {

/// A map from strings to values.
pub struct StrMap<V> {
    entries: Vec<(String, V)>,
}

/// The index of the entry with the given key, or the number of entries.
spec fn index_of<V>(entries: Seq<(String, V)>, key: Seq<char>) -> int
    decreases entries.len(),
{
    if entries.len() == 0 {
        0
    } else if entries[0].0@ == key {
        0
    } else {
        1 + index_of(entries.drop_first(), key)
    }
}

proof fn lemma_index_of<V>(entries: Seq<(String, V)>, key: Seq<char>)
    ensures
        0 <= index_of(entries, key) <= entries.len(),
        forall|i: int| 0 <= i < index_of(entries, key) ==> (#[trigger] entries[i]).0@ != key,
        index_of(entries, key) < entries.len() ==> entries[index_of(entries, key)].0@ == key,
    decreases entries.len(),
{
    if entries.len() > 0 && entries[0].0@ != key {
        let rest = entries.drop_first();
        lemma_index_of(rest, key);
        assert forall|i: int| 0 <= i < index_of(entries, key) implies (#[trigger] entries[i]).0@
            != key by {
            if i > 0 {
                assert(rest[i - 1] == entries[i]);
            }
        }
    }
}

spec fn unique_keys<V>(entries: Seq<(String, V)>) -> bool {
    forall|i: int, j: int|
        0 <= i < entries.len() && 0 <= j < entries.len() && (#[trigger] entries[i]).0@ == (
        #[trigger] entries[j]).0@ ==> i == j
}

spec fn map_of<V>(entries: Seq<(String, V)>) -> Map<Seq<char>, V> {
    Map::new(
        |key: Seq<char>| index_of(entries, key) < entries.len(),
        |key: Seq<char>| entries[index_of(entries, key)].1,
    )
}

impl<V> View for StrMap<V> {
    type V = Map<Seq<char>, V>;

    closed spec fn view(&self) -> Map<Seq<char>, V> {
        map_of(self.entries@)
    }
}

impl<V> StrMap<V> {
    #[verifier::type_invariant]
    spec fn well_formed(&self) -> bool {
        unique_keys(self.entries@)
    }

    /// The empty map.
    pub fn new() -> (map: Self)
        ensures
            map@ == Map::<Seq<char>, V>::empty(),
    {
        let entries: Vec<(String, V)> = Vec::new();
        assert(map_of(entries@) =~= Map::<Seq<char>, V>::empty());
        StrMap { entries }
    }

    fn find(&self, key: &str) -> (found: Option<usize>)
        ensures
            match found {
                Some(i) => i < self.entries@.len() && i == index_of(self.entries@, key@),
                None => index_of(self.entries@, key@) == self.entries@.len(),
            },
    {
        let mut i: usize = 0;
        proof {
            lemma_index_of(self.entries@, key@);
        }
        while i < self.entries.len()
            invariant
                i <= self.entries@.len(),
                0 <= index_of(self.entries@, key@) <= self.entries@.len(),
                index_of(self.entries@, key@) < self.entries@.len() ==> self.entries@[index_of(
                    self.entries@,
                    key@,
                )].0@ == key@,
                forall|j: int|
                    0 <= j < index_of(self.entries@, key@) ==> (#[trigger] self.entries@[j]).0@
                        != key@,
                forall|j: int| 0 <= j < i ==> (#[trigger] self.entries@[j]).0@ != key@,
            decreases self.entries.len() - i,
        {
            if text::same_text(self.entries[i].0.as_str(), key) {
                return Some(i);
            }
            i += 1;
        }
        None
    }

    /// The value of a key.
    pub fn get(&self, key: &str) -> (value: Option<&V>)
        ensures
            value is Some <==> self@.contains_key(key@),
            value is Some ==> *value->0 == self@[key@],
    {
        match self.find(key) {
            Some(i) => Some(&self.entries[i].1),
            None => None,
        }
    }

    /// Whether the map has a key.
    pub fn contains(&self, key: &str) -> (has: bool)
        ensures
            has == self@.contains_key(key@),
    {
        self.find(key).is_some()
    }

    /// Gives a key a value, in place of the one it may have.
    pub fn insert(&mut self, key: String, value: V)
        ensures
            final(self)@ == old(self)@.insert(key@, value),
    {
        proof {
            use_type_invariant(&*self);
        }
        let found = self.find(key.as_str());
        let mut entries: Vec<(String, V)> = Vec::new();
        std::mem::swap(&mut entries, &mut self.entries);
        let ghost before = entries@;
        let ghost k = key@;
        proof {
            lemma_index_of(before, k);
        }
        match found {
            Some(i) => {
                entries.set(i, (key, value));
            },
            None => {
                entries.push((key, value));
            },
        }
        proof {
            let after = entries@;
            assert(unique_keys(after));
            assert forall|t: Seq<char>| #[trigger]
                index_of(after, t) == (if index_of(before, t) < before.len() || t != k {
                    if index_of(before, t) < before.len() {
                        index_of(before, t)
                    } else {
                        after.len() as int
                    }
                } else {
                    before.len() as int
                }) by {
                lemma_index_of(before, t);
                lemma_index_of(after, t);
                let b = index_of(before, t);
                if b < before.len() {
                    assert(after[b].0@ == t);
                }
                let a = index_of(after, t);
                if a < before.len() {
                    assert(before[a].0@ == t);
                }
                if found is None && t == k {
                    assert(after[before.len() as int].0@ == t);
                }
            }
            let expected = map_of(before).insert(k, value);
            assert forall|t: Seq<char>| map_of(after).contains_key(t) == expected.contains_key(t) by {
                lemma_index_of(before, t);
                assert(index_of(after, t) <= after.len());
            }
            assert forall|t: Seq<char>| map_of(after).contains_key(t) implies map_of(after)[t]
                == expected[t] by {
                lemma_index_of(before, t);
                assert(index_of(after, t) <= after.len());
            }
            assert(map_of(after) =~= expected);
        }
        self.entries = entries;
    }

    /// Takes a key out of the map.
    pub fn remove(&mut self, key: &str) -> (value: Option<V>)
        ensures
            final(self)@ == old(self)@.remove(key@),
            value is Some <==> old(self)@.contains_key(key@),
            value is Some ==> value->0 == old(self)@[key@],
    {
        proof {
            use_type_invariant(&*self);
            lemma_index_of(self.entries@, key@);
        }
        match self.find(key) {
            None => {
                assert(map_of(self.entries@).remove(key@) =~= map_of(self.entries@));
                None
            },
            Some(i) => {
                let mut entries: Vec<(String, V)> = Vec::new();
                std::mem::swap(&mut entries, &mut self.entries);
                let ghost before = entries@;
                let (_, value) = entries.remove(i);
                proof {
                    let after = entries@;
                    let at = i as int;
                    assert forall|x: int, y: int|
                        0 <= x < after.len() && 0 <= y < after.len() && (#[trigger] after[x]).0@
                            == (#[trigger] after[y]).0@ implies x == y by {
                        let bx = if x < at {
                            x
                        } else {
                            x + 1
                        };
                        let by = if y < at {
                            y
                        } else {
                            y + 1
                        };
                        assert(before[bx] == after[x]);
                        assert(before[by] == after[y]);
                    }
                    assert forall|t: Seq<char>| t != key@ implies (#[trigger] index_of(after, t)
                        < after.len() <==> index_of(before, t) < before.len()) && (index_of(
                        before,
                        t,
                    ) < before.len() ==> after[index_of(after, t)] == before[index_of(
                        before,
                        t,
                    )]) by {
                        lemma_index_of(before, t);
                        lemma_index_of(after, t);
                        let b = index_of(before, t);
                        let a = index_of(after, t);
                        if b < before.len() {
                            if b < at {
                                assert(after[b] == before[b]);
                            } else {
                                assert(b != at);
                                assert(after[b - 1] == before[b]);
                            }
                        }
                        if a < after.len() {
                            if a < at {
                                assert(after[a] == before[a]);
                            } else {
                                assert(after[a] == before[a + 1]);
                            }
                        }
                    }
                    lemma_index_of(after, key@);
                    let a = index_of(after, key@);
                    if a < after.len() {
                        if a < at {
                            assert(after[a] == before[a]);
                        } else {
                            assert(after[a] == before[a + 1]);
                        }
                    }
                    assert(map_of(after) =~= map_of(before).remove(key@));
                }
                self.entries = entries;
                Some(value)
            },
        }
    }

    /// The keys, sorted.
    pub fn sorted_keys(&self) -> (keys: Vec<String>)
        ensures
            order::strictly_sorted(text::texts(keys@)),
            text::texts(keys@).to_set() == self@.dom(),
    {
        proof {
            use_type_invariant(self);
        }
        let mut keys: Vec<String> = Vec::new();
        let mut i: usize = 0;
        assert(text::texts(keys@) =~= Seq::<Seq<char>>::empty());
        while i < self.entries.len()
            invariant
                i <= self.entries@.len(),
                unique_keys(self.entries@),
                order::strictly_sorted(text::texts(keys@)),
                forall|t: Seq<char>|
                    text::texts(keys@).to_set().contains(t) <==> exists|j: int|
                        0 <= j < i && (#[trigger] self.entries@[j]).0@ == t,
            decreases self.entries.len() - i,
        {
            let ghost key = self.entries@[i as int].0@;
            let ghost seen = text::texts(keys@);
            proof {
                if seen.contains(key) {
                    assert(seen.to_set().contains(key));
                }
            }
            order::insert_sorted(&mut keys, self.entries[i].0.clone());
            proof {
                assert forall|t: Seq<char>|
                    text::texts(keys@).to_set().contains(t) <==> exists|j: int|
                        0 <= j < i + 1 && (#[trigger] self.entries@[j]).0@ == t by {
                    if seen.to_set().contains(t) {
                        let j = choose|j: int| 0 <= j < i && (#[trigger] self.entries@[j]).0@ == t;
                        assert(self.entries@[j].0@ == t);
                    }
                    if t == key {
                        assert(self.entries@[i as int].0@ == t);
                    }
                }
            }
            i += 1;
        }
        proof {
            assert forall|t: Seq<char>|
                text::texts(keys@).to_set().contains(t) == self@.dom().contains(t) by {
                lemma_index_of(self.entries@, t);
                let n = index_of(self.entries@, t);
                if n < self.entries@.len() {
                    assert(self.entries@[n].0@ == t);
                }
            }
            assert(text::texts(keys@).to_set() =~= self@.dom());
        }
        keys
    }
}

} // verus!
