//! A map from texts to values that keeps its entries in the order of their first insertion.

use crate::text;
use vstd::prelude::*;

verus! {

/// A map keyed by text. No two entries have the same key.
pub struct TextMap<V> {
    entries: Vec<(String, V)>,
}

/// Whether a list of entries has one with the key.
pub open spec fn has_entry<V>(entries: Seq<(Seq<char>, V)>, key: Seq<char>) -> bool {
    exists|i: int| 0 <= i < entries.len() && (#[trigger] entries[i]).0 == key
}

/// The position of an entry with the key.
pub open spec fn entry_position<V>(entries: Seq<(Seq<char>, V)>, key: Seq<char>) -> int {
    choose|i: int| 0 <= i < entries.len() && (#[trigger] entries[i]).0 == key
}

/// The mapping that a list of entries describes.
pub open spec fn entries_map<V>(entries: Seq<(Seq<char>, V)>) -> Map<Seq<char>, V> {
    Map::new(
        |key: Seq<char>| has_entry(entries, key),
        |key: Seq<char>| entries[entry_position(entries, key)].1,
    )
}

/// The entries with a value put under a key: in place of the one that was there, else at the end.
pub open spec fn put<V>(entries: Seq<(Seq<char>, V)>, key: Seq<char>, value: V) -> Seq<
    (Seq<char>, V),
>
    decreases entries.len(),
{
    if entries.len() == 0 {
        seq![(key, value)]
    } else if entries[0].0 == key {
        seq![(key, value)] + entries.skip(1)
    } else {
        seq![entries[0]] + put(entries.skip(1), key, value)
    }
}

proof fn lemma_put<V>(entries: Seq<(Seq<char>, V)>, key: Seq<char>, value: V)
    ensures
        !has_entry(entries, key) ==> put(entries, key, value) == entries.push((key, value)),
    decreases entries.len(),
{
    if entries.len() > 0 {
        lemma_put(entries.skip(1), key, value);
        if !has_entry(entries, key) {
            assert(entries[0].0 != key);
            assert forall|i: int| 0 <= i < entries.skip(1).len() implies (#[trigger] entries.skip(
                1,
            )[i]).0 != key by {
                assert(entries[i + 1].0 != key);
            }
            assert(put(entries, key, value) =~= entries.push((key, value)));
        }
    } else {
        assert(put(entries, key, value) =~= entries.push((key, value)));
    }
}

proof fn lemma_put_at<V>(entries: Seq<(Seq<char>, V)>, key: Seq<char>, value: V, p: int)
    requires
        0 <= p < entries.len(),
        entries[p].0 == key,
        forall|j: int| 0 <= j < p ==> (#[trigger] entries[j]).0 != key,
    ensures
        put(entries, key, value) == entries.update(p, (key, value)),
    decreases p,
{
    if p > 0 {
        assert(entries[0].0 != key);
        assert forall|j: int| 0 <= j < p - 1 implies (#[trigger] entries.skip(1)[j]).0 != key by {
            assert(entries[j + 1].0 != key);
        }
        lemma_put_at(entries.skip(1), key, value, p - 1);
    }
    assert(put(entries, key, value) =~= entries.update(p, (key, value)));
}

/// The texts of a map whose values are strings.
pub open spec fn text_values(m: Map<Seq<char>, String>) -> Map<Seq<char>, Seq<char>> {
    m.map_values(|s: String| s@)
}

/// The texts of entries whose values are strings.
pub open spec fn text_entries(entries: Seq<(Seq<char>, String)>) -> Seq<(Seq<char>, Seq<char>)> {
    Seq::new(entries.len(), |i: int| (entries[i].0, entries[i].1@))
}

/// Putting a string under a key puts its text there.
pub proof fn lemma_put_text(entries: Seq<(Seq<char>, String)>, key: Seq<char>, value: String)
    ensures
        text_entries(put(entries, key, value)) == put(text_entries(entries), key, value@),
    decreases entries.len(),
{
    if entries.len() > 0 {
        lemma_put_text(entries.skip(1), key, value);
        assert(text_entries(entries.skip(1)) =~= text_entries(entries).skip(1));
    }
    assert(text_entries(put(entries, key, value)) =~= put(text_entries(entries), key, value@));
}

spec fn distinct_keys<V>(entries: Seq<(Seq<char>, V)>) -> bool {
    forall|i: int, j: int|
        0 <= i < j < entries.len() ==> (#[trigger] entries[i]).0 != (#[trigger] entries[j]).0
}

proof fn lemma_entry<V>(entries: Seq<(Seq<char>, V)>, i: int)
    requires
        distinct_keys(entries),
        0 <= i < entries.len(),
    ensures
        entries_map(entries).contains_key(entries[i].0),
        entries_map(entries)[entries[i].0] == entries[i].1,
{
    let p = entry_position(entries, entries[i].0);
    assert(0 <= p < entries.len() && entries[p].0 == entries[i].0);
    if p < i {
        assert(entries[p].0 != entries[i].0);
    } else if i < p {
        assert(entries[i].0 != entries[p].0);
    }
}

proof fn lemma_insert<V>(before: Seq<(Seq<char>, V)>, after: Seq<(Seq<char>, V)>, key: Seq<char>, value: V)
    requires
        distinct_keys(before),
        if has_entry(before, key) {
            exists|p: int|
                0 <= p < before.len() && (#[trigger] before[p]).0 == key && after
                    == before.update(p, (key, value))
        } else {
            after == before.push((key, value))
        },
    ensures
        distinct_keys(after),
        entries_map(after) == entries_map(before).insert(key, value),
{
    if has_entry(before, key) {
        let p = choose|p: int|
            0 <= p < before.len() && (#[trigger] before[p]).0 == key && after == before.update(
                p,
                (key, value),
            );
        assert forall|i: int| 0 <= i < after.len() implies (#[trigger] after[i]).0
            == before[i].0 by {}
        assert(distinct_keys(after));
        lemma_entry(after, p);
        assert forall|k: Seq<char>| #[trigger] entries_map(after).contains_key(k)
            == entries_map(before).insert(key, value).contains_key(k) by {
            if has_entry(before, k) {
                let q = entry_position(before, k);
                assert(before[q].0 == k);
                assert(after[q].0 == k);
            }
            if has_entry(after, k) {
                let q = entry_position(after, k);
                assert(before[q].0 == k);
            }
        }
        assert forall|k: Seq<char>| #[trigger] entries_map(after).contains_key(k) implies
            entries_map(after)[k] == entries_map(before).insert(key, value)[k] by {
            let q = entry_position(after, k);
            lemma_entry(after, q);
            lemma_entry(before, q);
        }
        assert(entries_map(after) =~= entries_map(before).insert(key, value));
    } else {
        let n = before.len() as int;
        assert(after[n].0 == key);
        assert forall|i: int| 0 <= i < n implies (#[trigger] after[i]) == before[i] by {}
        assert forall|i: int, j: int| 0 <= i < j < after.len() implies (#[trigger] after[i]).0 != (
        #[trigger] after[j]).0 by {
            if j == n {
                assert(before[i].0 != key);
            }
        }
        assert forall|k: Seq<char>| #[trigger] entries_map(after).contains_key(k)
            == entries_map(before).insert(key, value).contains_key(k) by {
            if has_entry(before, k) {
                let q = entry_position(before, k);
                assert(before[q].0 == k);
                assert(after[q].0 == k);
            }
            if has_entry(after, k) {
                let q = entry_position(after, k);
                if q < n {
                    assert(before[q].0 == k);
                }
            }
        }
        assert forall|k: Seq<char>| #[trigger] entries_map(after).contains_key(k) implies
            entries_map(after)[k] == entries_map(before).insert(key, value)[k] by {
            let q = entry_position(after, k);
            lemma_entry(after, q);
            if q < n {
                lemma_entry(before, q);
            }
        }
        assert(entries_map(after) =~= entries_map(before).insert(key, value));
    }
}

spec fn keyed<V>(entries: Seq<(String, V)>) -> Seq<(Seq<char>, V)> {
    Seq::new(entries.len(), |i: int| (entries[i].0@, entries[i].1))
}

impl<V> View for TextMap<V> {
    type V = Map<Seq<char>, V>;

    open spec fn view(&self) -> Map<Seq<char>, V> {
        entries_map(self.entry_list())
    }
}

impl<V> TextMap<V> {
    #[verifier::type_invariant]
    spec fn keys_are_distinct(self) -> bool {
        distinct_keys(self.entry_list())
    }

    /// The entries in the order of their first insertion.
    pub closed spec fn entry_list(&self) -> Seq<(Seq<char>, V)> {
        keyed(self.entries@)
    }

    /// A map without entries.
    pub fn new() -> (r: TextMap<V>)
        ensures
            r@ == Map::<Seq<char>, V>::empty(),
            r.entry_list() == Seq::<(Seq<char>, V)>::empty(),
    {
        let r = TextMap { entries: Vec::new() };
        proof {
            assert(r@ =~= Map::<Seq<char>, V>::empty());
        }
        r
    }

    fn position(entries: &Vec<(String, V)>, key: &str) -> (r: Option<usize>)
        ensures
            match r {
                Some(i) => i < entries@.len() && keyed(entries@)[i as int].0 == key@ && forall|j: int|
                    0 <= j < i ==> (#[trigger] keyed(entries@)[j]).0 != key@,
                None => !has_entry(keyed(entries@), key@),
            },
    {
        let mut i: usize = 0;
        while i < entries.len()
            invariant
                i <= entries@.len(),
                forall|j: int| 0 <= j < i ==> (#[trigger] keyed(entries@)[j]).0 != key@,
            decreases entries@.len() - i,
        {
            if text::same(entries[i].0.as_str(), key) {
                return Some(i);
            }
            i = i + 1;
        }
        None
    }

    /// The value under a key.
    pub fn get(&self, key: &str) -> (r: Option<&V>)
        ensures
            match r {
                Some(v) => self@.contains_key(key@) && self@[key@] == *v,
                None => !self@.contains_key(key@),
            },
    {
        proof {
            use_type_invariant(self);
        }
        match Self::position(&self.entries, key) {
            Some(i) => {
                proof {
                    lemma_entry(self.entry_list(), i as int);
                }
                Some(&self.entries[i].1)
            },
            None => None,
        }
    }

    /// Puts a value under a key, in place of the one that was there.
    pub fn insert(&mut self, key: String, value: V)
        ensures
            final(self)@ == old(self)@.insert(key@, value),
            final(self).entry_list() == put(old(self).entry_list(), key@, value),
    {
        proof {
            use_type_invariant(&*self);
        }
        let mut entries: Vec<(String, V)> = Vec::new();
        std::mem::swap(&mut self.entries, &mut entries);
        let ghost before = keyed(entries@);
        let ghost wanted = key@;
        let found = Self::position(&entries, key.as_str());
        match found {
            Some(i) => {
                entries[i] = (key, value);
                proof {
                    assert(keyed(entries@) =~= before.update(i as int, (wanted, value)));
                    assert(has_entry(before, wanted)) by {
                        assert(before[i as int].0 == wanted);
                    }
                    lemma_put_at(before, wanted, value, i as int);
                }
            },
            None => {
                entries.push((key, value));
                proof {
                    assert(keyed(entries@) =~= before.push((wanted, value)));
                    lemma_put(before, wanted, value);
                }
            },
        }
        proof {
            lemma_insert(before, keyed(entries@), wanted, value);
        }
        self.entries = entries;
    }

    /// How many entries there are.
    pub fn len(&self) -> (r: usize)
        ensures
            r == self.entry_list().len(),
    {
        self.entries.len()
    }

    /// The entry at a position.
    pub fn entry(&self, i: usize) -> (r: (&String, &V))
        requires
            i < self.entry_list().len(),
        ensures
            r.0@ == self.entry_list()[i as int].0,
            *r.1 == self.entry_list()[i as int].1,
    {
        (&self.entries[i].0, &self.entries[i].1)
    }

    /// Takes the value under a key out of the map.
    pub fn remove(&mut self, key: &str) -> (r: Option<V>)
        ensures
            final(self)@ == old(self)@.remove(key@),
            match r {
                Some(v) => old(self)@.contains_key(key@) && old(self)@[key@] == v,
                None => !old(self)@.contains_key(key@),
            },
    {
        proof {
            use_type_invariant(&*self);
        }
        let mut entries: Vec<(String, V)> = Vec::new();
        std::mem::swap(&mut self.entries, &mut entries);
        let ghost before = keyed(entries@);
        match Self::position(&entries, key) {
            Some(i) => {
                let taken = entries.remove(i);
                proof {
                    let after = keyed(entries@);
                    lemma_entry(before, i as int);
                    assert forall|j: int| 0 <= j < after.len() implies (#[trigger] after[j])
                        == before[if j < i {
                        j
                    } else {
                        j + 1
                    }] by {}
                    assert(distinct_keys(after));
                    assert forall|k: Seq<char>| #[trigger] entries_map(after).contains_key(k)
                        == entries_map(before).remove(key@).contains_key(k) by {
                        if has_entry(before, k) && k != key@ {
                            let q = entry_position(before, k);
                            assert(before[q].0 == k);
                            let j = if q < i {
                                q
                            } else {
                                q - 1
                            };
                            assert(after[j].0 == k);
                        }
                        if has_entry(after, k) {
                            let q = entry_position(after, k);
                            assert(after[q].0 == k);
                            let j = if q < i {
                                q
                            } else {
                                q + 1
                            };
                            assert(before[j].0 == k);
                            assert(before[i as int].0 == key@);
                        }
                    }
                    assert forall|k: Seq<char>| #[trigger] entries_map(after).contains_key(k) implies
                        entries_map(after)[k] == entries_map(before).remove(key@)[k] by {
                        let q = entry_position(after, k);
                        lemma_entry(after, q);
                        lemma_entry(
                            before,
                            if q < i {
                                q
                            } else {
                                q + 1
                            },
                        );
                    }
                    assert(entries_map(after) =~= entries_map(before).remove(key@));
                }
                self.entries = entries;
                Some(taken.1)
            },
            None => {
                proof {
                    assert(entries_map(before) =~= entries_map(before).remove(key@));
                }
                self.entries = entries;
                None
            },
        }
    }
}

impl Clone for TextMap<String> {
    /// A map with the same entries.
    fn clone(&self) -> (r: TextMap<String>)
        ensures
            r@ == self@,
            r.entry_list() == self.entry_list(),
    {
        proof {
            use_type_invariant(self);
        }
        let mut entries: Vec<(String, String)> = Vec::new();
        let mut i: usize = 0;
        while i < self.entries.len()
            invariant
                i <= self.entries@.len(),
                entries@.len() == i,
                forall|j: int| 0 <= j < i ==> #[trigger] entries@[j] == self.entries@[j],
            decreases self.entries@.len() - i,
        {
            entries.push((self.entries[i].0.clone(), self.entries[i].1.clone()));
            i = i + 1;
        }
        proof {
            assert(entries@ =~= self.entries@);
        }
        TextMap { entries }
    }
}

/// A value put under a key is found there and takes the place of the one that was there, or comes last;
/// every other entry stays in its place.
pub proof fn a_value_takes_the_place_of_another<V>(
    entries: Seq<(Seq<char>, V)>,
    key: Seq<char>,
    value: V,
    i: int,
)
    requires
        0 <= i <= entries.len(),
        forall|j: int| 0 <= j < i ==> (#[trigger] entries[j]).0 != key,
        i < entries.len() ==> entries[i].0 == key,
    ensures
        i < entries.len() ==> put(entries, key, value) == entries.update(i, (key, value)),
        i == entries.len() ==> put(entries, key, value) == entries.push((key, value)),
    decreases entries.len(),
{
    if entries.len() == 0 {
        assert(put(entries, key, value) =~= entries.push((key, value)));
    } else if i == 0 {
        assert(put(entries, key, value) =~= entries.update(0, (key, value)));
    } else {
        let rest = entries.skip(1);
        assert(entries[0].0 != key);
        assert forall|j: int| 0 <= j < i - 1 implies (#[trigger] rest[j]).0 != key by {
            assert(entries[j + 1].0 != key);
        }
        a_value_takes_the_place_of_another(rest, key, value, i - 1);
        if i < entries.len() {
            assert(put(entries, key, value) =~= entries.update(i, (key, value)));
        } else {
            assert(put(entries, key, value) =~= entries.push((key, value)));
        }
    }
}

} // verus!
