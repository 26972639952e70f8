//! A map from texts to values that hands out its keys in order.
use vstd::prelude::*;

use crate::text::{less, less_total, less_transitive, same, text_less};

verus! {

/// The keys of a list of entries.
pub open spec fn keys_of<V>(entries: Seq<(String, V)>) -> Seq<Seq<char>> {
    entries.map_values(|entry: (String, V)| entry.0@)
}

/// Whether every text comes before the ones that follow it.
pub open spec fn ascending(keys: Seq<Seq<char>>) -> bool {
    forall|i: int, j: int|
        0 <= i < j < keys.len() ==> text_less(#[trigger] keys[i], #[trigger] keys[j])
}

/// The value of `key` in a list of entries: that of the first entry with the key.
pub open spec fn lookup<V>(entries: Seq<(String, V)>, key: Seq<char>) -> Option<V>
    decreases entries.len(),
{
    if entries.len() == 0 {
        None
    } else if entries[0].0@ == key {
        Some(entries[0].1)
    } else {
        lookup(entries.drop_first(), key)
    }
}

/// A map with texts as keys.
#[derive(Debug)]
pub struct TextMap<V> {
    entries: Vec<(String, V)>,
}

impl<V> View for TextMap<V> {
    type V = Map<Seq<char>, V>;

    closed spec fn view(&self) -> Map<Seq<char>, V> {
        Map::new(
            |key: Seq<char>| lookup(self.entries@, key) is Some,
            |key: Seq<char>| lookup(self.entries@, key)->0,
        )
    }
}

/// Each entry of an ordered list is found by its key.
proof fn lemma_lookup<V>(entries: Seq<(String, V)>, i: int)
    requires
        ascending(keys_of(entries)),
        0 <= i < entries.len(),
    ensures
        lookup(entries, entries[i].0@) == Some(entries[i].1),
    decreases entries.len(),
{
    let keys = keys_of(entries);
    if i > 0 {
        assert(text_less(keys[0], keys[i]));
        less_total(keys[i], keys[i]);
        let rest = entries.drop_first();
        assert(keys_of(rest) =~= keys.drop_first());
        assert forall|x: int, y: int| 0 <= x < y < rest.len() implies text_less(
            #[trigger] keys_of(rest)[x],
            #[trigger] keys_of(rest)[y],
        ) by {
            assert(text_less(keys[x + 1], keys[y + 1]));
        }
        lemma_lookup(rest, i - 1);
    }
}

/// What is found stands in the list.
proof fn lemma_found<V>(entries: Seq<(String, V)>, key: Seq<char>) -> (i: int)
    requires
        lookup(entries, key) is Some,
    ensures
        0 <= i < entries.len(),
        entries[i].0@ == key,
        lookup(entries, key) == Some(entries[i].1),
    decreases entries.len(),
{
    if entries[0].0@ == key {
        0
    } else {
        lemma_found(entries.drop_first(), key) + 1
    }
}

impl<V> TextMap<V> {
    /// The entries stand in the order of their keys.
    pub closed spec fn well_formed(&self) -> bool {
        ascending(keys_of(self.entries@))
    }

    /// The keys, in ascending order.
    pub closed spec fn keys(&self) -> Seq<Seq<char>> {
        keys_of(self.entries@)
    }

    /// An empty map.
    pub fn new() -> (r: TextMap<V>)
        ensures
            r.well_formed(),
            r@ == Map::<Seq<char>, V>::empty(),
            r.keys().len() == 0,
    {
        let out = TextMap { entries: Vec::new() };
        proof {
            assert(out@ =~= Map::<Seq<char>, V>::empty());
        }
        out
    }

    /// The keys are those of the map, each once and in order.
    pub proof fn keys_are_those_of_the_map(&self)
        requires
            self.well_formed(),
        ensures
            ascending(self.keys()),
            forall|key: Seq<char>| self@.contains_key(key) <==> self.keys().contains(key),
    {
        let keys = self.keys();
        assert forall|key: Seq<char>| self@.contains_key(key) <==> keys.contains(key) by {
            if self@.contains_key(key) {
                let i = lemma_found(self.entries@, key);
                assert(keys[i] == key);
            }
            if keys.contains(key) {
                let i = choose|i: int| 0 <= i < keys.len() && keys[i] == key;
                lemma_lookup(self.entries@, i);
            }
        }
    }

    pub fn len(&self) -> (r: usize)
        ensures
            r == self.keys().len(),
    {
        self.entries.len()
    }

    /// The key at a position.
    pub fn key_at(&self, i: usize) -> (r: &str)
        requires
            i < self.keys().len(),
        ensures
            r@ == self.keys()[i as int],
    {
        self.entries[i].0.as_str()
    }

    /// The value at a position.
    pub fn value_at(&self, i: usize) -> (r: &V)
        requires
            self.well_formed(),
            i < self.keys().len(),
        ensures
            self@.contains_key(self.keys()[i as int]),
            *r == self@[self.keys()[i as int]],
    {
        proof {
            lemma_lookup(self.entries@, i as int);
        }
        &self.entries[i].1
    }

    /// The position of `key`, or where it would stand.
    fn position(&self, key: &str) -> (r: (usize, bool))
        requires
            self.well_formed(),
        ensures
            r.0 <= self.entries@.len(),
            forall|i: int| 0 <= i < r.0 ==> text_less(#[trigger] self.keys()[i], key@),
            r.1 ==> r.0 < self.entries@.len() && self.keys()[r.0 as int] == key@,
            !r.1 ==> forall|i: int|
                r.0 <= i < self.entries@.len() ==> text_less(key@, #[trigger] self.keys()[i]),
            r.1 == self@.contains_key(key@),
    {
        let mut i: usize = 0;
        while i < self.entries.len()
            invariant
                i <= self.entries@.len(),
                ascending(self.keys()),
                forall|j: int| 0 <= j < i ==> text_less(#[trigger] self.keys()[j], key@),
            decreases self.entries@.len() - i,
        {
            proof {
                less_total(self.keys()[i as int], key@);
            }
            if same(&self.entries[i].0, key) {
                proof {
                    lemma_lookup(self.entries@, i as int);
                }
                return (i, true);
            }
            if less(key, &self.entries[i].0) {
                proof {
                    assert forall|j: int| i <= j < self.entries@.len() implies text_less(
                        key@,
                        #[trigger] self.keys()[j],
                    ) by {
                        if j > i {
                            less_transitive(key@, self.keys()[i as int], self.keys()[j]);
                        }
                    }
                    self.lemma_absent(key@, i as int);
                }
                return (i, false);
            }
            i = i + 1;
        }
        proof {
            self.lemma_absent(key@, i as int);
        }
        (i, false)
    }

    proof fn lemma_absent(&self, key: Seq<char>, at: int)
        requires
            0 <= at <= self.entries@.len(),
            forall|i: int| 0 <= i < at ==> text_less(#[trigger] self.keys()[i], key),
            forall|i: int| at <= i < self.entries@.len() ==> text_less(key, #[trigger] self.keys()[i]),
        ensures
            !self@.contains_key(key),
    {
        less_total(key, key);
        if self@.contains_key(key) {
            let i = lemma_found(self.entries@, key);
            assert(self.keys()[i] == key);
        }
    }

    /// The value of `key`.
    pub fn get(&self, key: &str) -> (r: Option<&V>)
        requires
            self.well_formed(),
        ensures
            match r {
                Some(value) => self@.contains_key(key@) && *value == self@[key@],
                None => !self@.contains_key(key@),
            },
    {
        let (at, found) = self.position(key);
        if found {
            proof {
                    lemma_lookup(self.entries@, at as int);
            }
            Some(&self.entries[at].1)
        } else {
            None
        }
    }

    pub fn contains_key(&self, key: &str) -> (r: bool)
        requires
            self.well_formed(),
        ensures
            r == self@.contains_key(key@),
    {
        self.position(key).1
    }

    /// Sets the value of `key` and returns the one it replaces.
    pub fn insert(&mut self, key: &str, value: V) -> (r: Option<V>)
        requires
            old(self).well_formed(),
        ensures
            final(self).well_formed(),
            final(self)@ == old(self)@.insert(key@, value),
            match r {
                Some(before) => old(self)@.contains_key(key@) && before == old(self)@[key@],
                None => !old(self)@.contains_key(key@),
            },
    {
        let removed = self.remove(key);
        let ghost middle = self@;
        let (at, found) = self.position(key);
        let owned = key.to_owned();
        let ghost before = self.entries@;
        proof {
            let after = before.insert(at as int, (owned, value));
            assert(keys_of(after) =~= keys_of(before).insert(at as int, key@));
            assert(keys_of(before) == self.keys());
            lemma_insert_ascending(keys_of(before), at as int, key@);
        }
        self.entries.insert(at, (owned, value));
        proof {
            lemma_insert_lookup(before, at as int, (owned, value));
            let after = self.entries@;
            assert(after == before.insert(at as int, (owned, value)));
            assert forall|k: Seq<char>| k != key@ implies lookup(after, k) == lookup(before, k) by {}
            assert(self@ =~= middle.insert(key@, value));
            assert(middle.insert(key@, value) =~= old(self)@.insert(key@, value));
        }
        removed
    }

    /// Takes `key` and its value out of the map.
    pub fn remove(&mut self, key: &str) -> (r: Option<V>)
        requires
            old(self).well_formed(),
        ensures
            final(self).well_formed(),
            final(self)@ == old(self)@.remove(key@),
            match r {
                Some(value) => old(self)@.contains_key(key@) && value == old(self)@[key@],
                None => !old(self)@.contains_key(key@),
            },
    {
        let (at, found) = self.position(key);
        if found {
            proof {
                    assert(keys_of(self.entries@.remove(at as int)) =~= keys_of(self.entries@).remove(
                    at as int,
                ));
                lemma_lookup(self.entries@, at as int);
                lemma_remove_lookup(self.entries@, at as int);
            }
            let (_, value) = self.entries.remove(at);
            proof {
                assert(self@ =~= old(self)@.remove(key@));
            }
            Some(value)
        } else {
            proof {
                assert(self@ =~= old(self)@.remove(key@));
            }
            None
        }
    }
}

proof fn lemma_insert_ascending(keys: Seq<Seq<char>>, at: int, key: Seq<char>)
    requires
        ascending(keys),
        0 <= at <= keys.len(),
        forall|i: int| 0 <= i < at ==> text_less(#[trigger] keys[i], key),
        forall|i: int| at <= i < keys.len() ==> text_less(key, #[trigger] keys[i]),
    ensures
        ascending(keys.insert(at, key)),
{
    let after = keys.insert(at, key);
    assert forall|i: int, j: int| 0 <= i < j < after.len() implies text_less(
        #[trigger] after[i],
        #[trigger] after[j],
    ) by {
        let x = if i < at { keys[i] } else if i == at { key } else { keys[i - 1] };
        let y = if j < at { keys[j] } else if j == at { key } else { keys[j - 1] };
        assert(after[i] == x && after[j] == y);
    }
}

proof fn lemma_insert_lookup<V>(entries: Seq<(String, V)>, at: int, entry: (String, V))
    requires
        ascending(keys_of(entries)),
        ascending(keys_of(entries.insert(at, entry))),
        0 <= at <= entries.len(),
    ensures
        lookup(entries.insert(at, entry), entry.0@) == Some(entry.1),
        forall|key: Seq<char>|
            key != entry.0@ ==> lookup(entries.insert(at, entry), key) == #[trigger] lookup(
                entries,
                key,
            ),
{
    let after = entries.insert(at, entry);
    assert(after[at] == entry);
    lemma_lookup(after, at);
    assert forall|key: Seq<char>| key != entry.0@ implies lookup(after, key) == #[trigger] lookup(
        entries,
        key,
    ) by {
        if lookup(entries, key) is Some {
            let i = lemma_found(entries, key);
            let j = if i < at { i } else { i + 1 };
            assert(after[j] == entries[i]);
            lemma_lookup(after, j);
        }
        if lookup(after, key) is Some {
            let j = lemma_found(after, key);
            let i = if j < at { j } else { j - 1 };
            assert(j != at);
            assert(after[j] == entries[i]);
            lemma_lookup(entries, i);
        }
    }
}

proof fn lemma_remove_lookup<V>(entries: Seq<(String, V)>, at: int)
    requires
        ascending(keys_of(entries)),
        0 <= at < entries.len(),
    ensures
        ascending(keys_of(entries.remove(at))),
        lookup(entries.remove(at), entries[at].0@) is None,
        forall|key: Seq<char>|
            key != entries[at].0@ ==> lookup(entries.remove(at), key) == #[trigger] lookup(
                entries,
                key,
            ),
{
    let after = entries.remove(at);
    let keys = keys_of(entries);
    assert(keys_of(after) =~= keys.remove(at));
    assert forall|i: int, j: int| 0 <= i < j < after.len() implies text_less(
        #[trigger] keys_of(after)[i],
        #[trigger] keys_of(after)[j],
    ) by {
        let x = if i < at { i } else { i + 1 };
        let y = if j < at { j } else { j + 1 };
        assert(text_less(keys[x], keys[y]));
    }
    let gone = entries[at].0@;
    if lookup(after, gone) is Some {
        let j = lemma_found(after, gone);
        let i = if j < at { j } else { j + 1 };
        assert(after[j] == entries[i]);
        assert(keys[i] == gone && keys[at] == gone);
        less_total(gone, gone);
    }
    assert forall|key: Seq<char>| key != gone implies lookup(after, key) == #[trigger] lookup(
        entries,
        key,
    ) by {
        if lookup(entries, key) is Some {
            let i = lemma_found(entries, key);
            let j = if i < at { i } else { i - 1 };
            assert(i != at);
            assert(after[j] == entries[i]);
            lemma_lookup(after, j);
        }
        if lookup(after, key) is Some {
            let j = lemma_found(after, key);
            let i = if j < at { j } else { j + 1 };
            assert(after[j] == entries[i]);
            lemma_lookup(entries, i);
        }
    }
}

} // verus!
