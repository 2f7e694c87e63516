//! A map from text, kept as a list of entries.

use vstd::prelude::*;
use vstd::string::*;

use crate::text::same_text;

verus! {

broadcast use vstd::string::group_string_axioms;

/// A map whose keys are texts.
#[derive(Debug)]
pub struct TextMap<V> {
    entries: Vec<(String, V)>,
}

/// Whether no two entries have the same key.
pub open spec fn distinct_keys<V>(entries: Seq<(String, V)>) -> bool {
    forall|i: int, j: int|
        0 <= i < j < entries.len() ==> (#[trigger] entries[i]).0@ != (#[trigger] entries[j]).0@
}

/// Whether some entry has the key `key`.
pub open spec fn has_key<V>(entries: Seq<(String, V)>, key: Seq<char>) -> bool {
    exists|i: int| 0 <= i < entries.len() && (#[trigger] entries[i]).0@ == key
}

/// The position of the entry with the key `key`.
pub open spec fn key_index<V>(entries: Seq<(String, V)>, key: Seq<char>) -> int {
    choose|i: int| 0 <= i < entries.len() && (#[trigger] entries[i]).0@ == key
}

/// The map that a list of entries stands for.
pub open spec fn entry_map<V>(entries: Seq<(String, V)>) -> Map<Seq<char>, V> {
    Map::new(|key: Seq<char>| has_key(entries, key), |key: Seq<char>| entries[key_index(entries, key)].1)
}

/// An entry is the one with its key.
pub proof fn entry_found<V>(entries: Seq<(String, V)>, i: int)
    requires
        distinct_keys(entries),
        0 <= i < entries.len(),
    ensures
        has_key(entries, entries[i].0@),
        key_index(entries, entries[i].0@) == i,
{
    let k = key_index(entries, entries[i].0@);
    assert(0 <= k < entries.len() && entries[k].0@ == entries[i].0@);
    if k < i {
        assert(entries[k].0@ != entries[i].0@);
    } else if i < k {
        assert(entries[i].0@ != entries[k].0@);
    }
}

impl<V> View for TextMap<V> {
    type V = Map<Seq<char>, V>;

    closed spec fn view(&self) -> Map<Seq<char>, V> {
        entry_map(self.entries@)
    }
}

impl<V> TextMap<V> {
    #[verifier::type_invariant]
    spec fn well_formed(self) -> bool {
        distinct_keys(self.entries@)
    }

    /// The entries, each key once, in some order.
    pub closed spec fn listed(&self) -> Seq<(String, V)> {
        self.entries@
    }

    /// The map without entries.
    pub fn new() -> (map: Self)
        ensures
            map@ == Map::<Seq<char>, V>::empty(),
            map.listed() == Seq::<(String, V)>::empty(),
    {
        let map = TextMap { entries: Vec::new() };
        assert(map@ =~= Map::<Seq<char>, V>::empty());
        map
    }

    /// The entries as a list.
    pub fn entries(&self) -> (entries: &Vec<(String, V)>)
        ensures
            entries@ == self.listed(),
            distinct_keys(entries@),
            self@ == entry_map(entries@),
    {
        proof {
            use_type_invariant(self);
        }
        &self.entries
    }

    fn position(&self, key: &str) -> (position: Option<usize>)
        ensures
            match position {
                Some(i) => {
                    &&& i < self.entries.len()
                    &&& self.entries@[i as int].0@ == key@
                    &&& key_index(self.entries@, key@) == i
                    &&& has_key(self.entries@, key@)
                },
                None => !has_key(self.entries@, key@),
            },
    {
        proof {
            use_type_invariant(self);
        }
        let mut i: usize = 0;
        while i < self.entries.len()
            invariant
                i <= self.entries.len(),
                distinct_keys(self.entries@),
                forall|j: int| 0 <= j < i ==> (#[trigger] self.entries@[j]).0@ != key@,
            decreases self.entries.len() - i,
        {
            if same_text(self.entries[i].0.as_str(), key) {
                proof {
                    entry_found(self.entries@, i as int);
                }
                return Some(i);
            }
            i = i + 1;
        }
        None
    }

    /// The value of `key`.
    pub fn get(&self, key: &str) -> (value: Option<&V>)
        ensures
            match value {
                Some(v) => self@.contains_key(key@) && *v == self@[key@],
                None => !self@.contains_key(key@),
            },
    {
        match self.position(key) {
            Some(i) => Some(&self.entries[i].1),
            None => None,
        }
    }

    /// Whether `key` has a value.
    pub fn contains_key(&self, key: &str) -> (yes: bool)
        ensures
            yes == self@.contains_key(key@),
    {
        self.position(key).is_some()
    }

    /// Gives `key` the value `value`, in place of any it had.
    pub fn insert(&mut self, key: String, value: V)
        ensures
            final(self)@ == old(self)@.insert(key@, value),
    {
        proof {
            use_type_invariant(&*self);
        }
        let found: Option<usize> = self.position(key.as_str());
        let ghost before = self.entries@;
        let ghost name = key@;
        let mut entries: Vec<(String, V)> = Vec::new();
        std::mem::swap(&mut entries, &mut self.entries);
        match found {
            Some(i) => {
                entries.set(i, (key, value));
            },
            None => {
                entries.push((key, value));
            },
        }
        proof {
            assert(distinct_keys(entries@)) by {
                assert forall|i: int, j: int| 0 <= i < j < entries@.len() implies (
                #[trigger] entries@[i]).0@ != (#[trigger] entries@[j]).0@ by {
                    if found is Some {
                        assert(before[i].0@ != before[j].0@);
                    } else if j < before.len() {
                        assert(before[i].0@ != before[j].0@);
                    } else {
                        assert(before[i].0@ != name);
                    }
                }
            }
            let k: int = match found {
                Some(i) => i as int,
                None => before.len() as int,
            };
            entry_found(entries@, k);
            assert forall|q: Seq<char>| #[trigger] has_key(entries@, q) == (has_key(before, q) || q
                == name) by {
                if has_key(before, q) {
                    let m = key_index(before, q);
                    assert(entries@[m].0@ == q);
                }
                if q == name {
                    assert(entries@[k].0@ == q);
                }
                if has_key(entries@, q) && q != name {
                    let m = key_index(entries@, q);
                    assert(before[m].0@ == q);
                }
            }
            assert forall|q: Seq<char>| q != name && has_key(before, q) implies entries@[#[trigger] key_index(
                entries@,
                q,
            )].1 == before[key_index(before, q)].1 by {
                let m = key_index(before, q);
                assert(entries@[m].0@ == q);
                entry_found(entries@, m);
            }
            assert(entry_map(entries@) =~= entry_map(before).insert(name, value));
        }
        self.entries = entries;
    }

    /// Gives `key` the value `value` unless it has one.
    pub fn insert_absent(&mut self, key: String, value: V)
        ensures
            final(self)@ == if old(self)@.contains_key(key@) {
                old(self)@
            } else {
                old(self)@.insert(key@, value)
            },
    {
        if !self.contains_key(key.as_str()) {
            self.insert(key, value);
        }
    }

    /// The map of a list of entries; of entries with the same key the last counts.
    pub fn from_entries(list: Vec<(String, V)>) -> (map: Self)
        ensures
            map@ == last_entries(list@),
    {
        let mut map: TextMap<V> = TextMap::new();
        let ghost whole = list@;
        let mut rest: Vec<(String, V)> = list;
        while rest.len() > 0
            invariant
                rest@ == whole.skip(whole.len() - rest@.len()),
                rest@.len() <= whole.len(),
                map@ == last_entries(whole.take(whole.len() - rest@.len())),
            decreases rest.len(),
        {
            let (key, value) = rest.remove(0);
            let ghost done = whole.len() - rest@.len();
            assert(whole.take(done).drop_last() =~= whole.take(done - 1));
            assert(whole.take(done).last() == (key, value));
            map.insert(key, value);
        }
        assert(whole.take(whole.len() as int) =~= whole);
        map
    }

    /// The entries as a list.
    pub fn into_entries(self) -> (entries: Vec<(String, V)>)
        ensures
            entries@ == self.listed(),
            distinct_keys(entries@),
            self@ == entry_map(entries@),
    {
        proof {
            use_type_invariant(&self);
        }
        self.entries
    }
}

impl<V: Clone> Clone for TextMap<V> {
    fn clone(&self) -> (copy: Self)
        ensures
            copy@.dom() == self@.dom(),
            forall|key: Seq<char>| #[trigger]
                copy@.contains_key(key) ==> cloned::<V>(self@[key], copy@[key]),
    {
        proof {
            use_type_invariant(self);
        }
        let mut entries: Vec<(String, V)> = Vec::new();
        let mut i: usize = 0;
        while i < self.entries.len()
            invariant
                i <= self.entries.len(),
                entries@.len() == i,
                forall|k: int|
                    0 <= k < i ==> (#[trigger] entries@[k]).0@ == self.entries@[k].0@ && cloned::<V>(
                        self.entries@[k].1,
                        entries@[k].1,
                    ),
            decreases self.entries.len() - i,
        {
            entries.push((self.entries[i].0.clone(), self.entries[i].1.clone()));
            i = i + 1;
        }
        proof {
            assert forall|i: int, j: int| 0 <= i < j < entries@.len() implies (
            #[trigger] entries@[i]).0@ != (#[trigger] entries@[j]).0@ by {
                assert(self.entries@[i].0@ != self.entries@[j].0@);
            }
            assert forall|key: Seq<char>| #[trigger] has_key(entries@, key) == has_key(
                self.entries@,
                key,
            ) by {
                if has_key(entries@, key) {
                    let k = key_index(entries@, key);
                    assert(self.entries@[k].0@ == key);
                }
                if has_key(self.entries@, key) {
                    let k = key_index(self.entries@, key);
                    assert(entries@[k].0@ == key);
                }
            }
            assert forall|key: Seq<char>| #[trigger] has_key(entries@, key) implies key_index(
                entries@,
                key,
            ) == key_index(self.entries@, key) by {
                let k = key_index(self.entries@, key);
                assert(entries@[k].0@ == key);
                entry_found(entries@, k);
            }
            assert(entry_map(entries@).dom() =~= entry_map(self.entries@).dom());
        }
        TextMap { entries }
    }
}

/// The map of a list of entries; of entries with the same key the last counts.
pub open spec fn last_entries<V>(list: Seq<(String, V)>) -> Map<Seq<char>, V>
    decreases list.len(),
{
    if list.len() == 0 {
        Map::empty()
    } else {
        last_entries(list.drop_last()).insert(list.last().0@, list.last().1)
    }
}

/// A list without repeated keys stands for the map of its entries.
pub proof fn distinct_entries<V>(list: Seq<(String, V)>)
    requires
        distinct_keys(list),
    ensures
        entry_map(list) == last_entries(list),
    decreases list.len(),
{
    if list.len() == 0 {
        assert(entry_map(list) =~= last_entries(list));
    } else {
        let front = list.drop_last();
        assert(distinct_keys(front)) by {
            assert forall|i: int, j: int| 0 <= i < j < front.len() implies (
            #[trigger] front[i]).0@ != (#[trigger] front[j]).0@ by {
                assert(list[i].0@ != list[j].0@);
            }
        }
        distinct_entries(front);
        assert forall|key: Seq<char>| #[trigger] has_key(list, key) == (has_key(front, key) || key
            == list.last().0@) by {
            if has_key(front, key) {
                let k = key_index(front, key);
                assert(list[k].0@ == key);
            }
            if has_key(list, key) {
                let k = key_index(list, key);
                if k < front.len() {
                    assert(front[k].0@ == key);
                }
            }
            if key == list.last().0@ {
                assert(list[list.len() - 1].0@ == key);
            }
        }
        entry_found(list, list.len() - 1);
        assert forall|key: Seq<char>| key != list.last().0@ && has_key(front, key) implies
            list[#[trigger] key_index(list, key)].1 == front[key_index(front, key)].1 by {
            let k = key_index(front, key);
            assert(list[k].0@ == key);
            entry_found(list, k);
        }
        assert(entry_map(list) =~= last_entries(list));
    }
}

/// A map of texts by its views.
pub open spec fn texts(map: Map<Seq<char>, String>) -> Map<Seq<char>, Seq<char>> {
    map.map_values(|value: String| value@)
}

} // verus!
