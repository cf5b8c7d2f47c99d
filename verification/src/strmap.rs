//! A map from text to values.

use vstd::prelude::*;

verus! {

/// A map from text to values: pairs, no two of them with the same key.
#[derive(Debug)]
pub struct StringMap<V> {
    entries: Vec<(String, V)>,
}

/// The keys of a sequence of pairs, as text.
spec fn entry_keys<V>(entries: Seq<(String, V)>) -> Seq<Seq<char>> {
    entries.map_values(|e: (String, V)| e.0@)
}

/// The map that a sequence of pairs stands for.
spec fn entry_map<V>(entries: Seq<(String, V)>) -> Map<Seq<char>, V> {
    Map::new(
        |k: Seq<char>| entry_keys(entries).contains(k),
        |k: Seq<char>| entries[entry_keys(entries).index_of(k)].1,
    )
}

/// A pair of a sequence without repeated keys is what the map holds.
proof fn lemma_entry<V>(entries: Seq<(String, V)>, i: int)
    requires
        entry_keys(entries).no_duplicates(),
        0 <= i < entries.len(),
    ensures
        entry_map(entries).contains_key(entries[i].0@),
        entry_map(entries)[entries[i].0@] == entries[i].1,
{
    let keys = entry_keys(entries);
    assert(keys[i] == entries[i].0@);
    assert(keys.contains(keys[i]));
    let at = keys.index_of(keys[i]);
    assert(keys[at] == keys[i]);
    assert(at == i);
}

/// Strings as text.
pub open spec fn text_views(strings: Seq<String>) -> Seq<Seq<char>> {
    strings.map_values(|s: String| s@)
}

impl<V> View for StringMap<V> {
    type V = Map<Seq<char>, V>;

    closed spec fn view(&self) -> Map<Seq<char>, V> {
        entry_map(self.entries@)
    }
}

impl<V> StringMap<V> {
    #[verifier::type_invariant]
    spec fn keys_differ(self) -> bool {
        entry_keys(self.entries@).no_duplicates()
    }

    /// The empty map.
    pub fn new() -> (map: Self)
        ensures
            map@ == Map::<Seq<char>, V>::empty(),
    {
        let map = StringMap { entries: Vec::new() };
        assert(map@ =~= Map::<Seq<char>, V>::empty());
        map
    }

    /// The place of a key among the pairs.
    fn position(&self, key: &String) -> (at: Option<usize>)
        ensures
            match at {
                Some(i) => i < self.entries@.len() && self.entries@[i as int].0@ == key@,
                None => !self@.contains_key(key@),
            },
    {
        let mut i: usize = 0;
        while i < self.entries.len()
            invariant
                i <= self.entries@.len(),
                forall|j: int| 0 <= j < i ==> (#[trigger] self.entries@[j]).0@ != key@,
            decreases self.entries.len() - i,
        {
            if self.entries[i].0 == *key {
                return Some(i);
            }
            i = i + 1;
        }
        proof {
            let keys = entry_keys(self.entries@);
            if keys.contains(key@) {
                let j = choose|j: int| 0 <= j < keys.len() && keys[j] == key@;
                assert(self.entries@[j].0@ == key@);
            }
        }
        None
    }

    /// The value of a key.
    pub fn get(&self, key: &String) -> (value: Option<&V>)
        ensures
            match value {
                Some(v) => self@.contains_key(key@) && *v == self@[key@],
                None => !self@.contains_key(key@),
            },
    {
        proof {
            use_type_invariant(self);
        }
        match self.position(key) {
            Some(i) => {
                proof {
                    lemma_entry(self.entries@, i as int);
                }
                Some(&self.entries[i].1)
            },
            None => None,
        }
    }

    /// The keys, each once.
    pub fn keys(&self) -> (keys: Vec<String>)
        ensures
            text_views(keys@).no_duplicates(),
            forall|k: Seq<char>| #[trigger] self@.contains_key(k) <==> text_views(keys@).contains(k),
    {
        proof {
            use_type_invariant(self);
        }
        let mut keys: Vec<String> = Vec::new();
        let mut i: usize = 0;
        while i < self.entries.len()
            invariant
                i <= self.entries@.len(),
                text_views(keys@) =~= entry_keys(self.entries@).take(i as int),
            decreases self.entries.len() - i,
        {
            let ghost before = keys@;
            keys.push(self.entries[i].0.clone());
            assert(text_views(keys@) =~= text_views(before).push(self.entries@[i as int].0@));
            i = i + 1;
        }
        assert(text_views(keys@) =~= entry_keys(self.entries@));
        keys
    }

    /// Takes a key out of the map, with its value.
    pub fn remove(&mut self, key: &String) -> (value: Option<V>)
        ensures
            final(self)@ == old(self)@.remove(key@),
            match value {
                Some(v) => old(self)@.contains_key(key@) && v == old(self)@[key@],
                None => !old(self)@.contains_key(key@),
            },
    {
        proof {
            use_type_invariant(&*self);
        }
        let ghost before = self.entries@;
        match self.position(key) {
            Some(i) => {
                let mut entries: Vec<(String, V)> = Vec::new();
                std::mem::swap(&mut entries, &mut self.entries);
                let entry = entries.remove(i);
                proof {
                    lemma_entry(before, i as int);
                    lemma_removed(before, i as int);
                }
                self.entries = entries;
                Some(entry.1)
            },
            None => {
                assert(old(self)@.remove(key@) =~= old(self)@);
                None
            },
        }
    }

    /// Gives a key a value, in place of the one it had.
    pub fn insert(&mut self, key: String, value: V)
        ensures
            final(self)@ == old(self)@.insert(key@, value),
    {
        let ghost was = self@;
        let _replaced = self.remove(&key);
        proof {
            use_type_invariant(&*self);
        }
        let ghost before = self.entries@;
        let ghost rest = self@;
        let ghost text = key@;
        let mut entries: Vec<(String, V)> = Vec::new();
        std::mem::swap(&mut entries, &mut self.entries);
        let ghost pair = (key, value);
        entries.push((key, value));
        proof {
            assert(!rest.contains_key(text));
            lemma_pushed(before, pair);
            assert(was.remove(text).insert(text, value) =~= was.insert(text, value));
        }
        self.entries = entries;
    }
}

/// Taking a pair out takes its key out of the map.
proof fn lemma_removed<V>(entries: Seq<(String, V)>, i: int)
    requires
        entry_keys(entries).no_duplicates(),
        0 <= i < entries.len(),
    ensures
        entry_keys(entries.remove(i)).no_duplicates(),
        entry_map(entries.remove(i)) == entry_map(entries).remove(entries[i].0@),
{
    let rest = entries.remove(i);
    let keys = entry_keys(entries);
    let rest_keys = entry_keys(rest);
    let gone = entries[i].0@;
    assert forall|a: int, b: int| 0 <= a < rest_keys.len() && 0 <= b < rest_keys.len() && a != b implies rest_keys[a]
        != rest_keys[b] by {
        let a2 = if a < i { a } else { a + 1 };
        let b2 = if b < i { b } else { b + 1 };
        assert(rest_keys[a] == keys[a2] && rest_keys[b] == keys[b2]);
    }
    assert forall|k: Seq<char>| rest_keys.contains(k) <==> (keys.contains(k) && k != gone) by {
        if rest_keys.contains(k) {
            let a = choose|a: int| 0 <= a < rest_keys.len() && rest_keys[a] == k;
            let a2 = if a < i { a } else { a + 1 };
            assert(keys[a2] == k);
            assert(keys[i] == gone);
        }
        if keys.contains(k) && k != gone {
            let a = choose|a: int| 0 <= a < keys.len() && keys[a] == k;
            assert(keys[i] == gone);
            let a2 = if a < i { a } else { a - 1 };
            assert(rest_keys[a2] == k);
        }
    }
    assert forall|k: Seq<char>| entry_map(rest).contains_key(k) implies #[trigger] entry_map(rest)[k]
        == entry_map(entries)[k] by {
        let a = choose|a: int| 0 <= a < rest_keys.len() && rest_keys[a] == k;
        let a2 = if a < i { a } else { a + 1 };
        lemma_entry(rest, a);
        lemma_entry(entries, a2);
        assert(rest[a] == entries[a2]);
    }
    assert(entry_map(rest) =~= entry_map(entries).remove(gone));
}

/// Adding a pair with a new key adds it to the map.
proof fn lemma_pushed<V>(entries: Seq<(String, V)>, pair: (String, V))
    requires
        entry_keys(entries).no_duplicates(),
        !entry_map(entries).contains_key(pair.0@),
    ensures
        entry_keys(entries.push(pair)).no_duplicates(),
        entry_map(entries.push(pair)) == entry_map(entries).insert(pair.0@, pair.1),
{
    let more = entries.push(pair);
    let keys = entry_keys(entries);
    let more_keys = entry_keys(more);
    assert(more_keys =~= keys.push(pair.0@));
    assert(!keys.contains(pair.0@));
    assert(more_keys.no_duplicates());
    assert forall|k: Seq<char>| more_keys.contains(k) <==> (keys.contains(k) || k == pair.0@) by {
        if more_keys.contains(k) {
            let a = choose|a: int| 0 <= a < more_keys.len() && more_keys[a] == k;
            if a < keys.len() {
                assert(keys[a] == k);
            }
        }
        if keys.contains(k) {
            let a = choose|a: int| 0 <= a < keys.len() && keys[a] == k;
            assert(more_keys[a] == k);
        }
        if k == pair.0@ {
            assert(more_keys[keys.len() as int] == k);
        }
    }
    lemma_entry(more, entries.len() as int);
    assert forall|k: Seq<char>| keys.contains(k) implies entry_map(more)[k] == entry_map(entries)[k] by {
        let a = choose|a: int| 0 <= a < keys.len() && keys[a] == k;
        lemma_entry(more, a);
        lemma_entry(entries, a);
        assert(more[a] == entries[a]);
    }
    assert(entry_map(more) =~= entry_map(entries).insert(pair.0@, pair.1));
}

impl<V> Default for StringMap<V> {
    fn default() -> (map: Self)
        ensures
            map@ == Map::<Seq<char>, V>::empty(),
    {
        StringMap::new()
    }
}

impl<V: Clone> Clone for StringMap<V> {
    fn clone(&self) -> (copy: Self)
        ensures
            copy@.dom() == self@.dom(),
            forall|k: Seq<char>| #[trigger] self@.contains_key(k) ==> cloned::<V>(self@[k], copy@[k]),
    {
        proof {
            use_type_invariant(self);
        }
        let mut entries: Vec<(String, V)> = Vec::new();
        let mut i: usize = 0;
        while i < self.entries.len()
            invariant
                i == entries@.len(),
                i <= self.entries@.len(),
                forall|j: int|
                    0 <= j < i ==> (#[trigger] entries@[j]).0@ == self.entries@[j].0@ && cloned::<V>(
                        self.entries@[j].1,
                        entries@[j].1,
                    ),
            decreases self.entries.len() - i,
        {
            let key = self.entries[i].0.clone();
            let value = self.entries[i].1.clone();
            entries.push((key, value));
            i = i + 1;
        }
        let ghost copied = entries@;
        assert(entry_keys(copied) =~= entry_keys(self.entries@));
        let copy = StringMap { entries };
        proof {
            assert(copy@.dom() =~= self@.dom());
            assert forall|k: Seq<char>| #[trigger] self@.contains_key(k) implies cloned::<V>(self@[k], copy@[k]) by {
                let keys = entry_keys(self.entries@);
                let j = choose|j: int| 0 <= j < keys.len() && keys[j] == k;
                lemma_entry(self.entries@, j);
                lemma_entry(copied, j);
                assert(copied[j].0@ == k);
            }
        }
        copy
    }
}

/// The text that each key stands for, in a map to text.
pub open spec fn texts(map: Map<Seq<char>, String>) -> Map<Seq<char>, Seq<char>> {
    map.map_values(|v: String| v@)
}

impl StringMap<String> {
    /// Whether the other map gives every key of this one the same text.
    fn within(&self, other: &StringMap<String>) -> (yes: bool)
        ensures
            yes == (forall|k: Seq<char>| #[trigger]
                self@.contains_key(k) ==> other@.contains_key(k) && self@[k]@ == other@[k]@),
    {
        proof {
            use_type_invariant(self);
        }
        let mut i: usize = 0;
        while i < self.entries.len()
            invariant
                i <= self.entries@.len(),
                entry_keys(self.entries@).no_duplicates(),
                forall|j: int|
                    0 <= j < i ==> other@.contains_key((#[trigger] self.entries@[j]).0@) && self.entries@[j].1@
                        == other@[self.entries@[j].0@]@,
            decreases self.entries.len() - i,
        {
            proof {
                lemma_entry(self.entries@, i as int);
                assert(self@.contains_key(self.entries@[i as int].0@));
            }
            match other.get(&self.entries[i].0) {
                Some(value) => {
                    if !(*value == self.entries[i].1) {
                        return false;
                    }
                },
                None => {
                    return false;
                },
            }
            i = i + 1;
        }
        proof {
            let keys = entry_keys(self.entries@);
            assert forall|k: Seq<char>| #[trigger]
                self@.contains_key(k) implies other@.contains_key(k) && self@[k]@ == other@[k]@ by {
                let j = choose|j: int| 0 <= j < keys.len() && keys[j] == k;
                lemma_entry(self.entries@, j);
                assert(self.entries@[j].0@ == k);
            }
        }
        true
    }

    /// Whether two maps hold the same keys with the same text.
    pub fn same_as(&self, other: &StringMap<String>) -> (same: bool)
        ensures
            same == (texts(self@) == texts(other@)),
    {
        let same = self.within(other) && other.within(self);
        proof {
            if same {
                assert(texts(self@) =~= texts(other@));
            }
            if texts(self@) == texts(other@) {
                assert forall|k: Seq<char>| #[trigger]
                    self@.contains_key(k) implies other@.contains_key(k) && self@[k]@ == other@[k]@ by {
                    assert(texts(self@).contains_key(k));
                    assert(texts(other@).contains_key(k));
                    assert(texts(self@)[k] == texts(other@)[k]);
                }
                assert forall|k: Seq<char>| #[trigger]
                    other@.contains_key(k) implies self@.contains_key(k) && other@[k]@ == self@[k]@ by {
                    assert(texts(other@).contains_key(k));
                    assert(texts(self@).contains_key(k));
                    assert(texts(self@)[k] == texts(other@)[k]);
                }
            }
        }
        same
    }
}

/// Maps of the same text have the same keys, and the same text for each of them.
pub proof fn equal_texts_are_equal_values(a: Map<Seq<char>, String>, b: Map<Seq<char>, String>, key: Seq<char>)
    requires
        texts(a) == texts(b),
    ensures
        a.contains_key(key) == b.contains_key(key),
        a.contains_key(key) ==> a[key]@ == b[key]@,
{
    assert(texts(a).contains_key(key) == a.contains_key(key));
    assert(texts(b).contains_key(key) == b.contains_key(key));
    if a.contains_key(key) {
        assert(texts(a)[key] == a[key]@ && texts(b)[key] == b[key]@);
    }
}

/// Maps of different text differ in a key or in its text.
pub proof fn different_texts_differ_somewhere(a: Map<Seq<char>, String>, b: Map<Seq<char>, String>) -> (key: Seq<char>)
    requires
        texts(a) != texts(b),
    ensures
        a.contains_key(key) != b.contains_key(key) || (a.contains_key(key) && a[key]@ != b[key]@),
{
    if forall|key: Seq<char>|
        #![trigger a.contains_key(key)]
        #![trigger b.contains_key(key)]
        a.contains_key(key) == b.contains_key(key) && (a.contains_key(key) ==> a[key]@ == b[key]@) {
        assert(texts(a) =~= texts(b));
    }
    choose|key: Seq<char>|
        #![trigger a.contains_key(key)]
        #![trigger b.contains_key(key)]
        a.contains_key(key) != b.contains_key(key) || (a.contains_key(key) && a[key]@ != b[key]@)
}

} // verus!
