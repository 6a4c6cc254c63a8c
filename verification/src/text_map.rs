//! A map with text keys.
use vstd::prelude::*;

verus! {

/// The map that `entries` make when they are written one after the other: of
/// two entries under one key the later one counts.
pub open spec fn map_of<V>(entries: Seq<(Seq<char>, V)>) -> Map<Seq<char>, V>
    decreases entries.len(),
{
    if entries.len() == 0 {
        Map::empty()
    } else {
        map_of(entries.drop_last()).insert(entries.last().0, entries.last().1)
    }
}

/// The keys of `entries` all differ.
pub open spec fn distinct_keys<V>(entries: Seq<(Seq<char>, V)>) -> bool {
    forall|i: int, j: int|
        0 <= i < j < entries.len() ==> #[trigger] entries[i].0 != #[trigger] entries[j].0
}

/// `entries` with each key taken as the text it holds.
pub open spec fn keyed<V>(entries: Seq<(String, V)>) -> Seq<(Seq<char>, V)> {
    Seq::new(entries.len(), |i: int| (entries[i].0@, entries[i].1))
}

/// A map from texts to values.
#[derive(Debug)]
pub struct TextMap<V> {
    entries: Vec<(String, V)>,
}

impl<V> View for TextMap<V> {
    type V = Map<Seq<char>, V>;

    closed spec fn view(&self) -> Map<Seq<char>, V> {
        map_of(keyed(self.entries@))
    }
}

impl<V> TextMap<V> {
    #[verifier::type_invariant]
    spec fn wf(self) -> bool {
        distinct_keys(keyed(self.entries@))
    }

    /// The map without entries.
    pub fn new() -> (r: Self)
        ensures
            r@ == Map::<Seq<char>, V>::empty(),
    {
        TextMap { entries: Vec::new() }
    }

    /// The place of `key`, or the number of entries where no entry has it.
    fn position(&self, key: &String) -> (r: usize)
        ensures
            r <= self.entries@.len(),
            r < self.entries@.len() ==> self.entries@[r as int].0@ == key@,
            r == self.entries@.len() ==> forall|j: int|
                0 <= j < self.entries@.len() ==> (#[trigger] self.entries@[j]).0@ != key@,
    {
        for i in 0..self.entries.len()
            invariant
                forall|j: int| 0 <= j < i ==> (#[trigger] self.entries@[j]).0@ != key@,
        {
            if self.entries[i].0 == *key {
                return i;
            }
        }
        self.entries.len()
    }

    /// Writes `value` under `key`, in place of what was there.
    pub fn insert(&mut self, key: String, value: V)
        ensures
            final(self)@ == old(self)@.insert(key@, value),
    {
        proof {
            use_type_invariant(&*self);
        }
        let at: usize = self.position(&key);
        let ghost before = keyed(self.entries@);
        let ghost entry = (key@, value);
        let mut entries: Vec<(String, V)> = Vec::new();
        std::mem::swap(&mut entries, &mut self.entries);
        if at < entries.len() {
            entries.set(at, (key, value));
            assert(keyed(entries@) =~= before.update(at as int, entry));
            proof {
                lemma_map_of_update(before, at as int, value);
            }
        } else {
            entries.push((key, value));
            assert(keyed(entries@) =~= before.push(entry));
            assert(before.push(entry).drop_last() =~= before);
            assert forall|i: int, j: int|
                0 <= i < j < before.push(entry).len() implies #[trigger] before.push(entry)[i].0
                != #[trigger] before.push(entry)[j].0 by {
                assert(before[i].0 != key@);
            }
        }
        self.entries = entries;
    }

    /// The value under `key`.
    pub fn get(&self, key: &str) -> (r: Option<&V>)
        ensures
            r matches Some(v) ==> self@.dom().contains(key@) && self@[key@] == *v,
            r is None ==> !self@.dom().contains(key@),
    {
        proof {
            use_type_invariant(self);
        }
        let key: String = key.to_owned();
        let at: usize = self.position(&key);
        if at < self.entries.len() {
            proof {
                lemma_map_of_last_entry(keyed(self.entries@), at as int);
            }
            Some(&self.entries[at].1)
        } else {
            proof {
                lemma_map_of_absent(keyed(self.entries@), key@);
            }
            None
        }
    }

    /// The entries, one for each key.
    pub fn entries(&self) -> (r: &Vec<(String, V)>)
        ensures
            map_of(keyed(r@)) == self@,
            distinct_keys(keyed(r@)),
    {
        proof {
            use_type_invariant(self);
        }
        &self.entries
    }

    /// The entries, handed over.
    pub fn into_entries(self) -> (r: Vec<(String, V)>)
        ensures
            map_of(keyed(r@)) == self@,
            distinct_keys(keyed(r@)),
    {
        proof {
            use_type_invariant(&self);
        }
        self.entries
    }
}

impl Clone for TextMap<String> {
    fn clone(&self) -> (r: Self)
        ensures
            r@ == self@,
    {
        proof {
            use_type_invariant(self);
        }
        let mut entries: Vec<(String, String)> = Vec::new();
        for i in 0..self.entries.len()
            invariant
                entries@ == self.entries@.take(i as int),
        {
            entries.push((self.entries[i].0.clone(), self.entries[i].1.clone()));
        }
        assert(entries@ =~= self.entries@);
        TextMap { entries }
    }
}

/// An entry whose key comes up no more after it decides what the map holds
/// under that key.
pub proof fn lemma_map_of_last_entry<V>(entries: Seq<(Seq<char>, V)>, i: int)
    requires
        0 <= i < entries.len(),
        forall|j: int| i < j < entries.len() ==> #[trigger] entries[j].0 != entries[i].0,
    ensures
        map_of(entries).dom().contains(entries[i].0),
        map_of(entries)[entries[i].0] == entries[i].1,
    decreases entries.len(),
{
    if i < entries.len() - 1 {
        assert(entries.last() == entries[entries.len() - 1]);
        lemma_map_of_last_entry(entries.drop_last(), i);
    }
}

/// A key that no entry has is not in the map.
pub proof fn lemma_map_of_absent<V>(entries: Seq<(Seq<char>, V)>, key: Seq<char>)
    requires
        forall|j: int| 0 <= j < entries.len() ==> #[trigger] entries[j].0 != key,
    ensures
        !map_of(entries).dom().contains(key),
    decreases entries.len(),
{
    if entries.len() > 0 {
        assert(entries.last() == entries[entries.len() - 1]);
        lemma_map_of_absent(entries.drop_last(), key);
    }
}

/// A map has finitely many keys.
pub proof fn lemma_map_of_finite<V>(entries: Seq<(Seq<char>, V)>)
    ensures
        map_of(entries).dom().finite(),
    decreases entries.len(),
{
    if entries.len() > 0 {
        lemma_map_of_finite(entries.drop_last());
    }
}

/// Where the keys all differ, a new value in one entry is a new value under
/// that entry's key.
proof fn lemma_map_of_update<V>(entries: Seq<(Seq<char>, V)>, i: int, value: V)
    requires
        0 <= i < entries.len(),
        distinct_keys(entries),
    ensures
        map_of(entries.update(i, (entries[i].0, value))) == map_of(entries).insert(
            entries[i].0,
            value,
        ),
    decreases entries.len(),
{
    let updated = entries.update(i, (entries[i].0, value));
    let last = entries.len() - 1;
    if i == last {
        assert(updated.drop_last() =~= entries.drop_last());
        assert(map_of(updated) =~= map_of(entries).insert(entries[i].0, value));
    } else {
        lemma_map_of_update(entries.drop_last(), i, value);
        assert(updated.drop_last() =~= entries.drop_last().update(i, (entries[i].0, value)));
        assert(entries[i].0 != entries[last].0);
        assert(map_of(updated) =~= map_of(entries).insert(entries[i].0, value));
    }
}

} // verus!
