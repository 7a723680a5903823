//! A small map keyed by text, kept as a vector of distinct keys in insertion
//! order.
use vstd::prelude::*;

verus! {

/// Text-keyed entries, each key at most once.
#[derive(Clone, Debug, PartialEq, Eq)]
pub struct TextMap<V> {
    entries: Vec<(String, V)>,
}

/// The map described by a sequence of entries; later entries win.
pub open spec fn map_of<V>(entries: Seq<(String, V)>) -> Map<Seq<char>, V>
    decreases entries.len(),
{
    if entries.len() == 0 {
        Map::empty()
    } else {
        map_of(entries.drop_last()).insert(entries.last().0@, entries.last().1)
    }
}

pub open spec fn keys_distinct<V>(entries: Seq<(String, V)>) -> bool {
    forall|i: int, j: int| 0 <= i < j < entries.len() ==> (#[trigger] entries[i]).0@ != (#[trigger] entries[j]).0@
}

pub proof fn lemma_map_of_lookup<V>(entries: Seq<(String, V)>, i: int)
    requires
        keys_distinct(entries),
        0 <= i < entries.len(),
    ensures
        map_of(entries).contains_key(entries[i].0@),
        map_of(entries)[entries[i].0@] == entries[i].1,
    decreases entries.len(),
{
    if i < entries.len() - 1 {
        lemma_map_of_lookup(entries.drop_last(), i);
    }
}

pub proof fn lemma_map_of_absent<V>(entries: Seq<(String, V)>, key: Seq<char>)
    requires
        forall|i: int| 0 <= i < entries.len() ==> (#[trigger] entries[i]).0@ != key,
    ensures
        !map_of(entries).contains_key(key),
    decreases entries.len(),
{
    if entries.len() > 0 {
        lemma_map_of_absent(entries.drop_last(), key);
    }
}

pub proof fn lemma_map_of_domain<V>(entries: Seq<(String, V)>, key: Seq<char>)
    requires
        map_of(entries).contains_key(key),
    ensures
        exists|i: int| 0 <= i < entries.len() && (#[trigger] entries[i]).0@ == key,
{
    if forall|i: int| 0 <= i < entries.len() ==> (#[trigger] entries[i]).0@ != key {
        lemma_map_of_absent(entries, key);
    }
}

pub proof fn lemma_map_of_len<V>(entries: Seq<(String, V)>)
    requires
        keys_distinct(entries),
    ensures
        map_of(entries).dom().finite(),
        map_of(entries).dom().len() == entries.len(),
    decreases entries.len(),
{
    if entries.len() > 0 {
        let prefix = entries.drop_last();
        lemma_map_of_len(prefix);
        lemma_map_of_absent(prefix, entries.last().0@);
    }
}

/// Replacing the value at one position updates the map at that key.
pub proof fn lemma_map_of_update<V>(entries: Seq<(String, V)>, i: int, value: V)
    requires
        keys_distinct(entries),
        0 <= i < entries.len(),
    ensures
        keys_distinct(entries.update(i, (entries[i].0, value))),
        map_of(entries.update(i, (entries[i].0, value))) == map_of(entries).insert(entries[i].0@, value),
    decreases entries.len(),
{
    let updated = entries.update(i, (entries[i].0, value));
    assert(keys_distinct(updated)) by {
        assert forall|a: int, b: int| 0 <= a < b < updated.len() implies (#[trigger] updated[a]).0@ != (
        #[trigger] updated[b]).0@ by {
            assert(updated[a].0 == entries[a].0);
            assert(updated[b].0 == entries[b].0);
        }
    }
    if i == entries.len() - 1 {
        assert(updated.drop_last() =~= entries.drop_last());
        lemma_map_of_absent(entries.drop_last(), entries[i].0@);
        assert(map_of(updated) =~= map_of(entries).insert(entries[i].0@, value));
    } else {
        assert(updated.drop_last() =~= entries.drop_last().update(i, (entries[i].0, value)));
        lemma_map_of_update(entries.drop_last(), i, value);
        assert(map_of(updated) =~= map_of(entries).insert(entries[i].0@, value));
    }
}

impl<V> TextMap<V> {
    pub closed spec fn wf(&self) -> bool {
        keys_distinct(self.entries@)
    }

    /// The key-to-value map.
    pub closed spec fn view_map(&self) -> Map<Seq<char>, V> {
        map_of(self.entries@)
    }

    /// The entries in insertion order.
    pub closed spec fn pairs(&self) -> Seq<(String, V)> {
        self.entries@
    }

    pub proof fn lemma_view(&self)
        requires
            self.wf(),
        ensures
            self.view_map() == map_of(self.pairs()),
            keys_distinct(self.pairs()),
            self.view_map().dom().finite(),
            self.view_map().dom().len() == self.pairs().len(),
    {
        lemma_map_of_len(self.entries@);
    }

    pub fn new() -> (r: Self)
        ensures
            r.wf(),
            r.view_map() == Map::<Seq<char>, V>::empty(),
            r.pairs().len() == 0,
    {
        TextMap { entries: Vec::new() }
    }

    /// The number of keys.
    pub fn len(&self) -> (r: usize)
        ensures
            r == self.pairs().len(),
    {
        self.entries.len()
    }

    /// The position of a key, if present.
    pub fn find(&self, key: &String) -> (r: Option<usize>)
        requires
            self.wf(),
        ensures
            match r {
                Some(i) => i < self.pairs().len() && self.pairs()[i as int].0@ == key@ && self.view_map().contains_key(
                    key@,
                ) && self.view_map()[key@] == self.pairs()[i as int].1,
                None => !self.view_map().contains_key(key@),
            },
    {
        let mut i: usize = 0;
        while i < self.entries.len()
            invariant
                self.wf(),
                i <= self.entries@.len(),
                forall|j: int| 0 <= j < i ==> (#[trigger] self.entries@[j]).0@ != key@,
            decreases self.entries@.len() - i,
        {
            if self.entries[i].0 == *key {
                proof {
                    lemma_map_of_lookup(self.entries@, i as int);
                }
                return Some(i);
            }
            i = i + 1;
        }
        proof {
            lemma_map_of_absent(self.entries@, key@);
        }
        None
    }

    /// The value recorded for a key, if any.
    pub fn get(&self, key: &String) -> (r: Option<&V>)
        requires
            self.wf(),
        ensures
            match r {
                Some(v) => self.view_map().contains_key(key@) && self.view_map()[key@] == *v,
                None => !self.view_map().contains_key(key@),
            },
    {
        match self.find(key) {
            Some(i) => Some(&self.entries[i].1),
            None => None,
        }
    }

    /// The key at a position.
    pub fn key_at(&self, i: usize) -> (r: &String)
        requires
            i < self.pairs().len(),
        ensures
            *r == self.pairs()[i as int].0,
    {
        &self.entries[i].0
    }

    /// The value at a position.
    pub fn value_at(&self, i: usize) -> (r: &V)
        requires
            i < self.pairs().len(),
        ensures
            *r == self.pairs()[i as int].1,
    {
        &self.entries[i].1
    }

    /// Replaces the value at a position, keeping its key.
    pub fn set_value_at(&mut self, i: usize, value: V)
        requires
            old(self).wf(),
            i < old(self).pairs().len(),
        ensures
            final(self).wf(),
            final(self).pairs() == old(self).pairs().update(i as int, (old(self).pairs()[i as int].0, value)),
            final(self).view_map() == old(self).view_map().insert(old(self).pairs()[i as int].0@, value),
    {
        proof {
            lemma_map_of_update(self.entries@, i as int, value);
        }
        let (key, _) = self.entries.remove(i);
        self.entries.insert(i, (key, value));
        proof {
            assert(self.entries@ =~= old(self).entries@.update(i as int, (old(self).entries@[i as int].0, value)));
        }
    }

    /// Replaces the value at a position, returning the value it held.
    pub fn replace_value_at(&mut self, i: usize, value: V) -> (old_value: V)
        requires
            old(self).wf(),
            i < old(self).pairs().len(),
        ensures
            final(self).wf(),
            old_value == old(self).pairs()[i as int].1,
            final(self).pairs() == old(self).pairs().update(i as int, (old(self).pairs()[i as int].0, value)),
            final(self).view_map() == old(self).view_map().insert(old(self).pairs()[i as int].0@, value),
    {
        proof {
            lemma_map_of_update(self.entries@, i as int, value);
        }
        let (key, previous) = self.entries.remove(i);
        self.entries.insert(i, (key, value));
        proof {
            assert(self.entries@ =~= old(self).entries@.update(i as int, (old(self).entries@[i as int].0, value)));
        }
        previous
    }

    /// Records a key that is not yet present.
    pub fn insert_new(&mut self, key: String, value: V)
        requires
            old(self).wf(),
            !old(self).view_map().contains_key(key@),
        ensures
            final(self).wf(),
            final(self).view_map() == old(self).view_map().insert(key@, value),
            final(self).pairs() == old(self).pairs().push((key, value)),
    {
        proof {
            assert forall|i: int| 0 <= i < self.entries@.len() implies (#[trigger] self.entries@[i]).0@ != key@ by {
                lemma_map_of_lookup(self.entries@, i);
            }
        }
        self.entries.push((key, value));
        proof {
            assert(self.entries@.drop_last() =~= old(self).entries@);
        }
    }

    /// Records a value for a key, replacing any earlier value.
    pub fn upsert(&mut self, key: String, value: V)
        requires
            old(self).wf(),
        ensures
            final(self).wf(),
            final(self).view_map() == old(self).view_map().insert(key@, value),
    {
        match self.find(&key) {
            Some(i) => {
                self.set_value_at(i, value);
            },
            None => {
                self.insert_new(key, value);
            },
        }
    }
}

} // verus!
