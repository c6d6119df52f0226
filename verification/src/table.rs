//! A hash table from 64-bit keys to values that can be borrowed in place and
//! walked in a fixed order.
//!
//! `ahash::AHashMap` finds the slot of a key; the values stand in a vector, slot
//! by slot.
use ahash::AHashMap;
use vstd::prelude::*;

verus! {

#[verifier::external_type_specification]
#[verifier::external_body]
pub struct ExRandomState(ahash::RandomState);

#[verifier::external_type_specification]
#[verifier::external_body]
#[verifier::reject_recursive_types(K)]
#[verifier::reject_recursive_types(V)]
#[verifier::reject_recursive_types(S)]
pub struct ExAHashMap<K, V, S>(AHashMap<K, V, S>);

/// What a hash map from 64-bit keys to slots holds.
pub uninterp spec fn slots(m: AHashMap<u64, usize>) -> Map<u64, usize>;

/// `AHashMap::new`: a map that holds nothing.
#[verifier::external_body]
fn slots_new() -> (m: AHashMap<u64, usize>)
    ensures
        slots(m).dom() == Set::<u64>::empty(),
{
    AHashMap::new()
}

/// `AHashMap::with_capacity`: a map that holds nothing. Room is made for
/// `capacity` keys, of which nothing is said.
#[verifier::external_body]
fn slots_with_capacity(capacity: usize) -> (m: AHashMap<u64, usize>)
    requires
        capacity <= 0x1_0000,
    ensures
        slots(m).dom() == Set::<u64>::empty(),
{
    AHashMap::with_capacity(capacity)
}

/// `AHashMap::get`: the slot that the map holds under `key`, if any.
#[verifier::external_body]
fn slots_get(m: &AHashMap<u64, usize>, key: u64) -> (slot: Option<usize>)
    ensures
        slot == (if slots(*m).contains_key(key) {
            Some(slots(*m)[key])
        } else {
            None
        }),
{
    m.get(&key).copied()
}

/// `AHashMap::insert`: afterwards the map holds `slot` under `key`, and under
/// every other key what it held before.
#[verifier::external_body]
fn slots_insert(m: &mut AHashMap<u64, usize>, key: u64, slot: usize)
    ensures
        slots(*final(m)) == slots(*old(m)).insert(key, slot),
{
    m.insert(key, slot);
}

/// `AHashMap::remove`: afterwards the map holds nothing under `key`, and under
/// every other key what it held before.
#[verifier::external_body]
fn slots_remove(m: &mut AHashMap<u64, usize>, key: u64)
    ensures
        slots(*final(m)) == slots(*old(m)).remove(key),
{
    m.remove(&key);
}

/// A table from 64-bit keys to values. Its view is the map it stands for.
#[derive(Debug)]
pub struct Table<V> {
    index: AHashMap<u64, usize>,
    keys: Vec<u64>,
    values: Vec<V>,
}

impl<V> View for Table<V> {
    type V = Map<u64, V>;

    closed spec fn view(&self) -> Map<u64, V> {
        slots(self.index).map_values(|slot: usize| self.values@[slot as int])
    }
}

impl<V> Table<V> {
    /// The slot index and the slots describe each other.
    pub closed spec fn wf(self) -> bool {
        &&& self.keys@.len() == self.values@.len()
        &&& forall|i: int|
            0 <= i < self.keys@.len() ==> {
                &&& slots(self.index).contains_key(#[trigger] self.keys@[i])
                &&& slots(self.index)[self.keys@[i]] == i
            }
        &&& forall|key: u64| #[trigger]
            slots(self.index).contains_key(key) ==> {
                &&& slots(self.index)[key] < self.keys@.len()
                &&& self.keys@[slots(self.index)[key] as int] == key
            }
    }

    /// The keys in the order in which the table is walked.
    pub closed spec fn key_list(self) -> Seq<u64> {
        self.keys@
    }

    /// The walk meets every key exactly once.
    pub proof fn lemma_key_list(self)
        requires
            self.wf(),
        ensures
            self.key_list().no_duplicates(),
            self.key_list().to_set() == self@.dom(),
            self@.dom().finite(),
            self@.len() == self.key_list().len(),
            forall|key: u64|
                #![trigger self@.contains_key(key)]
                #![trigger self.key_list().contains(key)]
                self@.contains_key(key) <==> self.key_list().contains(key),
            forall|i: int|
                0 <= i < self.key_list().len() ==> self@.contains_key(
                    #[trigger] self.key_list()[i],
                ),
    {
        let list = self.key_list();
        assert forall|key: u64| self@.contains_key(key) <==> list.contains(key) by {
            if self@.contains_key(key) {
                assert(list[slots(self.index)[key] as int] == key);
            }
            if list.contains(key) {
                let i = choose|i: int| 0 <= i < list.len() && list[i] == key;
                assert(slots(self.index).contains_key(list[i]));
            }
        }
        assert forall|i: int, j: int| 0 <= i < j < list.len() implies list[i] != list[j] by {
            assert(slots(self.index)[list[i]] == i);
            assert(slots(self.index)[list[j]] == j);
        }
        assert(list.to_set() =~= self@.dom());
        list.unique_seq_to_set();
    }

    /// An empty table.
    pub fn new() -> (t: Self)
        ensures
            t.wf(),
            t@ == Map::<u64, V>::empty(),
            t.key_list() == Seq::<u64>::empty(),
    {
        let t = Table { index: slots_new(), keys: Vec::new(), values: Vec::new() };
        assert(t@ =~= Map::<u64, V>::empty());
        t
    }

    /// An empty table with room for `capacity` keys.
    pub fn with_capacity(capacity: usize) -> (t: Self)
        requires
            capacity <= 0x1_0000,
        ensures
            t.wf(),
            t@ == Map::<u64, V>::empty(),
            t.key_list() == Seq::<u64>::empty(),
    {
        let t = Table {
            index: slots_with_capacity(capacity),
            keys: Vec::new(),
            values: Vec::new(),
        };
        assert(t@ =~= Map::<u64, V>::empty());
        t
    }

    pub fn len(&self) -> (n: usize)
        requires
            self.wf(),
        ensures
            n == self.key_list().len(),
            n == self@.len(),
    {
        proof {
            self.lemma_key_list();
        }
        self.keys.len()
    }

    pub fn contains(&self, key: u64) -> (b: bool)
        requires
            self.wf(),
        ensures
            b == self@.contains_key(key),
    {
        slots_get(&self.index, key).is_some()
    }

    pub fn get(&self, key: u64) -> (r: Option<&V>)
        requires
            self.wf(),
        ensures
            match r {
                Some(v) => self@.contains_key(key) && *v == self@[key],
                None => !self@.contains_key(key),
            },
    {
        match slots_get(&self.index, key) {
            Some(slot) => Some(&self.values[slot]),
            None => None,
        }
    }

    /// The value under `key`, to be changed in place.
    pub fn get_mut(&mut self, key: u64) -> (r: &mut V)
        requires
            old(self).wf(),
            old(self)@.contains_key(key),
        ensures
            *r == old(self)@[key],
            final(self).wf(),
            final(self)@ == old(self)@.insert(key, *final(r)),
            final(self).key_list() == old(self).key_list(),
    {
        let slot: usize = slots_get(&self.index, key).unwrap();
        proof {
            let before = *self;
            assert forall|v: V|
                #![trigger before.values@.update(slot as int, v)]
                slots(before.index).map_values(
                    |s: usize| before.values@.update(slot as int, v)[s as int],
                ) =~= before@.insert(key, v) by {}
        }
        &mut self.values[slot]
    }

    /// The key in slot `i` and the value under it.
    pub fn entry(&self, i: usize) -> (r: (u64, &V))
        requires
            self.wf(),
            i < self.key_list().len(),
        ensures
            r.0 == self.key_list()[i as int],
            self@.contains_key(r.0),
            *r.1 == self@[r.0],
    {
        let key: u64 = self.keys[i];
        (key, &self.values[i])
    }

    /// The key in slot `i` and the value under it, to be changed in place.
    pub fn entry_mut(&mut self, i: usize) -> (r: (u64, &mut V))
        requires
            old(self).wf(),
            i < old(self).key_list().len(),
        ensures
            r.0 == old(self).key_list()[i as int],
            old(self)@.contains_key(r.0),
            *r.1 == old(self)@[r.0],
            final(self).wf(),
            final(self)@ == old(self)@.insert(r.0, *final(r.1)),
            final(self).key_list() == old(self).key_list(),
    {
        let key: u64 = self.keys[i];
        (key, self.get_mut(key))
    }

    /// Puts `value` under `key`, in place of what stood there.
    pub fn insert(&mut self, key: u64, value: V)
        requires
            old(self).wf(),
        ensures
            final(self).wf(),
            final(self)@ == old(self)@.insert(key, value),
            final(self).key_list() == (if old(self)@.contains_key(key) {
                old(self).key_list()
            } else {
                old(self).key_list().push(key)
            }),
    {
        match slots_get(&self.index, key) {
            Some(slot) => {
                self.values.set(slot, value);
                assert(self@ =~= old(self)@.insert(key, value));
            },
            None => {
                let slot: usize = self.keys.len();
                slots_insert(&mut self.index, key, slot);
                self.keys.push(key);
                self.values.push(value);
                assert(self@ =~= old(self)@.insert(key, value));
            },
        }
    }

    /// Takes the value under `key` out of the table. The last slot takes the place
    /// of the one that fell free.
    pub fn remove(&mut self, key: u64) -> (r: Option<V>)
        requires
            old(self).wf(),
        ensures
            final(self).wf(),
            final(self)@ == old(self)@.remove(key),
            match r {
                Some(v) => old(self)@.contains_key(key) && v == old(self)@[key],
                None => !old(self)@.contains_key(key),
            },
    {
        match slots_get(&self.index, key) {
            Some(slot) => {
                let last: usize = self.keys.len() - 1;
                let moved: u64 = self.keys[last];
                self.keys.swap_remove(slot);
                let value = self.values.swap_remove(slot);
                slots_insert(&mut self.index, moved, slot);
                slots_remove(&mut self.index, key);
                assert(self@ =~= old(self)@.remove(key));
                Some(value)
            },
            None => {
                assert(self@ =~= old(self)@.remove(key));
                None
            },
        }
    }
}

impl<V: Copy> Table<V> {
    /// A table of its own with the same contents.
    pub(crate) fn duplicate(&self) -> (t: Self)
        ensures
            t.wf(),
            self.wf() ==> t@ == self@,
    {
        let mut t: Table<V> = Table::new();
        let mut i: usize = 0;
        while i < self.keys.len() && i < self.values.len()
            invariant
                t.wf(),
                i <= self.keys@.len(),
                i <= self.values@.len(),
                self.wf() ==> forall|key: u64| #[trigger]
                    t@.contains_key(key) <==> slots(self.index).contains_key(key) && slots(
                        self.index,
                    )[key] < i,
                self.wf() ==> forall|key: u64| #[trigger]
                    t@.contains_key(key) ==> t@[key] == self@[key],
            decreases self.keys@.len() - i,
        {
            t.insert(self.keys[i], self.values[i]);
            i = i + 1;
        }
        proof {
            if self.wf() {
                assert(t@ =~= self@);
            }
        }
        t
    }
}

} // verus!
