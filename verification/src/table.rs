//! A table of values by integer key: an `ahash` map from keys to slots, and the
//! values in their slots.

use ahash::AHashMap;
use vstd::prelude::*;

verus! {

/// The hasher state of an `ahash` map.
#[verifier::external_type_specification]
#[verifier::external_body]
pub struct ExRandomState(ahash::RandomState);

/// A hash map with the `ahash` hasher.
#[verifier::external_type_specification]
#[verifier::external_body]
#[verifier::reject_recursive_types(K)]
#[verifier::reject_recursive_types(V)]
#[verifier::reject_recursive_types(S)]
pub struct ExAHashMap<K, V, S>(AHashMap<K, V, S>);

/// What an `ahash` map from keys to slots holds.
pub uninterp spec fn slots_of(m: AHashMap<u128, u64>) -> Map<u128, u64>;

/// `AHashMap::new` makes a map that holds nothing.
#[verifier::external_body]
fn empty_slots() -> (m: AHashMap<u128, u64>)
    ensures
        slots_of(m).dom() == Set::<u128>::empty(),
{
    AHashMap::new()
}

/// `AHashMap::get` finds the slot of a key if and only if the map holds one.
#[verifier::external_body]
fn slot_of(m: &AHashMap<u128, u64>, key: u128) -> (slot: Option<u64>)
    ensures
        slot == slots_of(*m).get(key),
{
    m.get(&key).copied()
}

/// `AHashMap::insert` sets the slot of a key and leaves the others as they are.
#[verifier::external_body]
fn set_slot(m: &mut AHashMap<u128, u64>, key: u128, slot: u64)
    ensures
        slots_of(*final(m)) == slots_of(*old(m)).insert(key, slot),
{
    m.insert(key, slot);
}

/// Some key has the value `v`.
pub open spec fn holds<V>(m: Map<u128, V>, v: V) -> bool {
    exists|k: u128| #[trigger] m.contains_key(k) && m[k] == v
}

/// Values by key. A value that is put twice is replaced.
pub struct Table<V> {
    index: AHashMap<u128, u64>,
    items: Vec<V>,
    keys: Ghost<Seq<u128>>,
}

impl<V> View for Table<V> {
    type V = Map<u128, V>;

    closed spec fn view(&self) -> Map<u128, V> {
        Map::new(
            |k: u128| slots_of(self.index).contains_key(k),
            |k: u128| self.items@[slots_of(self.index)[k] as int],
        )
    }
}

impl<V> Table<V> {
    /// Keys and slots match one to one.
    pub closed spec fn wf(self) -> bool {
        let slots = slots_of(self.index);
        let keys = self.keys@;
        &&& keys.len() == self.items@.len()
        &&& forall|i: int|
            0 <= i < keys.len() ==> slots.contains_key(#[trigger] keys[i]) && slots[keys[i]] == i
        &&& forall|k: u128| #[trigger]
            slots.contains_key(k) ==> slots[k] < keys.len() && keys[slots[k] as int] == k
    }

    pub fn new() -> (t: Self)
        ensures
            t.wf(),
            t@ == Map::<u128, V>::empty(),
    {
        let t = Table { index: empty_slots(), items: Vec::new(), keys: Ghost(Seq::empty()) };
        assert(t@ =~= Map::<u128, V>::empty());
        t
    }

    /// The value under a key.
    pub fn get(&self, key: u128) -> (v: Option<&V>)
        requires
            self.wf(),
        ensures
            match v {
                Some(v) => self@.contains_key(key) && *v == self@[key],
                None => !self@.contains_key(key),
            },
    {
        match slot_of(&self.index, key) {
            Some(slot) => {
                proof {
                    assert(slots_of(self.index).contains_key(key));
                    assert(self@.contains_key(key));
                    assert(slot < self.items.len());
                }
                Some(&self.items[slot as usize])
            },
            None => {
                assert(!self@.contains_key(key));
                None
            },
        }
    }

    /// Sets the value under a key.
    pub fn put(&mut self, key: u128, value: V)
        requires
            old(self).wf(),
        ensures
            final(self).wf(),
            final(self)@ == old(self)@.insert(key, value),
    {
        match slot_of(&self.index, key) {
            Some(slot) => {
                proof {
                    assert(slots_of(self.index).contains_key(key));
                }
                self.items.set(slot as usize, value);
            },
            None => {
                let slot: u64 = self.items.len() as u64;
                set_slot(&mut self.index, key, slot);
                self.items.push(value);
                self.keys = Ghost(self.keys@.push(key));
                proof {
                    let keys = old(self).keys@;
                    assert forall|i: int| 0 <= i < keys.len() implies #[trigger] keys[i] != key by {
                        assert(slots_of(old(self).index).contains_key(keys[i]));
                    }
                }
            },
        }
        assert(self@ =~= old(self)@.insert(key, value));
    }

    /// The values, in the order in which their keys first came.
    pub fn values(&self) -> (vs: &Vec<V>)
        requires
            self.wf(),
        ensures
            forall|i: int| 0 <= i < vs.len() ==> holds(self@, #[trigger] vs@[i]),
            forall|k: u128| #[trigger] self@.contains_key(k) ==> vs@.contains(self@[k]),
    {
        proof {
            let slots = slots_of(self.index);
            assert forall|i: int| 0 <= i < self.items@.len() implies holds(
                self@,
                #[trigger] self.items@[i],
            ) by {
                let k = self.keys@[i];
                assert(self@.contains_key(k));
                assert(self@[k] == self.items@[i]);
            }
            assert forall|k: u128| #[trigger] self@.contains_key(k) implies self.items@.contains(
                self@[k],
            ) by {
                assert(slots.contains_key(k));
                assert(self.items@[slots[k] as int] == self@[k]);
            }
        }
        &self.items
    }
}

} // verus!
