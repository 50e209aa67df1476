//! An index from connection addresses to values, such as the identifier of
//! a room or the handle of a connection.
//!
//! The entries for IPv4 addresses, which are all that a broker on an IPv4
//! socket ever sees, are kept in a hash map under a key made of the address
//! and the port. The entries for other addresses are kept in a list.

use crate::address::Address;
use crate::address_map::{without_value, AddressMap};
use crate::seq_facts::{lemma_collect_step, lemma_take_step_contains};
use std::collections::HashMap;
use vstd::prelude::*;

verus! {

broadcast use vstd::std_specs::hash::group_hash_axioms;

/// The key under which the entry of the IPv4 address `ip` with the port
/// `port` is kept. No two addresses have the same key.
pub open spec fn spec_v4_key(ip: u32, port: u16) -> u64 {
    (ip * 0x1_0000 + port) as u64
}

/// The key under which the entry of the IPv4 address `ip` with the port
/// `port` is kept.
#[verifier::when_used_as_spec(spec_v4_key)]
pub fn v4_key(ip: u32, port: u16) -> (key: u64)
    ensures
        key == spec_v4_key(ip, port),
{
    (ip as u64) * 0x1_0000 + (port as u64)
}

/// The map that the two parts of an index stand for together.
pub open spec fn index_map<V>(v4: Map<u64, V>, other: Map<Address, V>) -> Map<Address, V> {
    Map::new(
        |addr: Address|
            match addr {
                Address::V4 { ip, port } => v4.contains_key(spec_v4_key(ip, port)),
                _ => other.contains_key(addr),
            },
        |addr: Address|
            match addr {
                Address::V4 { ip, port } => v4[spec_v4_key(ip, port)],
                _ => other[addr],
            },
    )
}

/// The test that a key passes if the value `value` is recorded under it.
pub open spec fn has_value(v4: Map<u64, u32>, value: u32) -> spec_fn(u64) -> bool {
    |key: u64| v4[key] == value
}

/// An index from connection addresses to values of type `V`.
pub struct AddressIndex<V> {
    v4: HashMap<u64, V>,
    other: AddressMap<V>,
}

impl<V> View for AddressIndex<V> {
    type V = Map<Address, V>;

    closed spec fn view(&self) -> Map<Address, V> {
        index_map(self.v4@, self.other@)
    }
}

impl<V: Copy> AddressIndex<V> {
    /// The invariant of the representation.
    pub closed spec fn wf(&self) -> bool {
        self.other.wf()
    }

    /// An empty index.
    pub fn new() -> (index: AddressIndex<V>)
        ensures
            index.wf(),
            index@ == Map::<Address, V>::empty(),
    {
        let index = AddressIndex { v4: HashMap::new(), other: AddressMap::new() };
        assert(index@ =~= Map::<Address, V>::empty());
        index
    }

    /// The value recorded for `addr`, if there is one.
    pub fn get(&self, addr: Address) -> (r: Option<V>)
        requires
            self.wf(),
        ensures
            match r {
                Some(id) => self@.contains_key(addr) && self@[addr] == id,
                None => !self@.contains_key(addr),
            },
    {
        match addr {
            Address::V4 { ip, port } => {
                match self.v4.get(&v4_key(ip, port)) {
                    Some(id) => Some(*id),
                    None => None,
                }
            },
            _ => {
                match self.other.get(addr) {
                    Some(id) => Some(*id),
                    None => None,
                }
            },
        }
    }

    /// Records the value `id` for `addr`, and returns the value that was
    /// recorded for it before.
    pub fn insert(&mut self, addr: Address, id: V) -> (r: Option<V>)
        requires
            old(self).wf(),
        ensures
            final(self).wf(),
            final(self)@ == old(self)@.insert(addr, id),
            match r {
                Some(before) => old(self)@.contains_key(addr) && old(self)@[addr] == before,
                None => !old(self)@.contains_key(addr),
            },
    {
        let r = match addr {
            Address::V4 { ip, port } => self.v4.insert(v4_key(ip, port), id),
            _ => self.other.insert(addr, id),
        };
        assert(self@ =~= old(self)@.insert(addr, id));
        r
    }

    /// Removes what is recorded for `addr`, and returns the value that was
    /// recorded for it.
    pub fn remove(&mut self, addr: Address) -> (r: Option<V>)
        requires
            old(self).wf(),
        ensures
            final(self).wf(),
            final(self)@ == old(self)@.remove(addr),
            match r {
                Some(before) => old(self)@.contains_key(addr) && old(self)@[addr] == before,
                None => !old(self)@.contains_key(addr),
            },
    {
        let r = match addr {
            Address::V4 { ip, port } => self.v4.remove(&v4_key(ip, port)),
            _ => self.other.remove(addr),
        };
        assert(self@ =~= old(self)@.remove(addr));
        r
    }

}

impl AddressIndex<u32> {
    /// Removes every entry for the room `id`.
    pub fn remove_value(&mut self, id: u32)
        requires
            old(self).wf(),
        ensures
            final(self).wf(),
            final(self)@ == without_value(old(self)@, id),
    {
        self.other.remove_value(id);
        let ghost before = self.v4@;
        let ghost wanted = has_value(before, id);
        let mut doomed: Vec<u64> = Vec::new();
        for key in it: self.v4.keys()
            invariant
                self.v4@ == before,
                wanted == has_value(before, id),
                it.seq().unref().to_set() == before.dom(),
                doomed@ == it.seq().unref().take(it.index()).filter(wanted),
                it.index() == it.seq().len() ==> forall|k: u64| #[trigger]
                    doomed@.contains(k) <==> before.contains_key(k) && wanted(k),
        {
            proof {
                lemma_collect_step(it.seq().unref(), it.index(), wanted, before.dom());
            }
            let listed = match self.v4.get(key) {
                Some(value) => *value == id,
                None => false,
            };
            if listed {
                doomed.push(*key);
            }
        }
        let mut i: usize = 0;
        while i < doomed.len()
            invariant
                i <= doomed@.len(),
                self.other.wf(),
                self.other@ == without_value(old(self).other@, id),
                forall|k: u64| #[trigger]
                    doomed@.contains(k) <==> before.contains_key(k) && before[k] == id,
                forall|k: u64| #[trigger]
                    self.v4@.contains_key(k) <==> before.contains_key(k) && !doomed@.take(
                        i as int,
                    ).contains(k),
                forall|k: u64| #[trigger] self.v4@.contains_key(k) ==> self.v4@[k] == before[k],
            decreases doomed@.len() - i,
        {
            proof {
                lemma_take_step_contains(doomed@, i as int);
            }
            self.v4.remove(&doomed[i]);
            i += 1;
        }
        assert(doomed@.take(i as int) =~= doomed@);
        assert(self@ =~= without_value(old(self)@, id));
    }
}

} // verus!
