//! A map keyed by connection address.
//!
//! The entries are kept in a vector in the order in which their keys were
//! first inserted, and no key occurs twice. The map is viewed as a
//! mathematical `Map` from addresses to values.

use crate::address::Address;
use crate::seq_facts::lemma_filter_step;
use vstd::prelude::*;

verus! {

/// Whether no two entries of `s` have the same key.
pub open spec fn distinct_keys<V>(s: Seq<(Address, V)>) -> bool {
    forall|i: int, j: int| 0 <= i < j < s.len() ==> (#[trigger] s[i]).0 != (#[trigger] s[j]).0
}

/// Whether some entry of `s` has the key `key`.
pub open spec fn has_key<V>(s: Seq<(Address, V)>, key: Address) -> bool {
    exists|i: int| 0 <= i < s.len() && (#[trigger] s[i]).0 == key
}

/// The position of an entry of `s` with the key `key`.
pub open spec fn position_of<V>(s: Seq<(Address, V)>, key: Address) -> int {
    choose|i: int| 0 <= i < s.len() && (#[trigger] s[i]).0 == key
}

/// The map that the entries `s` stand for.
pub open spec fn entries_map<V>(s: Seq<(Address, V)>) -> Map<Address, V> {
    Map::new(|key: Address| has_key(s, key), |key: Address| s[position_of(s, key)].1)
}

/// A map from connection addresses to values of type `V`.
pub struct AddressMap<V> {
    entries: Vec<(Address, V)>,
}

impl<V> View for AddressMap<V> {
    type V = Map<Address, V>;

    closed spec fn view(&self) -> Map<Address, V> {
        entries_map(self.entries@)
    }
}

impl<V> AddressMap<V> {
    /// The invariant of the map: no key occurs twice.
    pub closed spec fn wf(&self) -> bool {
        distinct_keys(self.entries@)
    }

    /// The entries in the order in which their keys were first inserted.
    pub closed spec fn entries(&self) -> Seq<(Address, V)> {
        self.entries@
    }

    /// The view is the map that the entries stand for.
    pub proof fn lemma_view(&self)
        ensures
            self@ == entries_map(self.entries()),
            self.wf() == distinct_keys(self.entries()),
    {
    }

    /// An empty map.
    pub fn new() -> (m: Self)
        ensures
            m.wf(),
            m@ == Map::<Address, V>::empty(),
            m.entries() == Seq::<(Address, V)>::empty(),
    {
        let m = AddressMap { entries: Vec::new() };
        assert(m@ =~= Map::<Address, V>::empty());
        m
    }

    /// The number of entries.
    pub fn len(&self) -> (n: usize)
        requires
            self.wf(),
        ensures
            n == self.entries().len(),
            n == self@.dom().len(),
            self@.dom().finite(),
    {
        proof {
            lemma_entries_dom(self.entries@);
        }
        self.entries.len()
    }

    /// The position of `key` among the entries, if it is a key of the map.
    fn find(&self, key: Address) -> (r: Option<usize>)
        requires
            self.wf(),
        ensures
            match r {
                Some(i) => i < self.entries@.len() && self.entries@[i as int].0 == key,
                None => !has_key(self.entries@, key),
            },
    {
        let mut i: usize = 0;
        while i < self.entries.len()
            invariant
                i <= self.entries@.len(),
                forall|j: int| 0 <= j < i ==> (#[trigger] self.entries@[j]).0 != key,
            decreases self.entries@.len() - i,
        {
            if self.entries[i].0 == key {
                return Some(i);
            }
            i += 1;
        }
        None
    }

    /// Whether `key` is a key of the map.
    pub fn contains_key(&self, key: Address) -> (r: bool)
        requires
            self.wf(),
        ensures
            r == self@.contains_key(key),
    {
        self.find(key).is_some()
    }

    /// The value stored under `key`, if there is one.
    pub fn get(&self, key: Address) -> (r: Option<&V>)
        requires
            self.wf(),
        ensures
            match r {
                Some(v) => self@.contains_key(key) && *v == self@[key],
                None => !self@.contains_key(key),
            },
    {
        match self.find(key) {
            Some(i) => {
                proof {
                    lemma_entry_value(self.entries@, i as int);
                }
                Some(&self.entries[i].1)
            },
            None => None,
        }
    }

    /// Stores `value` under `key` and returns the value that was stored under
    /// it before. A key that is already present keeps its place among the
    /// entries; a new key goes to the end.
    pub fn insert(&mut self, key: Address, value: V) -> (r: Option<V>)
        requires
            old(self).wf(),
        ensures
            final(self).wf(),
            final(self)@ == old(self)@.insert(key, value),
            match r {
                Some(v) => old(self)@.contains_key(key) && v == old(self)@[key],
                None => !old(self)@.contains_key(key),
            },
            old(self)@.contains_key(key) ==> final(self).entries() == old(self).entries().update(
                position_of(old(self).entries(), key),
                (key, value),
            ),
            !old(self)@.contains_key(key) ==> final(self).entries() == old(self).entries().push(
                (key, value),
            ),
    {
        match self.find(key) {
            Some(i) => {
                proof {
                    lemma_entry_value(self.entries@, i as int);
                    lemma_position_unique(self.entries@, key, i as int);
                }
                let ghost before = self.entries@;
                let mut entry = (key, value);
                std::mem::swap(&mut self.entries[i], &mut entry);
                proof {
                    lemma_update_insert(before, i as int, key, value);
                }
                Some(entry.1)
            },
            None => {
                let ghost before = self.entries@;
                self.entries.push((key, value));
                proof {
                    lemma_push_insert(before, key, value);
                }
                None
            },
        }
    }

    /// Removes `key` from the map and returns the value that was stored under
    /// it. The other entries keep their order.
    pub fn remove(&mut self, key: Address) -> (r: Option<V>)
        requires
            old(self).wf(),
        ensures
            final(self).wf(),
            final(self)@ == old(self)@.remove(key),
            match r {
                Some(v) => old(self)@.contains_key(key) && v == old(self)@[key],
                None => !old(self)@.contains_key(key),
            },
            old(self)@.contains_key(key) ==> final(self).entries() == old(self).entries().remove(
                position_of(old(self).entries(), key),
            ),
            !old(self)@.contains_key(key) ==> final(self).entries() == old(self).entries(),
    {
        match self.find(key) {
            Some(i) => {
                proof {
                    lemma_entry_value(self.entries@, i as int);
                    lemma_position_unique(self.entries@, key, i as int);
                    lemma_remove_at(self.entries@, i as int);
                }
                let entry = self.entries.remove(i);
                Some(entry.1)
            },
            None => {
                assert(self@ =~= self@.remove(key));
                None
            },
        }
    }

    /// The key of the entry at position `i`.
    pub fn key_at(&self, i: usize) -> (key: Address)
        requires
            self.wf(),
            i < self.entries().len(),
        ensures
            key == self.entries()[i as int].0,
            self@.contains_key(key),
    {
        proof {
            lemma_entry_value(self.entries@, i as int);
        }
        self.entries[i].0
    }

    /// The value of the entry at position `i`.
    pub fn value_at(&self, i: usize) -> (value: &V)
        requires
            self.wf(),
            i < self.entries().len(),
        ensures
            *value == self.entries()[i as int].1,
            *value == self@[self.entries()[i as int].0],
    {
        proof {
            lemma_entry_value(self.entries@, i as int);
        }
        &self.entries[i].1
    }
}

impl AddressMap<u32> {
    /// Removes every entry whose value is `value`. The other entries keep
    /// their order.
    pub fn remove_value(&mut self, value: u32)
        requires
            old(self).wf(),
        ensures
            final(self).wf(),
            final(self)@ == without_value(old(self)@, value),
            final(self).entries() == old(self).entries().filter(
                |e: (Address, u32)| e.1 != value,
            ),
    {
        let ghost before = self.entries@;
        let ghost keep = |e: (Address, u32)| e.1 != value;
        let mut kept: Vec<(Address, u32)> = Vec::new();
        let mut i: usize = 0;
        while i < self.entries.len()
            invariant
                i <= self.entries@.len(),
                self.entries@ == before,
                keep == (|e: (Address, u32)| e.1 != value),
                kept@ == before.take(i as int).filter(keep),
            decreases self.entries@.len() - i,
        {
            let entry = self.entries[i];
            proof {
                lemma_filter_step(before, i as int, keep);
            }
            if entry.1 != value {
                kept.push(entry);
            }
            i += 1;
        }
        proof {
            assert(before.take(i as int) =~= before);
            lemma_filter_entries(before, value);
        }
        self.entries = kept;
    }
}

/// The map `m` without the entries whose value is `value`.
pub open spec fn without_value(m: Map<Address, u32>, value: u32) -> Map<Address, u32> {
    Map::new(|key: Address| m.contains_key(key) && m[key] != value, |key: Address| m[key])
}

/// The map `m` without the entries whose value is one of `values`.
pub open spec fn without_values(m: Map<Address, u32>, values: Set<u32>) -> Map<Address, u32> {
    Map::new(
        |key: Address| m.contains_key(key) && !values.contains(m[key]),
        |key: Address| m[key],
    )
}

/// With distinct keys, the entry at a position holds the value of its key.
pub proof fn lemma_entry_value<V>(s: Seq<(Address, V)>, i: int)
    requires
        distinct_keys(s),
        0 <= i < s.len(),
    ensures
        has_key(s, s[i].0),
        position_of(s, s[i].0) == i,
        entries_map(s).contains_key(s[i].0),
        entries_map(s)[s[i].0] == s[i].1,
{
    let key = s[i].0;
    assert(has_key(s, key));
    let p = position_of(s, key);
    assert(0 <= p < s.len() && s[p].0 == key);
    if p != i {
        if p < i {
            assert(s[p].0 != s[i].0);
        } else {
            assert(s[i].0 != s[p].0);
        }
    }
}

/// With distinct keys, a key is found at one position only.
pub proof fn lemma_position_unique<V>(s: Seq<(Address, V)>, key: Address, i: int)
    requires
        distinct_keys(s),
        0 <= i < s.len(),
        s[i].0 == key,
    ensures
        position_of(s, key) == i,
{
    lemma_entry_value(s, i);
}

/// With distinct keys, the map has as many keys as there are entries.
pub proof fn lemma_entries_dom<V>(s: Seq<(Address, V)>)
    requires
        distinct_keys(s),
    ensures
        entries_map(s).dom().finite(),
        entries_map(s).dom().len() == s.len(),
    decreases s.len(),
{
    if s.len() == 0 {
        assert(entries_map(s).dom() =~= Set::<Address>::empty());
    } else {
        let t = s.drop_last();
        let last = s.last();
        assert(distinct_keys(t)) by {
            assert forall|i: int, j: int| 0 <= i < j < t.len() implies (#[trigger] t[i]).0 != (
            #[trigger] t[j]).0 by {
                assert(t[i] == s[i] && t[j] == s[j]);
            }
        }
        lemma_entries_dom(t);
        assert(!has_key(t, last.0)) by {
            if has_key(t, last.0) {
                let p = position_of(t, last.0);
                assert(s[p].0 == t[p].0);
                assert(s[p].0 != s[s.len() - 1].0);
            }
        }
        assert(entries_map(s).dom() =~= entries_map(t).dom().insert(last.0)) by {
            assert forall|key: Address| has_key(s, key) <==> (has_key(t, key) || key
                == last.0) by {
                if has_key(s, key) {
                    let p = position_of(s, key);
                    if p < t.len() {
                        assert(t[p].0 == key);
                    }
                }
                if has_key(t, key) {
                    let p = position_of(t, key);
                    assert(s[p].0 == key);
                }
                if key == last.0 {
                    assert(s[s.len() - 1].0 == key);
                }
            }
        }
    }
}

/// Replacing the entry of a key by a new value inserts the value into the map.
pub proof fn lemma_update_insert<V>(s: Seq<(Address, V)>, i: int, key: Address, value: V)
    requires
        distinct_keys(s),
        0 <= i < s.len(),
        s[i].0 == key,
    ensures
        distinct_keys(s.update(i, (key, value))),
        entries_map(s.update(i, (key, value))) == entries_map(s).insert(key, value),
{
    let t = s.update(i, (key, value));
    assert(distinct_keys(t)) by {
        assert forall|a: int, b: int| 0 <= a < b < t.len() implies (#[trigger] t[a]).0 != (
        #[trigger] t[b]).0 by {
            assert(t[a].0 == s[a].0 && t[b].0 == s[b].0);
        }
    }
    assert forall|k: Address| has_key(t, k) <==> (has_key(s, k) || k == key) by {
        if has_key(t, k) {
            let p = position_of(t, k);
            assert(s[p].0 == k);
        }
        if has_key(s, k) {
            let p = position_of(s, k);
            assert(t[p].0 == k);
        }
        if k == key {
            assert(t[i].0 == k);
        }
    }
    assert forall|k: Address| has_key(t, k) implies #[trigger] entries_map(t)[k] == entries_map(
        s,
    ).insert(key, value)[k] by {
        let p = position_of(t, k);
        lemma_entry_value(t, p);
        if k != key {
            assert(p != i);
            assert(s[p] == t[p]);
            lemma_entry_value(s, p);
        } else {
            lemma_position_unique(t, key, i);
        }
    }
    assert(entries_map(t) =~= entries_map(s).insert(key, value));
}

/// Appending an entry with a new key inserts its value into the map.
pub proof fn lemma_push_insert<V>(s: Seq<(Address, V)>, key: Address, value: V)
    requires
        distinct_keys(s),
        !has_key(s, key),
    ensures
        distinct_keys(s.push((key, value))),
        entries_map(s.push((key, value))) == entries_map(s).insert(key, value),
{
    let t = s.push((key, value));
    assert(distinct_keys(t)) by {
        assert forall|a: int, b: int| 0 <= a < b < t.len() implies (#[trigger] t[a]).0 != (
        #[trigger] t[b]).0 by {
            assert(t[a] == s[a]);
            if b < s.len() {
                assert(t[b] == s[b]);
            } else {
                assert(s[a].0 != key);
            }
        }
    }
    assert forall|k: Address| has_key(t, k) <==> (has_key(s, k) || k == key) by {
        if has_key(t, k) {
            let p = position_of(t, k);
            if p < s.len() {
                assert(s[p].0 == k);
            }
        }
        if has_key(s, k) {
            let p = position_of(s, k);
            assert(t[p].0 == k);
        }
        if k == key {
            assert(t[s.len() as int].0 == k);
        }
    }
    assert forall|k: Address| has_key(t, k) implies #[trigger] entries_map(t)[k] == entries_map(
        s,
    ).insert(key, value)[k] by {
        let p = position_of(t, k);
        lemma_entry_value(t, p);
        if k != key {
            assert(p < s.len());
            assert(s[p] == t[p]);
            lemma_entry_value(s, p);
        } else {
            lemma_position_unique(t, key, s.len() as int);
        }
    }
    assert(entries_map(t) =~= entries_map(s).insert(key, value));
}

/// Taking an entry out removes its key from the map.
pub proof fn lemma_remove_at<V>(s: Seq<(Address, V)>, i: int)
    requires
        distinct_keys(s),
        0 <= i < s.len(),
    ensures
        distinct_keys(s.remove(i)),
        entries_map(s.remove(i)) == entries_map(s).remove(s[i].0),
{
    let t = s.remove(i);
    let key = s[i].0;
    assert(distinct_keys(t)) by {
        assert forall|a: int, b: int| 0 <= a < b < t.len() implies (#[trigger] t[a]).0 != (
        #[trigger] t[b]).0 by {
            let sa = if a < i { a } else { a + 1 };
            let sb = if b < i { b } else { b + 1 };
            assert(t[a] == s[sa] && t[b] == s[sb]);
        }
    }
    assert forall|k: Address| has_key(t, k) <==> (has_key(s, k) && k != key) by {
        if has_key(t, k) {
            let p = position_of(t, k);
            let sp = if p < i { p } else { p + 1 };
            assert(s[sp].0 == k);
            if sp < i {
                assert(s[sp].0 != s[i].0);
            } else {
                assert(s[i].0 != s[sp].0);
            }
        }
        if has_key(s, k) && k != key {
            let p = position_of(s, k);
            let tp = if p < i { p } else { p - 1 };
            assert(t[tp].0 == k);
        }
    }
    assert forall|k: Address| has_key(t, k) implies #[trigger] entries_map(t)[k] == entries_map(
        s,
    ).remove(key)[k] by {
        let p = position_of(t, k);
        lemma_entry_value(t, p);
        let sp = if p < i { p } else { p + 1 };
        assert(s[sp] == t[p]);
        lemma_entry_value(s, sp);
    }
    assert(entries_map(t) =~= entries_map(s).remove(key));
}

/// Dropping the entries with a given value removes them from the map.
pub proof fn lemma_filter_entries(s: Seq<(Address, u32)>, value: u32)
    requires
        distinct_keys(s),
    ensures
        distinct_keys(s.filter(|e: (Address, u32)| e.1 != value)),
        entries_map(s.filter(|e: (Address, u32)| e.1 != value)) == without_value(
            entries_map(s),
            value,
        ),
    decreases s.len(),
{
    let keep = |e: (Address, u32)| e.1 != value;
    let t = s.filter(keep);
    reveal(Seq::filter);
    if s.len() == 0 {
        assert(entries_map(t) =~= without_value(entries_map(s), value));
    } else {
        let init = s.drop_last();
        let last = s.last();
        assert(distinct_keys(init)) by {
            assert forall|i: int, j: int| 0 <= i < j < init.len() implies (
            #[trigger] init[i]).0 != (#[trigger] init[j]).0 by {
                assert(init[i] == s[i] && init[j] == s[j]);
            }
        }
        lemma_filter_entries(init, value);
        let ft = init.filter(keep);
        assert(!has_key(init, last.0)) by {
            if has_key(init, last.0) {
                let p = position_of(init, last.0);
                assert(s[p].0 == init[p].0);
                assert(s[p].0 != s[s.len() - 1].0);
            }
        }
        assert(s =~= init.push(last));
        lemma_push_insert(init, last.0, last.1);
        if keep(last) {
            assert(t == ft.push(last));
            assert(!has_key(ft, last.0)) by {
                if has_key(ft, last.0) {
                    let p = position_of(ft, last.0);
                    lemma_entry_value(ft, p);
                    assert(entries_map(ft).contains_key(last.0));
                    assert(entries_map(init).contains_key(last.0));
                }
            }
            lemma_push_insert(ft, last.0, last.1);
            assert(entries_map(t) =~= without_value(entries_map(s), value));
        } else {
            assert(t == ft);
            assert(entries_map(t) =~= without_value(entries_map(s), value));
        }
    }
}

} // verus!
