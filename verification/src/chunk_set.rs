//! A set of chunk positions.
//!
//! The positions are kept in a vector in the order in which they were
//! inserted, and no position occurs twice. Beside the vector stands a hash
//! set of the same positions, each as one number, where a position is looked
//! up. The set is viewed as a mathematical `Set`.

use crate::protocol::client::ChunkPosition;
use crate::seq_facts::lemma_filter_step;
use std::collections::HashSet;
use vstd::prelude::*;

verus! {

broadcast use vstd::std_specs::hash::group_hash_axioms;

/// The number that stands for the position `pos` in the hash set. No two
/// positions have the same number.
pub open spec fn spec_position_key(pos: ChunkPosition) -> u64 {
    ((pos.0 + 0x8000_0000) * 0x1_0000_0000 + (pos.1 + 0x8000_0000)) as u64
}

/// The number that stands for the position `pos` in the hash set.
#[verifier::when_used_as_spec(spec_position_key)]
pub fn position_key(pos: ChunkPosition) -> (key: u64)
    ensures
        key == spec_position_key(pos),
{
    let x = (pos.0 as i64 + 0x8000_0000) as u64;
    let y = (pos.1 as i64 + 0x8000_0000) as u64;
    x * 0x1_0000_0000 + y
}

/// The numbers that stand for the positions `items`.
pub open spec fn position_keys(items: Seq<ChunkPosition>) -> Set<u64> {
    Set::new(|key: u64| exists|pos: ChunkPosition| items.contains(pos) && spec_position_key(pos) == key)
}

/// The test that a position passes if it is in `set`.
pub open spec fn is_in(set: Set<ChunkPosition>) -> spec_fn(ChunkPosition) -> bool {
    |pos: ChunkPosition| set.contains(pos)
}

/// A set of chunk positions.
pub struct ChunkSet {
    items: Vec<ChunkPosition>,
    index: HashSet<u64>,
}

impl View for ChunkSet {
    type V = Set<ChunkPosition>;

    closed spec fn view(&self) -> Set<ChunkPosition> {
        self.items@.to_set()
    }
}

impl ChunkSet {
    /// The invariant of the set: no position occurs twice.
    pub closed spec fn wf(&self) -> bool {
        self.items@.no_duplicates() && self.index@ == position_keys(self.items@)
    }

    /// The positions in the order in which they were inserted.
    pub closed spec fn order(&self) -> Seq<ChunkPosition> {
        self.items@
    }

    /// The order lists every position of the set once.
    pub proof fn lemma_order(&self)
        requires
            self.wf(),
        ensures
            self.order().no_duplicates(),
            self.order().to_set() == self@,
            self@.finite(),
            self@.len() == self.order().len(),
    {
        self.items@.unique_seq_to_set();
    }

    /// The empty set.
    pub fn new() -> (s: ChunkSet)
        ensures
            s.wf(),
            s@ == Set::<ChunkPosition>::empty(),
            s.order() == Seq::<ChunkPosition>::empty(),
    {
        let s = ChunkSet { items: Vec::new(), index: HashSet::new() };
        assert(s@ =~= Set::<ChunkPosition>::empty());
        assert(s.index@ =~= position_keys(s.items@));
        s
    }

    /// The number of positions in the set.
    pub fn len(&self) -> (n: usize)
        requires
            self.wf(),
        ensures
            n == self@.len(),
            n == self.order().len(),
            self@.finite(),
    {
        proof {
            self.lemma_order();
        }
        self.items.len()
    }

    /// Whether `pos` is in the set.
    pub fn contains(&self, pos: ChunkPosition) -> (r: bool)
        requires
            self.wf(),
        ensures
            r == self@.contains(pos),
    {
        let r = self.index.contains(&position_key(pos));
        proof {
            if r {
                let found = choose|found: ChunkPosition|
                    self.items@.contains(found) && spec_position_key(found) == spec_position_key(
                        pos,
                    );
                assert(found == pos);
            }
        }
        r
    }

    /// The position at the place `i` of the order.
    pub fn get(&self, i: usize) -> (pos: ChunkPosition)
        requires
            i < self.order().len(),
        ensures
            pos == self.order()[i as int],
            self@.contains(pos),
    {
        self.items[i]
    }

    /// Puts `pos` into the set, at the end of the order if it is new.
    /// Returns whether it is new.
    pub fn insert(&mut self, pos: ChunkPosition) -> (fresh: bool)
        requires
            old(self).wf(),
        ensures
            final(self).wf(),
            final(self)@ == old(self)@.insert(pos),
            fresh == !old(self)@.contains(pos),
            final(self).order() == if fresh {
                old(self).order().push(pos)
            } else {
                old(self).order()
            },
    {
        if self.contains(pos) {
            assert(self@ =~= self@.insert(pos));
            false
        } else {
            self.items.push(pos);
            self.index.insert(position_key(pos));
            proof {
                let before = old(self).items@;
                assert forall|i: int, j: int|
                    0 <= i < self.items@.len() && 0 <= j < self.items@.len() && i
                        != j implies self.items@[i] != self.items@[j] by {
                    if i < before.len() {
                        assert(before.contains(before[i]));
                    }
                    if j < before.len() {
                        assert(before.contains(before[j]));
                    }
                }
                assert forall|p: ChunkPosition| self.items@.contains(p) <==> (before.contains(p)
                    || p == pos) by {
                    if before.contains(p) {
                        let i = choose|i: int| 0 <= i < before.len() && before[i] == p;
                        assert(self.items@[i] == p);
                    }
                    if p == pos {
                        assert(self.items@[before.len() as int] == p);
                    }
                }
                assert(self@ =~= old(self)@.insert(pos));
                assert(self.index@ =~= position_keys(self.items@));
            }
            true
        }
    }

    /// Drops from the set what is not in `other`. What stays keeps its
    /// order.
    pub fn retain_in(&mut self, other: &ChunkSet)
        requires
            old(self).wf(),
            other.wf(),
        ensures
            final(self).wf(),
            final(self)@ == old(self)@.intersect(other@),
            final(self).order() == old(self).order().filter(is_in(other@)),
    {
        let ghost keep = is_in(other@);
        let mut kept = ChunkSet::new();
        let mut i: usize = 0;
        while i < self.items.len()
            invariant
                i <= self.items@.len(),
                self.items@ == old(self).items@,
                self.wf(),
                other.wf(),
                kept.wf(),
                keep == is_in(other@),
                kept@ == self.items@.take(i as int).to_set().intersect(other@),
                kept.items@ == self.items@.take(i as int).filter(keep),
            decreases self.items@.len() - i,
        {
            let pos = self.items[i];
            proof {
                assert(self.items@.take(i + 1) =~= self.items@.take(i as int).push(pos));
                lemma_to_set_push(self.items@.take(i as int), pos);
                lemma_filter_step(self.items@, i as int, keep);
            }
            if other.contains(pos) {
                kept.insert(pos);
                assert(kept@ =~= self.items@.take(i + 1).to_set().intersect(other@));
            } else {
                assert(kept@ =~= self.items@.take(i + 1).to_set().intersect(other@));
            }
            i += 1;
        }
        assert(self.items@.take(i as int) =~= self.items@);
        *self = kept;
    }

    /// Takes all positions out of the set, in their order, and leaves it
    /// empty.
    pub fn drain(&mut self) -> (all: Vec<ChunkPosition>)
        requires
            old(self).wf(),
        ensures
            final(self).wf(),
            final(self)@ == Set::<ChunkPosition>::empty(),
            all@ == old(self).order(),
    {
        let mut all: Vec<ChunkPosition> = Vec::new();
        std::mem::swap(&mut self.items, &mut all);
        self.index.clear();
        assert(self@ =~= Set::<ChunkPosition>::empty());
        assert(self.index@ =~= position_keys(self.items@));
        all
    }
}

/// The set of a sequence with one more element is the set of the sequence
/// with that element.
pub proof fn lemma_to_set_push(s: Seq<ChunkPosition>, pos: ChunkPosition)
    ensures
        s.push(pos).to_set() == s.to_set().insert(pos),
{
    let t = s.push(pos);
    assert forall|p: ChunkPosition| t.contains(p) <==> (s.contains(p) || p == pos) by {
        if s.contains(p) {
            let i = choose|i: int| 0 <= i < s.len() && s[i] == p;
            assert(t[i] == p);
        }
        if p == pos {
            assert(t[s.len() as int] == p);
        }
    }
    assert(t.to_set() =~= s.to_set().insert(pos));
}

/// The set of the positions `positions`.
pub fn from_positions(positions: &Vec<ChunkPosition>) -> (s: ChunkSet)
    ensures
        s.wf(),
        s@ == positions@.to_set(),
{
    let mut s = ChunkSet::new();
    let mut i: usize = 0;
    assert(positions@.take(0).to_set() =~= Set::<ChunkPosition>::empty());
    while i < positions.len()
        invariant
            i <= positions@.len(),
            s.wf(),
            s@ == positions@.take(i as int).to_set(),
        decreases positions@.len() - i,
    {
        let pos = positions[i];
        proof {
            assert(positions@.take(i + 1) =~= positions@.take(i as int).push(pos));
            lemma_to_set_push(positions@.take(i as int), pos);
        }
        s.insert(pos);
        i += 1;
    }
    assert(positions@.take(i as int) =~= positions@);
    s
}

} // verus!
