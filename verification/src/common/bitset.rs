//! Fixed-capacity sets of small indices.
use vstd::prelude::*;

verus! {

/// A set of indices below a capacity fixed when the set is made.
pub struct BitSet {
    bits: Vec<bool>,
}

impl BitSet {
    /// The indices in the set.
    pub closed spec fn members(&self) -> Set<nat> {
        Set::new(|i: nat| i < self.bits@.len() && self.bits@[i as int])
    }

    /// The capacity: every member is below it.
    pub closed spec fn capacity(&self) -> nat {
        self.bits@.len()
    }

    /// Every member is below the capacity.
    pub proof fn lemma_members_below_capacity(&self, i: nat)
        ensures
            self.members().contains(i) ==> i < self.capacity(),
    {
    }

    /// The empty set of the given capacity.
    pub fn new(capacity: usize) -> (r: Self)
        ensures
            r.members() == Set::<nat>::empty(),
            r.capacity() == capacity,
    {
        let mut bits: Vec<bool> = Vec::new();
        let mut i: usize = 0;
        while i < capacity
            invariant
                i <= capacity,
                bits@.len() == i,
                forall|j: int| 0 <= j < i ==> !bits@[j],
            decreases capacity - i,
        {
            bits.push(false);
            i += 1;
        }
        let r = BitSet { bits };
        assert(r.members() =~= Set::<nat>::empty());
        r
    }

    /// The capacity.
    pub fn len(&self) -> (r: usize)
        ensures
            r == self.capacity(),
    {
        self.bits.len()
    }

    /// Whether `i` is in the set.
    pub fn contains(&self, i: usize) -> (r: bool)
        ensures
            r == self.members().contains(i as nat),
    {
        i < self.bits.len() && self.bits[i]
    }

    /// Adds `i`, which must be below the capacity.
    pub fn insert(&mut self, i: usize)
        requires
            i < old(self).capacity(),
        ensures
            final(self).members() == old(self).members().insert(i as nat),
            final(self).capacity() == old(self).capacity(),
    {
        self.bits.set(i, true);
        assert(final(self).members() =~= old(self).members().insert(i as nat));
    }

    /// Adds every member of `other`, and says whether that added any.
    pub fn union(&mut self, other: &BitSet) -> (changed: bool)
        requires
            old(self).capacity() == other.capacity(),
        ensures
            final(self).members() == old(self).members().union(other.members()),
            final(self).capacity() == old(self).capacity(),
            changed == (final(self).members() != old(self).members()),
    {
        let n = self.bits.len();
        let mut bits: Vec<bool> = Vec::new();
        let mut changed = false;
        let mut i: usize = 0;
        while i < n
            invariant
                n == self.bits@.len(),
                n == other.bits@.len(),
                i <= n,
                bits@.len() == i,
                forall|j: int| 0 <= j < i ==> bits@[j] == (self.bits@[j] || other.bits@[j]),
                changed <==> exists|j: int| 0 <= j < i && other.bits@[j] && !self.bits@[j],
            decreases n - i,
        {
            if other.bits[i] && !self.bits[i] {
                changed = true;
            }
            bits.push(self.bits[i] || other.bits[i]);
            i += 1;
        }
        let ghost before = self.members();
        let ghost old_bits = self.bits@;
        self.bits = bits;
        proof {
            assert(self.members() =~= before.union(other.members()));
            if changed {
                let j = choose|j: int| 0 <= j < n && other.bits@[j] && !old_bits[j];
                assert(self.members().contains(j as nat));
                assert(!before.contains(j as nat));
            } else {
                assert(self.members() =~= before);
            }
        }
        changed
    }

    /// Removes every member of `other`, and says whether that removed any.
    pub fn substract(&mut self, other: &BitSet) -> (changed: bool)
        requires
            old(self).capacity() == other.capacity(),
        ensures
            final(self).members() == old(self).members().difference(other.members()),
            final(self).capacity() == old(self).capacity(),
            changed == (final(self).members() != old(self).members()),
    {
        let n = self.bits.len();
        let mut bits: Vec<bool> = Vec::new();
        let mut changed = false;
        let mut i: usize = 0;
        while i < n
            invariant
                n == self.bits@.len(),
                n == other.bits@.len(),
                i <= n,
                bits@.len() == i,
                forall|j: int| 0 <= j < i ==> bits@[j] == (self.bits@[j] && !other.bits@[j]),
                changed <==> exists|j: int| 0 <= j < i && other.bits@[j] && self.bits@[j],
            decreases n - i,
        {
            if other.bits[i] && self.bits[i] {
                changed = true;
            }
            bits.push(self.bits[i] && !other.bits[i]);
            i += 1;
        }
        let ghost before = self.members();
        let ghost old_bits = self.bits@;
        self.bits = bits;
        proof {
            assert(self.members() =~= before.difference(other.members()));
            if changed {
                let j = choose|j: int| 0 <= j < n && other.bits@[j] && old_bits[j];
                assert(!self.members().contains(j as nat));
                assert(before.contains(j as nat));
            } else {
                assert(self.members() =~= before);
            }
        }
        changed
    }

    /// A set with the same members and capacity.
    pub fn duplicate(&self) -> (r: Self)
        ensures
            r.members() == self.members(),
            r.capacity() == self.capacity(),
    {
        let mut bits: Vec<bool> = Vec::new();
        let mut i: usize = 0;
        while i < self.bits.len()
            invariant
                i <= self.bits@.len(),
                bits@ == self.bits@.take(i as int),
            decreases self.bits@.len() - i,
        {
            bits.push(self.bits[i]);
            i += 1;
        }
        assert(self.bits@.take(self.bits@.len() as int) =~= self.bits@);
        let r = BitSet { bits };
        assert(r.members() =~= self.members());
        r
    }
}

} // verus!
