//! The owned block of elements shared by every buffer of this crate, and the
//! growth policy that decides how far it is enlarged.

use vstd::prelude::*;

verus! {

/// The capacity that makes room for `needed` elements in a block of
/// `cap` elements: the block is kept when they already fit; otherwise it is
/// doubled (saturating at the largest `usize`), or raised to exactly `needed`
/// where doubling falls short.
pub open spec fn grown_capacity(cap: nat, needed: nat) -> nat {
    if needed <= cap {
        cap
    } else {
        let doubled = if 2 * cap <= usize::MAX { 2 * cap } else { usize::MAX as nat };
        if needed <= doubled { doubled } else { needed }
    }
}

/// Executable form of the growth policy.
pub fn next_capacity(cap: usize, needed: usize) -> (r: usize)
    ensures
        r == grown_capacity(cap as nat, needed as nat),
        r >= cap,
        r >= needed,
{
    if needed <= cap {
        cap
    } else {
        let doubled: usize = if cap <= usize::MAX / 2 { cap * 2 } else { usize::MAX };
        if needed <= doubled { doubled } else { needed }
    }
}

/// One owned, contiguous block: the first `len` slots hold live elements,
/// and the block has room for `capacity` of them without reallocation.
pub struct RawStorage<T> {
    items: Vec<T>,
    cap: usize,
}

impl<T> View for RawStorage<T> {
    type V = Seq<T>;

    /// The live elements, in order.
    closed spec fn view(&self) -> Seq<T> {
        self.items@
    }
}

impl<T> RawStorage<T> {
    /// The number of elements the block holds without reallocation.
    pub closed spec fn spec_capacity(&self) -> nat {
        self.cap as nat
    }

    /// The live elements never outnumber the slots.
    pub open spec fn wf(&self) -> bool {
        self@.len() <= self.spec_capacity()
    }

    /// Acquires an empty block with room for `capacity` elements.
    pub fn acquire(capacity: usize) -> (r: Self)
        ensures
            r@ == Seq::<T>::empty(),
            r.spec_capacity() == capacity,
            r.wf(),
    {
        RawStorage { items: Vec::with_capacity(capacity), cap: capacity }
    }

    pub fn len(&self) -> (r: usize)
        ensures
            r == self@.len(),
    {
        self.items.len()
    }

    pub fn capacity(&self) -> (r: usize)
        ensures
            r == self.spec_capacity(),
    {
        self.cap
    }

    /// Makes room for `additional` more elements, by the growth policy. The
    /// live elements are relocated unchanged.
    pub fn grow_to_fit(&mut self, additional: usize)
        requires
            old(self).wf(),
            old(self)@.len() + additional <= usize::MAX,
        ensures
            final(self).wf(),
            final(self)@ == old(self)@,
            final(self).spec_capacity() == grown_capacity(
                old(self).spec_capacity(),
                (old(self)@.len() + additional) as nat,
            ),
    {
        let len = self.items.len();
        let needed = len + additional;
        if needed <= self.cap {
            return;
        }
        let new_cap = next_capacity(self.cap, needed);
        self.items.reserve(new_cap - len);
        self.cap = new_cap;
    }

    /// Writes `v` into the first free slot.
    pub fn write_next(&mut self, v: T)
        requires
            old(self).wf(),
            old(self)@.len() < old(self).spec_capacity(),
        ensures
            final(self).wf(),
            final(self)@ == old(self)@.push(v),
            final(self).spec_capacity() == old(self).spec_capacity(),
    {
        self.items.push(v);
    }

    /// Removes and finalizes the last live element.
    pub fn remove_last(&mut self)
        requires
            old(self).wf(),
            old(self)@.len() > 0,
        ensures
            final(self).wf(),
            final(self)@ == old(self)@.drop_last(),
            final(self).spec_capacity() == old(self).spec_capacity(),
    {
        let _last = self.items.pop();
    }

    /// The live element at slot `i`.
    pub fn get(&self, i: usize) -> (r: &T)
        requires
            i < self@.len(),
        ensures
            *r == self@[i as int],
    {
        &self.items[i]
    }

    /// The live elements as a slice.
    pub fn as_slice(&self) -> (r: &[T])
        ensures
            r@ == self@,
    {
        self.items.as_slice()
    }
}

} // verus!
