//! A growable array: pushes never fail for want of room; the block grows by
//! the shared policy and keeps every element where it was.

use vstd::prelude::*;
use crate::storage::{grown_capacity, RawStorage};

verus! {

/// The contents after pushing each of `vs`, in order, onto `s` in a
/// growable buffer.
pub open spec fn pushes_onto<T>(s: Seq<T>, vs: Seq<T>) -> Seq<T>
    decreases vs.len(),
{
    if vs.len() == 0 {
        s
    } else {
        pushes_onto(s, vs.drop_last()).push(vs.last())
    }
}

/// The capacity after `n` single pushes onto `len` elements in a block of
/// `cap`, each growing by the shared policy.
pub open spec fn capacity_after_pushes(cap: nat, len: nat, n: nat) -> nat
    decreases n,
{
    if n == 0 {
        cap
    } else {
        grown_capacity(capacity_after_pushes(cap, len, (n - 1) as nat), len + n)
    }
}

/// Pushes onto a growable buffer never run out of room: after `vs` are
/// pushed, the contents are the old ones followed by `vs`, and the capacity
/// holds them all.
pub proof fn lemma_growable_pushes<T>(s: Seq<T>, cap: nat, vs: Seq<T>)
    requires
        s.len() <= cap,
    ensures
        pushes_onto(s, vs) == s + vs,
        pushes_onto(s, vs).len() == s.len() + vs.len(),
        capacity_after_pushes(cap, s.len(), vs.len()) >= s.len() + vs.len(),
        capacity_after_pushes(cap, s.len(), vs.len()) >= cap,
    decreases vs.len(),
{
    if vs.len() > 0 {
        lemma_growable_pushes(s, cap, vs.drop_last());
        assert(pushes_onto(s, vs) =~= s + vs);
    }
}

/// A push, growing or not, keeps every element before it at its index.
pub proof fn lemma_push_keeps_elements<T>(s: Seq<T>, v: T)
    ensures
        forall|i: int| 0 <= i < s.len() ==> #[trigger] s.push(v)[i] == s[i],
        s.push(v).len() == s.len() + 1,
{
}

/// Pop undoes the last push: the length and the elements before it are
/// those from before the push.
pub proof fn lemma_pop_undoes_push<T>(s: Seq<T>, v: T)
    ensures
        s.push(v).drop_last() == s,
        s.push(v).drop_last().len() == s.len(),
{
    assert(s.push(v).drop_last() =~= s);
}

/// A growable array of `T`.
pub struct DynamicArray<T> {
    storage: RawStorage<T>,
}

impl<T> View for DynamicArray<T> {
    type V = Seq<T>;

    /// The live elements, in order.
    closed spec fn view(&self) -> Seq<T> {
        self.storage@
    }
}

impl<T> DynamicArray<T> {
    /// The number of elements the block holds without reallocation.
    pub closed spec fn spec_capacity(&self) -> nat {
        self.storage.spec_capacity()
    }

    /// The live elements never outnumber the slots.
    pub open spec fn wf(&self) -> bool {
        self@.len() <= self.spec_capacity()
    }

    /// An empty array with room for `capacity` elements.
    pub fn reserve(capacity: usize) -> (r: Self)
        ensures
            r.wf(),
            r@ == Seq::<T>::empty(),
            r.spec_capacity() == capacity,
    {
        DynamicArray { storage: RawStorage::acquire(capacity) }
    }

    pub fn length(&self) -> (r: usize)
        ensures
            r == self@.len(),
    {
        self.storage.len()
    }

    pub fn capacity(&self) -> (r: usize)
        ensures
            r == self.spec_capacity(),
    {
        self.storage.capacity()
    }

    /// Makes room for `additional` more elements, by the shared growth policy.
    fn grow_buffer(&mut self, additional: usize)
        requires
            old(self).wf(),
            old(self)@.len() + additional <= usize::MAX,
        ensures
            final(self).wf(),
            final(self)@ == old(self)@,
            final(self).spec_capacity() == grown_capacity(
                old(self).spec_capacity(),
                (old(self)@.len() + additional) as nat,
            ),
    {
        self.storage.grow_to_fit(additional);
    }

    /// Appends `value`, growing the block when it is full.
    pub fn push(&mut self, value: T)
        requires
            old(self).wf(),
            old(self)@.len() < usize::MAX,
        ensures
            final(self).wf(),
            final(self)@ == old(self)@.push(value),
            final(self).spec_capacity() == grown_capacity(
                old(self).spec_capacity(),
                old(self)@.len() + 1,
            ),
    {
        self.grow_buffer(1);
        self.storage.write_next(value);
    }

    /// Removes and finalizes the last element.
    pub fn pop(&mut self)
        requires
            old(self).wf(),
            old(self)@.len() > 0,
        ensures
            final(self).wf(),
            final(self)@ == old(self)@.drop_last(),
            final(self).spec_capacity() == old(self).spec_capacity(),
    {
        self.storage.remove_last();
    }

    /// The element at `i`.
    pub fn index(&self, i: usize) -> (r: &T)
        requires
            i < self@.len(),
        ensures
            *r == self@[i as int],
    {
        self.storage.get(i)
    }

    /// The live elements as a slice.
    pub fn as_slice(&self) -> (r: &[T])
        ensures
            r@ == self@,
    {
        self.storage.as_slice()
    }
}

} // verus!
