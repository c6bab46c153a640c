//! A fixed-capacity array: its block never grows, and a push into a full
//! array is refused with an error the caller can handle.

use vstd::prelude::*;
use crate::storage::RawStorage;

verus! {

/// Why a push into a fixed-capacity array was refused.
#[derive(Debug, PartialEq, Eq, Structural)]
pub enum StaticArrayError {
    OutOfSpaceError,
}

/// The contents after pushing `v` onto `s` in a block of `cap` slots: `v`
/// is appended when a slot is free, and nothing changes otherwise.
pub open spec fn fixed_push<T>(s: Seq<T>, cap: nat, v: T) -> Seq<T> {
    if s.len() < cap {
        s.push(v)
    } else {
        s
    }
}

/// The contents after pushing each of `vs`, in order, onto `s` in a block
/// of `cap` slots.
pub open spec fn fixed_push_all<T>(s: Seq<T>, cap: nat, vs: Seq<T>) -> Seq<T>
    decreases vs.len(),
{
    if vs.len() == 0 {
        s
    } else {
        fixed_push(fixed_push_all(s, cap, vs.drop_last()), cap, vs.last())
    }
}

/// Pushing at most `cap` values onto an empty fixed-capacity array keeps
/// them all: the length is the number of pushes, and each value is found at
/// the index it was pushed to.
pub proof fn lemma_pushes_within_capacity<T>(cap: nat, vs: Seq<T>)
    requires
        vs.len() <= cap,
    ensures
        fixed_push_all(Seq::<T>::empty(), cap, vs).len() == vs.len(),
        forall|i: int|
            0 <= i < vs.len() ==> #[trigger] fixed_push_all(Seq::<T>::empty(), cap, vs)[i]
                == vs[i],
    decreases vs.len(),
{
    if vs.len() > 0 {
        lemma_pushes_within_capacity(cap, vs.drop_last());
        let before = fixed_push_all(Seq::<T>::empty(), cap, vs.drop_last());
        assert(before =~= vs.drop_last());
        assert(fixed_push_all(Seq::<T>::empty(), cap, vs) =~= vs);
    }
}

/// Pushing `cap + 1` values onto an empty fixed-capacity array: the last
/// push finds the array full (so it is refused), and the array ends with
/// exactly `cap` elements, the first `cap` values.
pub proof fn lemma_push_beyond_capacity<T>(cap: nat, vs: Seq<T>)
    requires
        vs.len() == cap + 1,
    ensures
        !(fixed_push_all(Seq::<T>::empty(), cap, vs.drop_last()).len() < cap),
        fixed_push_all(Seq::<T>::empty(), cap, vs) == vs.drop_last(),
        fixed_push_all(Seq::<T>::empty(), cap, vs).len() == cap,
{
    lemma_pushes_within_capacity(cap, vs.drop_last());
    assert(fixed_push_all(Seq::<T>::empty(), cap, vs.drop_last()) =~= vs.drop_last());
}

/// An array of `T` whose capacity is set once, at construction.
pub struct StaticArray<T> {
    storage: RawStorage<T>,
}

impl<T> View for StaticArray<T> {
    type V = Seq<T>;

    /// The live elements, in order.
    closed spec fn view(&self) -> Seq<T> {
        self.storage@
    }
}

impl<T> StaticArray<T> {
    /// The fixed number of slots.
    pub closed spec fn spec_capacity(&self) -> nat {
        self.storage.spec_capacity()
    }

    /// The live elements never outnumber the slots.
    pub open spec fn wf(&self) -> bool {
        self@.len() <= self.spec_capacity()
    }

    /// An empty array with `capacity` slots.
    pub fn new(capacity: usize) -> (r: Self)
        ensures
            r.wf(),
            r@ == Seq::<T>::empty(),
            r.spec_capacity() == capacity,
    {
        StaticArray { storage: RawStorage::acquire(capacity) }
    }

    pub fn length(&self) -> (r: usize)
        ensures
            r == self@.len(),
    {
        self.storage.len()
    }

    pub fn capacity(&self) -> (r: usize)
        ensures
            r == self.spec_capacity(),
    {
        self.storage.capacity()
    }

    /// Appends `data` if a slot is free; refuses it, changing nothing, when
    /// the array is full.
    pub fn push(&mut self, data: T) -> (r: Result<(), StaticArrayError>)
        requires
            old(self).wf(),
        ensures
            final(self).wf(),
            final(self)@ == fixed_push(old(self)@, old(self).spec_capacity(), data),
            final(self).spec_capacity() == old(self).spec_capacity(),
            r is Ok <==> old(self)@.len() < old(self).spec_capacity(),
            r is Err ==> r == Err::<(), StaticArrayError>(StaticArrayError::OutOfSpaceError),
    {
        if self.storage.len() >= self.storage.capacity() {
            return Err(StaticArrayError::OutOfSpaceError);
        }
        self.storage.write_next(data);
        Ok(())
    }

    /// The element at `i`; only slots that were written may be read.
    pub fn index(&self, i: usize) -> (r: &T)
        requires
            i < self@.len(),
        ensures
            *r == self@[i as int],
    {
        self.storage.get(i)
    }

    /// The live elements as a slice.
    pub fn as_slice(&self) -> (r: &[T])
        ensures
            r@ == self@,
    {
        self.storage.as_slice()
    }
}

} // verus!
