use vstd::prelude::*;

use core::marker::PhantomData;

use crate::types::Idx;

verus! {

/// A read-only look at a ring buffer between two stream positions.
pub struct RingView<'b, T> {
    /// The whole storage of the ring, shadows included.
    pub bytes: &'b [u8],
    pub head: Idx,
    pub tail: Idx,
    pub ring_type: PhantomData<T>,
}

impl<'b, T> RingView<'b, T> {
    pub fn new(bytes: &'b [u8], head: Idx, tail: Idx) -> (r: Self)
        ensures
            r.bytes@ == bytes@,
            r.head == head,
            r.tail == tail,
    {
        RingView { bytes, head, tail, ring_type: PhantomData }
    }
}

} // verus!
