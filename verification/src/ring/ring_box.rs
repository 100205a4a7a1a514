use vstd::prelude::*;

use core::marker::PhantomData;

use crate::kit::WIDE;

use super::ring_type::{ring_capacity, ring_geometry, ring_geometry_holds, ring_layout, RingType};

verus! {

/// The storage of a ring buffer of type `T`.
pub struct RingBox<T>(pub Vec<u8>, pub PhantomData<T>);

impl<T: RingType> RingBox<T> {
    /// The storage has the size the layout of `T` asks for.
    pub open spec fn wf(&self) -> bool {
        &&& ring_geometry::<T>()
        &&& self.0@.len() == ring_capacity::<T>()
    }
}

impl<T: RingType> Default for RingBox<T> {
    /// Zeroed storage; empty when the constants of `T` do not describe a ring that fits.
    fn default() -> (r: Self)
        ensures
            ring_geometry::<T>() ==> r.wf(),
            ring_geometry::<T>() ==> r.0@ == Seq::new(ring_capacity::<T>() as nat, |i: int| 0u8),
            !ring_geometry::<T>() ==> r.0@.len() == 0,
    {
        if !ring_geometry_holds::<T>() {
            return RingBox(Vec::new(), PhantomData);
        }
        let (size, limit) = ring_layout::<T>();
        let n = 2 * limit + size + WIDE;
        let v: Vec<u8> = vec![0u8; n];
        assert(v@ =~= Seq::new(ring_capacity::<T>() as nat, |i: int| 0u8));
        RingBox(v, PhantomData)
    }
}

} // verus!
