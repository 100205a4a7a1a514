use vstd::prelude::*;

verus! {

/// The size of a ring buffer, in bytes.
pub trait RingSize {
    const RING_SIZE: u32;
}

} // verus!
