use vstd::prelude::*;

use crate::kit::WIDE;

use super::ring_size::RingSize;

verus! {

/// The layout of a ring buffer: `RING_LIMIT` bytes of shadow on either side of the
/// `RING_SIZE` nominal bytes, then `WIDE` slack bytes.
pub trait RingType: RingSize {
    const RING_LIMIT: u32;
}

/// The constants of `T` describe a ring buffer that fits in memory.
pub open spec fn ring_geometry<T: RingType>() -> bool {
    &&& 0 < T::RING_SIZE
    &&& T::RING_LIMIT <= T::RING_SIZE
    &&& 2 * T::RING_LIMIT + T::RING_SIZE + WIDE <= u32::MAX
}

/// Bytes in a ring buffer of type `T`: tail shadow, nominal bytes, head shadow, slack.
pub open spec fn ring_capacity<T: RingType>() -> int {
    2 * T::RING_LIMIT + T::RING_SIZE + WIDE
}

/// Bytes in a ring buffer of type `T`.
pub fn ring_capacity_u64<T: RingType>() -> (r: u64)
    ensures
        r == ring_capacity::<T>(),
{
    2 * (T::RING_LIMIT as u64) + T::RING_SIZE as u64 + WIDE as u64
}

/// Whether the constants of `T` describe a ring buffer that fits in memory.
pub fn ring_geometry_holds<T: RingType>() -> (r: bool)
    ensures
        r == ring_geometry::<T>(),
{
    let size = T::RING_SIZE as u64;
    let limit = T::RING_LIMIT as u64;
    0 < size && limit <= size && 2 * limit + size + WIDE as u64 <= u32::MAX as u64
}

/// The size and the limit of `T`.
pub fn ring_layout<T: RingType>() -> (r: (usize, usize))
    ensures
        r.0 == T::RING_SIZE,
        r.1 == T::RING_LIMIT,
{
    (T::RING_SIZE as usize, T::RING_LIMIT as usize)
}

} // verus!
