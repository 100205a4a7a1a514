use vstd::prelude::*;

verus! {

/// The most bytes that one short operation moves.
pub trait ShortLimit {
    spec fn spec_short_limit() -> u32;

    fn short_limit() -> (r: u32)
        ensures
            r == Self::spec_short_limit(),
    ;
}

impl ShortLimit for &[u8] {
    open spec fn spec_short_limit() -> u32 {
        u32::MAX
    }

    fn short_limit() -> u32 {
        u32::MAX
    }
}

impl ShortLimit for Vec<u8> {
    open spec fn spec_short_limit() -> u32 {
        u32::MAX
    }

    fn short_limit() -> u32 {
        u32::MAX
    }
}

impl<T: ShortLimit + ?Sized> ShortLimit for &mut T {
    open spec fn spec_short_limit() -> u32 {
        T::spec_short_limit()
    }

    fn short_limit() -> u32 {
        T::short_limit()
    }
}

} // verus!
