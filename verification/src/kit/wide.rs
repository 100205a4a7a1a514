use vstd::prelude::*;

mod private;

verus! {

/// Fixed constant. Max copy width. Do not change.
pub const WIDE: usize = 32;

/// The number of bytes moved per step by a copy of width exponent `power`.
pub open spec fn width_of(power: u8) -> usize {
    1usize << power
}

/// Number of bytes a copy of width `W` moves per step.
pub open spec fn spec_width<W: Width>() -> nat {
    width_of(W::spec_power()) as nat
}

/// A copy width, given by its exponent: `WIDTH == 1 << POWER`, at most `WIDE`.
pub trait Width: private::Sealed + Sized {
    spec fn spec_power() -> u8;

    fn power() -> (p: u8)
        ensures
            p == Self::spec_power(),
            p <= 5,
    ;

    /// A width moves at least one byte and at most `WIDE` bytes per step.
    proof fn lemma_width()
        ensures
            1 <= width_of(Self::spec_power()) <= WIDE,
    ;

    fn width() -> (w: usize)
        ensures
            w == width_of(Self::spec_power()),
            1 <= w <= WIDE,
    {
        let p = Self::power();
        assert(p <= 5 ==> 1 <= (1usize << p) <= 32usize) by (bit_vector);
        let w = 1usize << p;
        assert(w == width_of(p));
        w
    }
}

#[derive(Copy, Clone, Debug)]
pub struct W00;

impl private::Sealed for W00 {}

impl Width for W00 {
    open spec fn spec_power() -> u8 {
        4
    }

    proof fn lemma_width() {
        assert(1usize << 4u8 == 16usize) by (bit_vector);
    }

    fn power() -> u8 {
        4
    }
}

#[derive(Copy, Clone, Debug)]
pub struct W08;

impl private::Sealed for W08 {}

impl Width for W08 {
    open spec fn spec_power() -> u8 {
        3
    }

    proof fn lemma_width() {
        assert(1usize << 3u8 == 8usize) by (bit_vector);
    }

    fn power() -> u8 {
        3
    }
}

#[derive(Copy, Clone, Debug)]
pub struct W16;

impl private::Sealed for W16 {}

impl Width for W16 {
    open spec fn spec_power() -> u8 {
        4
    }

    proof fn lemma_width() {
        assert(1usize << 4u8 == 16usize) by (bit_vector);
    }

    fn power() -> u8 {
        4
    }
}

#[derive(Copy, Clone, Debug)]
pub struct Wide;

impl private::Sealed for Wide {}

impl Width for Wide {
    open spec fn spec_power() -> u8 {
        5
    }

    proof fn lemma_width() {
        assert(1usize << 5u8 == 32usize) by (bit_vector);
    }

    fn power() -> u8 {
        5
    }
}

/// The widths of this crate in bytes.
pub proof fn lemma_widths()
    ensures
        spec_width::<W00>() == 16,
        spec_width::<W08>() == 8,
        spec_width::<W16>() == 16,
        spec_width::<Wide>() == 32,
{
    assert(1usize << 4u8 == 16usize) by (bit_vector);
    assert(1usize << 3u8 == 8usize) by (bit_vector);
    assert(1usize << 5u8 == 32usize) by (bit_vector);
}

} // verus!
