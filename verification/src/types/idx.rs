use vstd::prelude::*;

verus! {

/// A position in a stream, counted modulo 2^32.
#[derive(Copy, Clone, Debug, PartialEq, Eq, Structural)]
pub struct Idx(u32);

/// The signed distance from `b` to `a` on the 2^32 circle: `a - b` wrapped into `i32`.
pub open spec fn wrapping_diff(a: u32, b: u32) -> i32 {
    let d = (a as int - b as int) % 0x1_0000_0000;
    if d < 0x8000_0000 {
        d as i32
    } else {
        (d - 0x1_0000_0000) as i32
    }
}

impl Idx {
    pub closed spec fn value(self) -> u32 {
        self.0
    }

    pub fn new(u: u32) -> (r: Self)
        ensures
            r.value() == u,
    {
        Idx(u)
    }

    pub fn get(self) -> (r: u32)
        ensures
            r == self.value(),
    {
        self.0
    }

    /// The position of byte `n` of a stream, as the stream counts it.
    pub fn from_usize(n: usize) -> (r: Self)
        ensures
            r.value() == n as int % 0x1_0000_0000,
    {
        let n64 = n as u64;
        assert(n64 as u32 == n64 % 0x1_0000_0000) by (bit_vector);
        assert(n64 as u32 == n as u32) by (bit_vector)
            requires
                n64 == n,
        ;
        Idx(n as u32)
    }

    /// `self - other`, the signed distance between two positions.
    pub fn diff(self, other: Idx) -> (r: i32)
        ensures
            r == wrapping_diff(self.value(), other.value()),
    {
        let d = self.0.wrapping_sub(other.0);
        if d < 0x8000_0000 {
            d as i32
        } else {
            (d as i64 - 0x1_0000_0000i64) as i32
        }
    }

    /// Advancing a position by `n` below 2^31 puts it `n` ahead: `advance(n).diff(self)` is `n`.
    pub proof fn lemma_advance_diff(a: u32, n: u32)
        requires
            n < 0x8000_0000,
        ensures
            wrapping_diff(((a as int + n as int) % 0x1_0000_0000) as u32, a) == n,
    {
        let s = (a as int + n as int) % 0x1_0000_0000;
        if a as int + n as int >= 0x1_0000_0000 {
            assert(s == a as int + n as int - 0x1_0000_0000);
            assert((s - a as int) % 0x1_0000_0000 == n as int) by {
                vstd::arithmetic::div_mod::lemma_fundamental_div_mod_converse(
                    s - a as int,
                    0x1_0000_0000,
                    -1,
                    n as int,
                );
            }
        } else {
            assert(s == a as int + n as int);
        }
    }

    /// `self + n`, wrapping.
    pub fn advance(self, n: u32) -> (r: Idx)
        ensures
            r.value() == (self.value() as int + n as int) % 0x1_0000_0000,
    {
        Idx(self.0.wrapping_add(n))
    }
}

} // verus!
