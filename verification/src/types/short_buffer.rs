use vstd::prelude::*;

use crate::kit::Width;
use crate::ops::write_short::{le_bytes, lemma_le_bytes_4};
use crate::ops::{CopyShort, Len, ShortLimit};

use super::short_bytes::ShortBytes;

verus! {

/// A short byte source whose first bytes can be read as one word.
pub trait ShortBuffer: CopyShort {
    /// The first four bytes, little-endian; past the end of the contents the bytes are
    /// unspecified.
    fn peek_u32(&self) -> (r: u32)
        requires
            self.inv(),
        ensures
            forall|i: int|
                0 <= i < 4 && i < self.contents().len() ==> #[trigger] le_bytes(r as nat, 4)[i]
                    == self.contents()[i],
    ;
}

/// The first four bytes of `s`, little-endian, zero past its end.
fn peek_slice(s: &[u8]) -> (r: u32)
    ensures
        forall|i: int| 0 <= i < 4 && i < s@.len() ==> #[trigger] le_bytes(r as nat, 4)[i] == s@[i],
{
    let n = s.len();
    let b0: u32 = if n > 0 {
        s[0] as u32
    } else {
        0
    };
    let b1: u32 = if n > 1 {
        s[1] as u32
    } else {
        0
    };
    let b2: u32 = if n > 2 {
        s[2] as u32
    } else {
        0
    };
    let b3: u32 = if n > 3 {
        s[3] as u32
    } else {
        0
    };
    let r = b0 + b1 * 256 + b2 * 0x1_0000 + b3 * 0x100_0000;
    proof {
        lemma_le_bytes_4(b0 as nat, b1 as nat, b2 as nat, b3 as nat);
    }
    r
}

impl ShortBuffer for &[u8] {
    fn peek_u32(&self) -> u32 {
        peek_slice(*self)
    }
}

impl<'a, T: ShortLimit, W: Width> ShortBuffer for ShortBytes<'a, T, W> {
    fn peek_u32(&self) -> u32 {
        peek_slice(self.as_slice())
    }
}

} // verus!
