use vstd::prelude::*;

use crate::types::idx::wrapping_diff;
use crate::types::Idx;

use super::pos::Pos;

verus! {

/// How far back `idx` lies from the end of a stream of `len` bytes.
pub open spec fn truncate_delta(len: nat, idx: Idx) -> int {
    wrapping_diff((len % 0x1_0000_0000) as u32, idx.value()) as int
}

/// A stream can be cut back to `idx` when `idx` lies within it.
pub open spec fn can_truncate(len: nat, idx: Idx) -> bool {
    0 <= truncate_delta(len, idx) <= len
}

/// Taking the position of a stream of `len` bytes, moving it on by `n` and then writing `k`
/// bytes in all, a stream can be cut back to that position, `k - n` bytes back, as long as
/// fewer than 2^31 bytes were written.
pub proof fn lemma_truncate_back(len: nat, n: nat, k: nat, target: u32)
    requires
        n <= k < 0x8000_0000,
        target == ((len % 0x1_0000_0000) + n) % 0x1_0000_0000,
    ensures
        wrapping_diff(((len + k) % 0x1_0000_0000) as u32, target) == k - n,
{
    let m: int = 0x1_0000_0000;
    vstd::arithmetic::div_mod::lemma_add_mod_noop(len as int, n as int, m);
    vstd::arithmetic::div_mod::lemma_small_mod(n, m as nat);
    vstd::arithmetic::div_mod::lemma_sub_mod_noop((len + k) as int, (len + n) as int, m);
    vstd::arithmetic::div_mod::lemma_mod_twice((len + n) as int, m);
    vstd::arithmetic::div_mod::lemma_small_mod((k - n) as nat, m as nat);
    assert(((len + k) as int - (len + n) as int) == k - n);
}

pub trait Truncate: Pos {
    /// Truncate to `idx` returning true if the action is successful.
    /// Truncating to greater than `i32::MAX` relative to `self.pos()` is undefined.
    fn truncate(&mut self, idx: Idx) -> (r: bool)
        ensures
            ({
                let len = (*old(self)).stream().len();
                &&& r == can_truncate(len, idx)
                &&& (*final(self)).stream() == if r {
                    (*old(self)).stream().take(len - truncate_delta(len, idx))
                } else {
                    (*old(self)).stream()
                }
            }),
    ;
}

impl Truncate for Vec<u8> {
    fn truncate(&mut self, idx: Idx) -> bool {
        let delta = self.pos().diff(idx);
        let len = self.len();
        if delta >= 0 && delta as usize <= len {
            Vec::<u8>::truncate(self, len - delta as usize);
            true
        } else {
            false
        }
    }
}

impl<T: Truncate + ?Sized> Truncate for &mut T {
    fn truncate(&mut self, idx: Idx) -> bool {
        (**self).truncate(idx)
    }
}

} // verus!
