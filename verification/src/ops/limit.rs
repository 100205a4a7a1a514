use vstd::prelude::*;

use crate::kit::copy::min_len;

use super::len::Len;

verus! {

/// A byte source that can drop bytes from its back.
pub trait Limit: Len {
    /// Limit to `len` bytes. If `self.len() <= len` this operation does nothing.
    fn limit(&mut self, len: usize)
        requires
            (*old(self)).inv(),
        ensures
            (*final(self)).inv(),
            (*final(self)).contents() == (*old(self)).contents().take(
                min_len((*old(self)).contents().len() as int, len as int),
            ),
    ;
}

impl Limit for &[u8] {
    fn limit(&mut self, len: usize) {
        let n = (*self).len();
        let len = if n <= len {
            n
        } else {
            len
        };
        *self = &(*self)[0..len];
    }
}

impl Limit for &mut [u8] {
    /// The bytes dropped stay with the slice that was borrowed.
    fn limit(&mut self, len: usize)
        ensures
            final(*old(self))@ == final(*final(self))@ + old(self)@.skip(
                min_len(old(self)@.len() as int, len as int),
            ),
    {
        let n = (*self).len();
        let len = if n <= len {
            n
        } else {
            len
        };
        let mut bytes: &mut [u8] = &mut [];
        core::mem::swap(&mut bytes, self);
        let (head, _) = bytes.split_at_mut(len);
        *self = head;
    }
}

impl<T: Limit + ?Sized> Limit for &mut T {
    fn limit(&mut self, len: usize) {
        (**self).limit(len)
    }
}

} // verus!
