use vstd::prelude::*;

use super::len::Len;

verus! {

/// A byte source that can drop bytes from its front.
pub trait Skip: Len {
    fn skip(&mut self, len: usize)
        requires
            (*old(self)).inv(),
            len <= (*old(self)).contents().len(),
        ensures
            (*final(self)).inv(),
            (*final(self)).contents() == (*old(self)).contents().skip(len as int),
    {
        self.skip_unchecked(len)
    }

    /// Skip `len` bytes unchecked.
    fn skip_unchecked(&mut self, len: usize)
        requires
            (*old(self)).inv(),
            len <= (*old(self)).contents().len(),
        ensures
            (*final(self)).inv(),
            (*final(self)).contents() == (*old(self)).contents().skip(len as int),
    ;
}

impl Skip for &[u8] {
    fn skip_unchecked(&mut self, len: usize) {
        let n = (*self).len();
        *self = &(*self)[len..n];
    }
}

impl Skip for &mut [u8] {
    /// The bytes skipped stay with the slice that was borrowed.
    fn skip_unchecked(&mut self, len: usize)
        ensures
            final(*old(self))@ == old(self)@.take(len as int) + final(*final(self))@,
    {
        let mut bytes: &mut [u8] = &mut [];
        core::mem::swap(&mut bytes, self);
        let (_, rest) = bytes.split_at_mut(len);
        *self = rest;
    }
}

impl<T: Skip + ?Sized> Skip for &mut T {
    fn skip(&mut self, len: usize) {
        (**self).skip(len)
    }

    fn skip_unchecked(&mut self, len: usize) {
        (**self).skip_unchecked(len)
    }
}

} // verus!
