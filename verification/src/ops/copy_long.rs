use vstd::prelude::*;

use crate::kit::copy::{copy_slice, splice};
use crate::kit::WIDE;
use crate::types::WideBytesMut;

use super::len::Len;
use super::skip::Skip;

verus! {

/// Copy long: eager, high volume, higher latency.
pub trait CopyLong: Len + Skip {
    /// Fills the nominal bytes of `dst` from the front and moves past them.
    fn read_long(&mut self, dst: WideBytesMut)
        requires
            (*old(self)).inv(),
            dst.wf(),
            dst.1 <= (*old(self)).contents().len(),
        ensures
            (*final(self)).inv(),
            (*final(self)).contents() == (*old(self)).contents().skip(dst.1 as int),
            final(dst.0)@ == (*old(self)).contents().take(dst.1 as int) + dst.full().skip(
                dst.1 as int,
            ),
    {
        let mut dst = dst;
        let nominal = dst.as_nominal_mut();
        self.read_long_unchecked(nominal);
    }

    /// Fills `dst` from the front and moves past the bytes read.
    fn read_long_unchecked(&mut self, dst: &mut [u8])
        requires
            (*old(self)).inv(),
            old(dst)@.len() <= (*old(self)).contents().len(),
        ensures
            (*final(self)).inv(),
            (*final(self)).contents() == (*old(self)).contents().skip(old(dst)@.len() as int),
            final(dst)@ == (*old(self)).contents().take(old(dst)@.len() as int),
    {
        let n = dst.len();
        self.read_long_raw(dst, n);
        assert(dst@ =~= dst@.take(n as int));
    }

    /// * `dst` is valid for `len + WIDE` byte writes.
    /// * `len <= Self::len()`
    fn read_long_raw(&mut self, dst: &mut [u8], len: usize)
        requires
            (*old(self)).inv(),
            len <= (*old(self)).contents().len(),
            len <= old(dst)@.len(),
        ensures
            (*final(self)).inv(),
            (*final(self)).contents() == (*old(self)).contents().skip(len as int),
            final(dst)@.len() == old(dst)@.len(),
            forall|i: int|
                len + WIDE <= i < old(dst)@.len() ==> #[trigger] final(dst)@[i] == old(dst)@[i],
            final(dst)@.take(len as int) == (*old(self)).contents().take(len as int),
    {
        self.copy_long_raw(dst, len);
        self.skip_unchecked(len);
    }

    /// Fills the nominal bytes of `dst` from the front.
    fn copy_long(&self, dst: WideBytesMut)
        requires
            self.inv(),
            dst.wf(),
            dst.1 <= self.contents().len(),
        ensures
            final(dst.0)@ == self.contents().take(dst.1 as int) + dst.full().skip(dst.1 as int),
    {
        self.copy_long_unchecked(dst);
    }

    /// Fills the nominal bytes of `dst` from the front.
    fn copy_long_unchecked(&self, dst: WideBytesMut)
        requires
            self.inv(),
            dst.wf(),
            dst.1 <= self.contents().len(),
        ensures
            final(dst.0)@ == self.contents().take(dst.1 as int) + dst.full().skip(dst.1 as int),
    {
        let mut dst = dst;
        let len = dst.1;
        let nominal = dst.as_nominal_mut();
        self.copy_long_raw(nominal, len);
        assert(nominal@ =~= nominal@.take(len as int));
    }

    /// * `dst` is valid for `len + WIDE` byte writes.
    /// * `len <= Self::len()`
    ///
    /// Copies the first `len` bytes into `dst`; bytes of `dst` beyond `len` may change.
    fn copy_long_raw(&self, dst: &mut [u8], len: usize)
        requires
            self.inv(),
            len <= self.contents().len(),
            len <= old(dst)@.len(),
        ensures
            final(dst)@.len() == old(dst)@.len(),
            forall|i: int|
                len + WIDE <= i < old(dst)@.len() ==> #[trigger] final(dst)@[i] == old(dst)@[i],
            final(dst)@.take(len as int) == self.contents().take(len as int),
    ;
}

impl<T: CopyLong> CopyLong for &mut T {
    fn read_long(&mut self, dst: WideBytesMut) {
        (**self).read_long(dst)
    }

    fn read_long_unchecked(&mut self, dst: &mut [u8]) {
        (**self).read_long_unchecked(dst)
    }

    fn read_long_raw(&mut self, dst: &mut [u8], len: usize) {
        (**self).read_long_raw(dst, len)
    }

    fn copy_long(&self, dst: WideBytesMut) {
        (**self).copy_long(dst)
    }

    fn copy_long_unchecked(&self, dst: WideBytesMut) {
        (**self).copy_long_unchecked(dst)
    }

    fn copy_long_raw(&self, dst: &mut [u8], len: usize) {
        (**self).copy_long_raw(dst, len)
    }
}

impl CopyLong for &[u8] {
    /// Only the first `len` bytes of `dst` change.
    fn copy_long_raw(&self, dst: &mut [u8], len: usize)
        ensures
            final(dst)@ == splice(old(dst)@, 0, self@.take(len as int)),
    {
        copy_slice(dst, 0, *self, 0, len);
        assert(dst@.take(len as int) =~= self@.take(len as int));
    }
}

} // verus!
