use vstd::prelude::*;

use crate::kit::copy::{copy_slice, splice};
use crate::kit::WIDE;
use crate::kit::CopyType;
use crate::types::WideBytesMut;

use super::len::Len;
use super::short_limit::ShortLimit;
use super::skip::Skip;

verus! {

/// Copy short: lazy, low volume, lower latency; copies in chunks of the strategy `V`.
pub trait CopyShort: Len + ShortLimit + Skip {
    /// Fills the nominal bytes of `dst` from the front and moves past them.
    fn read_short<V: CopyType>(&mut self, dst: WideBytesMut)
        requires
            (*old(self)).inv(),
            dst.wf(),
            dst.1 <= Self::spec_short_limit(),
            dst.1 <= (*old(self)).contents().len(),
        ensures
            (*final(self)).inv(),
            (*final(self)).contents() == (*old(self)).contents().skip(dst.1 as int),
            final(dst.0)@ == (*old(self)).contents().take(dst.1 as int) + dst.full().skip(
                dst.1 as int,
            ),
    {
        let mut dst = dst;
        let nominal = dst.as_nominal_mut();
        self.read_short_unchecked::<V>(nominal);
    }

    /// Fills `dst` from the front and moves past the bytes read.
    fn read_short_unchecked<V: CopyType>(&mut self, dst: &mut [u8])
        requires
            (*old(self)).inv(),
            old(dst)@.len() <= (*old(self)).contents().len(),
        ensures
            (*final(self)).inv(),
            (*final(self)).contents() == (*old(self)).contents().skip(old(dst)@.len() as int),
            final(dst)@ == (*old(self)).contents().take(old(dst)@.len() as int),
    {
        let n = dst.len();
        self.read_short_raw::<V>(dst, n);
        assert(dst@ =~= dst@.take(n as int));
    }

    /// * `dst` is valid for `len + WIDE` byte writes.
    /// * `short_len <= ShortLimit::SHORT_LIMIT as usize`
    /// * `short_len <= Self::len()`
    fn read_short_raw<V: CopyType>(&mut self, dst: &mut [u8], short_len: usize)
        requires
            (*old(self)).inv(),
            short_len <= (*old(self)).contents().len(),
            short_len <= old(dst)@.len(),
        ensures
            (*final(self)).inv(),
            (*final(self)).contents() == (*old(self)).contents().skip(short_len as int),
            final(dst)@.len() == old(dst)@.len(),
            forall|i: int|
                short_len + WIDE <= i < old(dst)@.len() ==> #[trigger] final(dst)@[i] == old(dst)@[i],
            final(dst)@.take(short_len as int) == (*old(self)).contents().take(short_len as int),
    {
        self.copy_short_raw::<V>(dst, short_len);
        self.skip_unchecked(short_len);
    }

    /// Fills the nominal bytes of `dst` from the front.
    fn copy_short<V: CopyType>(&self, dst: WideBytesMut)
        requires
            self.inv(),
            dst.wf(),
            dst.1 <= self.contents().len(),
        ensures
            final(dst.0)@ == self.contents().take(dst.1 as int) + dst.full().skip(dst.1 as int),
    {
        self.copy_short_unchecked::<V>(dst);
    }

    /// Fills the nominal bytes of `dst` from the front.
    fn copy_short_unchecked<V: CopyType>(&self, dst: WideBytesMut)
        requires
            self.inv(),
            dst.wf(),
            dst.1 <= self.contents().len(),
        ensures
            final(dst.0)@ == self.contents().take(dst.1 as int) + dst.full().skip(dst.1 as int),
    {
        let mut dst = dst;
        let len = dst.1;
        let nominal = dst.as_nominal_mut();
        self.copy_short_raw::<V>(nominal, len);
        assert(nominal@ =~= nominal@.take(len as int));
    }

    /// * `dst` is valid for `len + WIDE` byte writes.
    /// * `short_len <= ShortLimit::SHORT_LIMIT as usize`
    /// * `short_len <= Self::len()`
    ///
    /// Copies the first `short_len` bytes into `dst`; bytes of `dst` beyond may change.
    fn copy_short_raw<V: CopyType>(&self, dst: &mut [u8], short_len: usize)
        requires
            self.inv(),
            short_len <= self.contents().len(),
            short_len <= old(dst)@.len(),
        ensures
            final(dst)@.len() == old(dst)@.len(),
            forall|i: int|
                short_len + WIDE <= i < old(dst)@.len() ==> #[trigger] final(dst)@[i] == old(dst)@[i],
            final(dst)@.take(short_len as int) == self.contents().take(short_len as int),
    ;
}

impl<T: CopyShort> CopyShort for &mut T {
    fn read_short<V: CopyType>(&mut self, dst: WideBytesMut) {
        (**self).read_short::<V>(dst)
    }

    fn read_short_unchecked<V: CopyType>(&mut self, dst: &mut [u8]) {
        (**self).read_short_unchecked::<V>(dst)
    }

    fn read_short_raw<V: CopyType>(&mut self, dst: &mut [u8], short_len: usize) {
        (**self).read_short_raw::<V>(dst, short_len)
    }

    fn copy_short<V: CopyType>(&self, dst: WideBytesMut) {
        (**self).copy_short::<V>(dst)
    }

    fn copy_short_unchecked<V: CopyType>(&self, dst: WideBytesMut) {
        (**self).copy_short_unchecked::<V>(dst)
    }

    fn copy_short_raw<V: CopyType>(&self, dst: &mut [u8], short_len: usize) {
        (**self).copy_short_raw::<V>(dst, short_len)
    }
}

impl CopyShort for &[u8] {
    /// Only the first `short_len` bytes of `dst` change.
    fn copy_short_raw<V: CopyType>(&self, dst: &mut [u8], short_len: usize)
        ensures
            final(dst)@ == splice(old(dst)@, 0, self@.take(short_len as int)),
    {
        copy_slice(dst, 0, *self, 0, short_len);
        assert(dst@.take(short_len as int) =~= self@.take(short_len as int));
    }
}

} // verus!
