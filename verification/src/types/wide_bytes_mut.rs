use vstd::prelude::*;

use crate::kit::copy::{copy_slice, splice};
use crate::kit::WIDE;
use crate::ops::{Len, Skip};

verus! {

/// `&mut [u8]` with at least `WIDE` slack bytes beyond the upper limit.
///
/// Field 0 is the full slice, slack included; field 1 is the nominal length.
pub struct WideBytesMut<'a>(pub &'a mut [u8], pub usize);

impl<'a> WideBytesMut<'a> {
    /// The nominal length leaves `WIDE` slack bytes in the slice.
    pub open spec fn wf(&self) -> bool {
        self.1 + WIDE <= self.0@.len()
    }

    /// The full slice, slack included.
    pub open spec fn full(&self) -> Seq<u8> {
        self.0@
    }

    /// The nominal bytes.
    pub open spec fn nominal(&self) -> Seq<u8> {
        self.0@.take(self.1 as int)
    }

    pub fn from_bytes(bytes: &'a mut [u8], len: usize) -> (r: Self)
        requires
            len + WIDE <= old(bytes)@.len(),
        ensures
            r.wf(),
            r.1 == len,
            r.0@ == old(bytes)@,
            final(r.0)@ == final(bytes)@,
    {
        WideBytesMut(bytes, len)
    }

    /// Writes `src` at `off`, which may reach into the slack.
    pub fn poke_at(&mut self, off: usize, src: &[u8])
        requires
            off + src@.len() <= old(self).0@.len(),
        ensures
            final(self).0@ == splice(old(self).0@, off as int, src@),
            final(self).1 == old(self).1,
            final(final(self).0)@ == final(old(self).0)@,
    {
        copy_slice(self.0, off, src, 0, src.len());
        assert(src@.subrange(0, src@.len() as int) =~= src@);
    }

    /// The full slice, slack included.
    pub fn into_full_slice(self) -> (r: &'a mut [u8])
        ensures
            r@ == self.full(),
            final(r)@ == final(self.0)@,
    {
        self.0
    }

    /// Writes `src`, at most `WIDE` bytes, at the start, which may reach into the slack.
    pub fn poke_data(&mut self, src: &[u8])
        requires
            src@.len() <= WIDE,
            src@.len() <= old(self).0@.len(),
        ensures
            final(self).0@ == splice(old(self).0@, 0, src@),
            final(self).1 == old(self).1,
            final(final(self).0)@ == final(old(self).0)@,
    {
        copy_slice(self.0, 0, src, 0, src.len());
        assert(src@.subrange(0, src@.len() as int) =~= src@);
    }

    /// Writes `src` at the start and moves past it.
    pub fn write_data(&mut self, src: &[u8])
        requires
            old(self).wf(),
            src@.len() <= WIDE,
            src@.len() <= old(self).1,
        ensures
            final(self).wf(),
            final(self).1 == old(self).1 - src@.len(),
            final(self).0@ == old(self).0@.skip(src@.len() as int),
            final(old(self).0)@ == src@ + final(final(self).0)@,
    {
        self.poke_data(src);
        self.skip_unchecked(src.len());
        assert(splice(old(self).0@, 0, src@).take(src@.len() as int) =~= src@);
        assert(splice(old(self).0@, 0, src@).skip(src@.len() as int) =~= old(self).0@.skip(
            src@.len() as int,
        ));
    }

    /// The nominal bytes.
    pub fn as_nominal(&self) -> (r: &[u8])
        requires
            self.wf(),
        ensures
            r@ == self.nominal(),
    {
        let (head, _) = self.0.split_at(self.1);
        head
    }

    /// The nominal bytes, for writing.
    pub fn as_nominal_mut(&mut self) -> (r: &mut [u8])
        requires
            old(self).wf(),
        ensures
            r@ == old(self).nominal(),
            final(self).1 == old(self).1,
            final(self).0@ == final(r)@ + old(self).0@.skip(old(self).1 as int),
            final(final(self).0)@ == final(old(self).0)@,
    {
        let (head, _) = self.0.split_at_mut(self.1);
        head
    }
}

/// The nominal bytes; the whole slice when the nominal length runs past it.
impl<'a> core::ops::Deref for WideBytesMut<'a> {
    type Target = [u8];

    fn deref(&self) -> (r: &[u8])
        ensures
            self.1 <= self.full().len() ==> r@ == self.nominal(),
            self.1 > self.full().len() ==> r@ == self.full(),
    {
        if self.1 <= self.0.len() {
            let (head, _) = self.0.split_at(self.1);
            head
        } else {
            &*self.0
        }
    }
}

impl<'a> Len for WideBytesMut<'a> {
    open spec fn inv(&self) -> bool {
        self.wf()
    }

    open spec fn contents(&self) -> Seq<u8> {
        self.nominal()
    }

    fn len(&self) -> usize {
        self.1
    }
}

impl<'a> Skip for WideBytesMut<'a> {
    /// Also keeps the slack: the full slice loses the same bytes at its start.
    fn skip_unchecked(&mut self, len: usize)
        ensures
            final(self).1 == old(self).1 - len,
            final(self).0@ == old(self).0@.skip(len as int),
            final(old(self).0)@ == old(self).0@.take(len as int) + final(final(self).0)@,
    {
        let mut bytes: &mut [u8] = &mut [];
        core::mem::swap(&mut bytes, &mut self.0);
        let (_, rest) = bytes.split_at_mut(len);
        self.0 = rest;
        self.1 = self.1 - len;
        assert(self.0@.take(self.1 as int) =~= old(self).0@.take(old(self).1 as int).skip(
            len as int,
        ));
    }
}

} // verus!
