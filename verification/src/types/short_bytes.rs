use vstd::prelude::*;

use core::marker::PhantomData;

use crate::kit::copy::min_len;
use crate::kit::wide::spec_width;
use crate::kit::{CopyType, CopyTypeLong, Width};
use crate::ops::{CopyLong, CopyShort, Len, ShortLimit, Skip};

verus! {

/// Byte wrapper with a maximum length of `T::SHORT_LIMIT` and at least `W::WIDTH` slack bytes.
///
/// Field 0 is the full slice, slack included; field 1 is the nominal length.
pub struct ShortBytes<'a, T: ShortLimit, W: Width>(&'a [u8], usize, PhantomData<T>, PhantomData<W>);

impl<'a, T: ShortLimit, W: Width> ShortBytes<'a, T, W> {
    /// The nominal length is within `T`'s short limit and leaves `W::WIDTH` slack bytes.
    #[verifier::type_invariant]
    spec fn nominal_within(self) -> bool {
        &&& self.1 <= T::spec_short_limit()
        &&& self.1 + spec_width::<W>() <= self.0@.len()
    }

    /// The full slice, slack included.
    pub closed spec fn full(&self) -> Seq<u8> {
        self.0@
    }

    /// The nominal length.
    pub closed spec fn nominal_len(&self) -> nat {
        self.1 as nat
    }

    /// The nominal bytes.
    pub open spec fn nominal(&self) -> Seq<u8> {
        self.full().take(self.nominal_len() as int)
    }

    /// The nominal bytes.
    pub fn as_slice(&self) -> (r: &[u8])
        ensures
            r@ == self.nominal(),
            self.nominal_len() <= self.full().len(),
    {
        proof {
            use_type_invariant(self);
        }
        let (head, _) = self.0.split_at(self.1);
        head
    }
}

impl<'a, T: ShortLimit, W: Width> ShortBytes<'a, T, W> {
    pub fn from_bytes(bytes: &'a [u8], len: usize) -> (r: Self)
        requires
            len <= T::spec_short_limit(),
            len + spec_width::<W>() <= bytes@.len(),
        ensures
            r.full() == bytes@,
            r.nominal_len() == len,
    {
        Self::from_bytes_unchecked(bytes, len)
    }

    pub fn from_bytes_unchecked(bytes: &'a [u8], len: usize) -> (r: Self)
        requires
            len <= T::spec_short_limit(),
            len + spec_width::<W>() <= bytes@.len(),
        ensures
            r.full() == bytes@,
            r.nominal_len() == len,
    {
        ShortBytes(bytes, len, PhantomData, PhantomData)
    }
}

/// The nominal bytes.
impl<'a, T: ShortLimit, W: Width> core::ops::Deref for ShortBytes<'a, T, W> {
    type Target = [u8];

    fn deref(&self) -> (r: &[u8])
        ensures
            r@ == self.nominal(),
    {
        self.as_slice()
    }
}

impl<'a, T: ShortLimit, W: Width> CopyLong for ShortBytes<'a, T, W> {
    /// Copies whole `W::WIDTH` chunks, reaching into the slack of both buffers.
    fn copy_long_raw(&self, dst: &mut [u8], len: usize)
        ensures
            ({
                let room = min_len(self.full().len() as int, old(dst)@.len() as int);
                let n = CopyTypeLong::copied_len(len as int, spec_width::<W>() as int, room);
                &&& len <= n <= room
                &&& final(dst)@ == self.full().take(n) + old(dst)@.skip(n)
            }),
    {
        proof {
            use_type_invariant(self);
            W::lemma_width();
        }
        CopyTypeLong::wide_copy::<W>(self.0, dst, len);
    }
}

impl<'a, T: ShortLimit, W: Width> CopyShort for ShortBytes<'a, T, W> {
    /// Copies whole `W::WIDTH` chunks of strategy `V`, reaching into the slack of both buffers.
    fn copy_short_raw<V: CopyType>(&self, dst: &mut [u8], len: usize)
        ensures
            ({
                let room = min_len(self.full().len() as int, old(dst)@.len() as int);
                let n = V::copied_len(len as int, spec_width::<W>() as int, room);
                &&& len <= n <= room
                &&& final(dst)@ == self.full().take(n) + old(dst)@.skip(n)
            }),
    {
        proof {
            use_type_invariant(self);
            W::lemma_width();
        }
        V::wide_copy::<W>(self.0, dst, len);
    }
}

impl<'a, T: ShortLimit, W: Width> Len for ShortBytes<'a, T, W> {
    open spec fn inv(&self) -> bool {
        true
    }

    open spec fn contents(&self) -> Seq<u8> {
        self.nominal()
    }

    /// The nominal length keeps within the short limit and leaves the slack in place.
    fn len(&self) -> (r: usize)
        ensures
            r <= T::spec_short_limit(),
            r + spec_width::<W>() <= self.full().len(),
    {
        proof {
            use_type_invariant(self);
        }
        self.1
    }
}

impl<'a, T: ShortLimit, W: Width> ShortLimit for ShortBytes<'a, T, W> {
    open spec fn spec_short_limit() -> u32 {
        T::spec_short_limit()
    }

    fn short_limit() -> u32 {
        T::short_limit()
    }
}

impl<'a, T: ShortLimit, W: Width> Skip for ShortBytes<'a, T, W> {
    /// The slack moves along: the full slice loses the same bytes at its start.
    fn skip_unchecked(&mut self, len: usize)
        ensures
            final(self).full() == old(self).full().skip(len as int),
            final(self).nominal_len() == old(self).nominal_len() - len,
    {
        proof {
            use_type_invariant(&*self);
        }
        let n = self.0.len();
        *self = ShortBytes(&self.0[len..n], self.1 - len, PhantomData, PhantomData);
        assert(self.full().take(self.nominal_len() as int) =~= old(self).full().take(
            old(self).nominal_len() as int,
        ).skip(len as int));
    }
}

} // verus!
