use vstd::prelude::*;

use core::marker::PhantomData;

use crate::kit::copy::{chunk_count, copy_slice, copy_within_slice, lemma_count_exact, lemma_count_lower, splice};
use crate::match_kit::ops::{
    byte_of, lemma_byte_of_zero, lemma_xor_bytes, lemma_zero_bytes, load_u64_le, nclz_bytes,
    nctz_bytes,
};
use crate::ops::write_short::{le_bytes, to_le_bytes};
use crate::types::Idx;

use super::ring_box::RingBox;
use super::ring_type::{
    ring_capacity, ring_capacity_u64, ring_geometry, ring_geometry_holds, ring_layout, RingType,
};
use super::ring_view::RingView;

verus! {

/// Bytes a coarse match may run past the limit it was given, beyond its starting offset.
pub const OVERMATCH_LEN: usize = 40;

// Implementation notes:
//
// Hybrid ring buffer.
//
// |tttt|HHHH|...............................................|TTTT|hhhh|S|
// <-------------------------- RING_CAPACITY ---------------------------->
//      <----------------------- RING_SIZE ----------------------->
//      ^ Nominal start (offset RING_LIMIT into the slice)
//
// Tag  | Zone           | Size
// ----------------------------------
// HHHH | head           | RING_LIMIT
// TTTT | tail           | RING_LIMIT
// hhhh | head shadow    | RING_LIMIT
// tttt | tail shadow    | RING_LIMIT
// S    | Slack          | WIDE
/// A ring buffer over borrowed storage laid out as `T` says.
pub struct Ring<'a, T>(pub &'a mut [u8], pub PhantomData<T>);

/// Where a coarse match scan from offset `len` with limit `max` stops looking: one word,
/// then blocks of four words until the next block would start at or past `max`.
pub open spec fn coarse_end(len: int, max: int) -> int {
    len + 8 + 32 * chunk_count(len + 8, max, 32)
}

/// A coarse scan looks no further than `len + OVERMATCH_LEN` bytes past `max`.
pub proof fn lemma_coarse_end_bound(len: int, max: int)
    requires
        0 <= len,
        0 <= max,
    ensures
        coarse_end(len, max) <= max + len + OVERMATCH_LEN,
{
    let a = max - len - 8;
    if max > len + 8 + 32 {
        vstd::arithmetic::div_mod::lemma_fundamental_div_mod(a + 31, 32);
        vstd::arithmetic::div_mod::lemma_mod_pos_bound(a + 31, 32);
    }
}

proof fn lemma_mod_step(a: int, d: int, m: int)
    requires
        m > 0,
    ensures
        ((a % m) + d) % m == (a + d) % m,
{
    vstd::arithmetic::div_mod::lemma_add_mod_noop_right(d, a, m);
}

/// `r` is `a` brought into `[0, m)` by adding `m` at most once.
proof fn lemma_wrap_mod(a: int, m: int, r: int)
    requires
        m > 0,
        0 <= r < m,
        r == a || r == a + m,
    ensures
        r == a % m,
{
    if r == a {
        vstd::arithmetic::div_mod::lemma_fundamental_div_mod_converse(a, m, 0, r);
    } else {
        vstd::arithmetic::div_mod::lemma_fundamental_div_mod_converse(a, m, -1, r);
    }
}

/// Whether `n` bytes of `buf` from `a` equal those from `b`.
fn ranges_equal(buf: &[u8], a: usize, b: usize, n: usize) -> (r: bool)
    requires
        a + n <= buf@.len(),
        b + n <= buf@.len(),
    ensures
        r == (buf@.subrange(a as int, a + n) == buf@.subrange(b as int, b + n)),
{
    let blen = buf.len();
    let mut i: usize = 0;
    while i < n
        invariant
            i <= n,
            blen == buf@.len(),
            a + n <= buf@.len(),
            b + n <= buf@.len(),
            forall|j: int| 0 <= j < i ==> #[trigger] buf@[a + j] == buf@[b + j],
        decreases n - i,
    {
        if buf[a + i] != buf[b + i] {
            assert(buf@.subrange(a as int, a + n)[i as int] != buf@.subrange(b as int, b + n)[i as int]);
            return false;
        }
        i += 1;
    }
    assert forall|j: int| 0 <= j < n implies #[trigger] buf@.subrange(a as int, a + n)[j] == buf@.subrange(
        b as int,
        b + n,
    )[j] by {
        assert(buf@[a + j] == buf@[b + j]);
    }
    assert(buf@.subrange(a as int, a + n) =~= buf@.subrange(b as int, b + n));
    true
}

/// The nominal bytes, the ring proper; empty for storage that does not have the layout of `T`.
impl<'a, T: RingType> core::ops::Deref for Ring<'a, T> {
    type Target = [u8];

    fn deref(&self) -> (r: &[u8])
        ensures
            self.wf() ==> r@ == self.nominal(),
            !self.wf() ==> r@.len() == 0,
    {
        if ring_geometry_holds::<T>() && self.0.len() as u64 == ring_capacity_u64::<T>() {
            self.nominal_slice()
        } else {
            &self.0[0..0]
        }
    }
}

impl<'a, T: RingType> Ring<'a, T> {
    pub open spec fn size() -> int {
        T::RING_SIZE as int
    }

    pub open spec fn limit() -> int {
        T::RING_LIMIT as int
    }

    /// The storage has the layout of `T`.
    pub open spec fn wf(&self) -> bool {
        &&& ring_geometry::<T>()
        &&& self.0@.len() == ring_capacity::<T>()
    }

    /// The whole storage, shadows and slack included.
    pub open spec fn bytes(&self) -> Seq<u8> {
        self.0@
    }

    /// The nominal bytes, the ring proper.
    pub open spec fn nominal(&self) -> Seq<u8> {
        self.0@.subrange(Self::limit(), Self::limit() + Self::size())
    }

    /// The first `len` bytes of the head are copied into the head shadow.
    pub open spec fn head_shadow_holds(&self, len: int) -> bool {
        self.0@.subrange(Self::limit(), Self::limit() + len) == self.0@.subrange(
            Self::limit() + Self::size(),
            Self::limit() + Self::size() + len,
        )
    }

    /// The first `len` bytes of the tail are copied into the tail shadow.
    pub open spec fn tail_shadow_holds(&self, len: int) -> bool {
        self.0@.subrange(0, len) == self.0@.subrange(Self::size(), Self::size() + len)
    }

    pub fn from(ring_box: &'a mut RingBox<T>) -> (r: Self)
        requires
            old(ring_box).wf(),
        ensures
            r.wf(),
            r.0@ == old(ring_box).0@,
            final(r.0)@ == final(ring_box).0@,
    {
        Ring(ring_box.0.as_mut_slice(), PhantomData)
    }

    /// The nominal bytes.
    pub fn nominal_slice(&self) -> (r: &[u8])
        requires
            self.wf(),
        ensures
            r@ == self.nominal(),
    {
        let (size, limit) = ring_layout::<T>();
        &self.0[limit..limit + size]
    }

    /// The nominal bytes, for writing.
    pub fn nominal_slice_mut(&mut self) -> (r: &mut [u8])
        requires
            old(self).wf(),
        ensures
            r@ == old(self).nominal(),
            final(self).0@ == old(self).0@.take(Self::limit()) + final(r)@ + old(self).0@.skip(
                Self::limit() + Self::size(),
            ),
            final(final(self).0)@ == final(old(self).0)@,
    {
        let (size, limit) = ring_layout::<T>();
        let (_, rest) = self.0.split_at_mut(limit);
        let (nominal, _) = rest.split_at_mut(size);
        nominal
    }

    pub fn head_shadowed(&self) -> (r: bool)
        requires
            self.wf(),
        ensures
            r == self.head_shadow_holds(Self::limit()),
    {
        let (_, limit) = ring_layout::<T>();
        self.head_shadowed_len(limit)
    }

    pub fn head_shadowed_len(&self, len: usize) -> (r: bool)
        requires
            self.wf(),
            len <= Self::limit(),
        ensures
            r == self.head_shadow_holds(len as int),
    {
        let (size, limit) = ring_layout::<T>();
        ranges_equal(self.0, limit, limit + size, len)
    }

    pub fn head_copy_out(&mut self)
        requires
            old(self).wf(),
        ensures
            final(self).wf(),
            final(self).0@ == splice(
                old(self).0@,
                Self::limit() + Self::size(),
                old(self).0@.subrange(Self::limit(), 2 * Self::limit()),
            ),
            final(self).head_shadow_holds(Self::limit()),
            final(self).nominal() == old(self).nominal(),
            final(final(self).0)@ == final(old(self).0)@,
    {
        let (_, limit) = ring_layout::<T>();
        self.head_copy_out_len(limit);
    }

    /// Copy head -> head shadow
    pub fn head_copy_out_len(&mut self, len: usize)
        requires
            old(self).wf(),
            len <= Self::limit(),
        ensures
            final(self).wf(),
            final(self).0@ == splice(
                old(self).0@,
                Self::limit() + Self::size(),
                old(self).0@.subrange(Self::limit(), Self::limit() + len),
            ),
            final(self).head_shadow_holds(len as int),
            final(self).nominal() == old(self).nominal(),
            final(final(self).0)@ == final(old(self).0)@,
    {
        let (size, limit) = ring_layout::<T>();
        copy_within_slice(self.0, limit, limit + size, len);
        assert(self.0@.subrange(limit as int, limit + len) =~= self.0@.subrange(
            (limit + size) as int,
            limit + size + len,
        ));
        assert(self.nominal() =~= old(self).nominal());
    }

    pub fn head_copy_in(&mut self)
        requires
            old(self).wf(),
        ensures
            final(self).wf(),
            final(self).0@ == splice(
                old(self).0@,
                Self::limit(),
                old(self).0@.subrange(
                    Self::limit() + Self::size(),
                    2 * Self::limit() + Self::size(),
                ),
            ),
            final(self).head_shadow_holds(Self::limit()),
            final(final(self).0)@ == final(old(self).0)@,
    {
        let (_, limit) = ring_layout::<T>();
        self.head_copy_in_len(limit);
    }

    /// Copy head shadow -> head
    pub fn head_copy_in_len(&mut self, len: usize)
        requires
            old(self).wf(),
            len <= Self::limit(),
        ensures
            final(self).wf(),
            final(self).0@ == splice(
                old(self).0@,
                Self::limit(),
                old(self).0@.subrange(Self::limit() + Self::size(), Self::limit() + Self::size() + len),
            ),
            final(self).head_shadow_holds(len as int),
            final(final(self).0)@ == final(old(self).0)@,
    {
        let (size, limit) = ring_layout::<T>();
        copy_within_slice(self.0, limit + size, limit, len);
        assert(self.0@.subrange(limit as int, limit + len) =~= self.0@.subrange(
            (limit + size) as int,
            limit + size + len,
        ));
    }

    pub fn tail_shadowed(&self) -> (r: bool)
        requires
            self.wf(),
        ensures
            r == self.tail_shadow_holds(Self::limit()),
    {
        let (_, limit) = ring_layout::<T>();
        self.tail_shadowed_len(limit)
    }

    pub fn tail_shadowed_len(&self, len: usize) -> (r: bool)
        requires
            self.wf(),
            len <= Self::limit(),
        ensures
            r == self.tail_shadow_holds(len as int),
    {
        let (size, limit) = ring_layout::<T>();
        let nominal_start = limit;
        let tail_shadow_start: usize = 0;
        let tail_start = nominal_start + size - limit;
        ranges_equal(self.0, tail_shadow_start, tail_start, len)
    }

    pub fn tail_copy_out(&mut self)
        requires
            old(self).wf(),
        ensures
            final(self).wf(),
            final(self).0@ == splice(
                old(self).0@,
                0,
                old(self).0@.subrange(Self::size(), Self::size() + Self::limit()),
            ),
            final(self).tail_shadow_holds(Self::limit()),
            final(self).nominal() == old(self).nominal(),
            final(final(self).0)@ == final(old(self).0)@,
    {
        let (_, limit) = ring_layout::<T>();
        self.tail_copy_out_len(limit);
    }

    /// Copy tail -> tail shadow
    pub fn tail_copy_out_len(&mut self, len: usize)
        requires
            old(self).wf(),
            len <= Self::limit(),
        ensures
            final(self).wf(),
            final(self).0@ == splice(
                old(self).0@,
                0,
                old(self).0@.subrange(Self::size(), Self::size() + len),
            ),
            final(self).tail_shadow_holds(len as int),
            final(self).nominal() == old(self).nominal(),
            final(final(self).0)@ == final(old(self).0)@,
    {
        let (size, limit) = ring_layout::<T>();
        let nominal_start = limit;
        let tail_shadow_start: usize = 0;
        let tail_start = nominal_start + size - limit;
        copy_within_slice(self.0, tail_start, tail_shadow_start, len);
        assert(self.0@.subrange(0, len as int) =~= self.0@.subrange(size as int, size + len));
        assert(self.nominal() =~= old(self).nominal());
    }

    pub fn tail_copy_in(&mut self)
        requires
            old(self).wf(),
        ensures
            final(self).wf(),
            final(self).0@ == splice(
                old(self).0@,
                Self::size(),
                old(self).0@.subrange(0, Self::limit()),
            ),
            final(self).tail_shadow_holds(Self::limit()),
            final(final(self).0)@ == final(old(self).0)@,
    {
        let (_, limit) = ring_layout::<T>();
        self.tail_copy_in_len(limit);
    }

    /// Copy tail shadow -> tail
    pub fn tail_copy_in_len(&mut self, len: usize)
        requires
            old(self).wf(),
            len <= Self::limit(),
        ensures
            final(self).wf(),
            final(self).0@ == splice(old(self).0@, Self::size(), old(self).0@.subrange(0, len as int)),
            final(self).tail_shadow_holds(len as int),
            final(final(self).0)@ == final(old(self).0)@,
    {
        let (size, limit) = ring_layout::<T>();
        let nominal_start = limit;
        let tail_shadow_start: usize = 0;
        let tail_start = nominal_start + size - limit;
        copy_within_slice(self.0, tail_shadow_start, tail_start, len);
        assert(self.0@.subrange(0, len as int) =~= self.0@.subrange(size as int, size + len));
    }

    pub fn view(&self, head: Idx, tail: Idx) -> (r: RingView<'_, T>)
        ensures
            r.bytes@ == self.bytes(),
            r.head == head,
            r.tail == tail,
    {
        RingView::new(&*self.0, head, tail)
    }

    /// The four bytes at `idx` on the ring, as a little-endian word; they may run into the
    /// head shadow.
    pub fn get_u32(&self, idx: Idx) -> (r: u32)
        requires
            self.wf(),
        ensures
            le_bytes(r as nat, 4) == self.bytes().subrange(
                Self::limit() + idx.value() as int % Self::size(),
                Self::limit() + idx.value() as int % Self::size() + 4,
            ),
    {
        let (size, limit) = ring_layout::<T>();
        let index = idx.get() % (size as u32);
        let p = limit + index as usize;
        let b0 = self.0[p] as u32;
        let b1 = self.0[p + 1] as u32;
        let b2 = self.0[p + 2] as u32;
        let b3 = self.0[p + 3] as u32;
        let w = b0 | (b1 << 8) | (b2 << 16) | (b3 << 24);
        assert(b0 < 256 && b1 < 256 && b2 < 256 && b3 < 256 && w == b0 | (b1 << 8) | (b2 << 16) | (
        b3 << 24) ==> w % 256 == b0 && (w / 256) % 256 == b1 && (w / 256 / 256) % 256 == b2 && (w
            / 256 / 256 / 256) % 256 == b3 && w / 256 / 256 / 256 / 256 == 0) by (bit_vector);
        proof {
            reveal_with_fuel(le_bytes, 5);
            assert(le_bytes(w as nat, 4) =~= self.0@.subrange(p as int, p + 4));
        }
        w
    }

    /// Writes `u` little-endian at nominal position `index`; it may run into the head shadow.
    pub fn set_quad_index(&mut self, index: usize, u: u32)
        requires
            old(self).wf(),
            index < Self::size(),
        ensures
            final(self).wf(),
            final(self).0@ == splice(old(self).0@, Self::limit() + index, le_bytes(u as nat, 4)),
            final(final(self).0)@ == final(old(self).0)@,
    {
        let (_, limit) = ring_layout::<T>();
        let bytes = to_le_bytes(u as u128, 4);
        copy_slice(self.0, limit + index, bytes.as_slice(), 0, 4);
        assert(bytes@.subrange(0, 4) =~= bytes@);
    }
    /// A quad written at nominal position `index` reads back as the same value from an
    /// index that falls on that position: `get_u32` after `set_quad_index` gives `u`.
    pub proof fn lemma_quad_round_trip(before: Seq<u8>, index: int, idx: Idx, u: u32, r: u32)
        requires
            ring_geometry::<T>(),
            before.len() == ring_capacity::<T>(),
            0 <= index < Self::size(),
            idx.value() as int % Self::size() == index,
            le_bytes(r as nat, 4) == splice(before, Self::limit() + index, le_bytes(u as nat, 4)).subrange(
                Self::limit() + idx.value() as int % Self::size(),
                Self::limit() + idx.value() as int % Self::size() + 4,
            ),
        ensures
            r == u,
    {
        let at = Self::limit() + index;
        crate::ops::write_short::lemma_le_bytes_prefix(u as nat, 4, 4);
        assert(splice(before, at, le_bytes(u as nat, 4)).subrange(at, at + 4) =~= le_bytes(
            u as nat,
            4,
        ));
        reveal_with_fuel(crate::ops::write_short::pow256, 5);
        crate::ops::write_short::lemma_le_bytes_injective(r as nat, u as nat, 4);
    }

    /// The byte at position `i` of the ring, counted modulo its size.
    pub open spec fn ring_byte(&self, i: int) -> u8 {
        self.0@[Self::limit() + i % Self::size()]
    }

    /// `r` is what a coarse forward match between ring positions `p0` and `p1` from offset
    /// `len` with limit `max` gives: the first offset in `[len, coarse_end)` where the bytes
    /// differ, or `max` when there is none.
    pub open spec fn coarse_inc(&self, p0: int, p1: int, len: int, max: int, r: int) -> bool {
        ||| {
            &&& len <= r < coarse_end(len, max)
            &&& forall|k: int|
                len <= k < r ==> #[trigger] self.ring_byte(p0 + k) == self.ring_byte(p1 + k)
            &&& self.ring_byte(p0 + r) != self.ring_byte(p1 + r)
        }
        ||| {
            &&& r == max
            &&& forall|k: int|
                len <= k < coarse_end(len, max) ==> #[trigger] self.ring_byte(p0 + k)
                    == self.ring_byte(p1 + k)
        }
    }

    /// `r` is what a coarse backward match before ring positions `p0` and `p1` from offset
    /// `len` with limit `max` gives; offset `k` compares the bytes at `p0 - 1 - k` and
    /// `p1 - 1 - k`.
    pub open spec fn coarse_dec(&self, p0: int, p1: int, len: int, max: int, r: int) -> bool {
        ||| {
            &&& len <= r < coarse_end(len, max)
            &&& forall|k: int|
                len <= k < r ==> #[trigger] self.ring_byte(p0 - 1 - k) == self.ring_byte(
                    p1 - 1 - k,
                )
            &&& self.ring_byte(p0 - 1 - r) != self.ring_byte(p1 - 1 - r)
        }
        ||| {
            &&& r == max
            &&& forall|k: int|
                len <= k < coarse_end(len, max) ==> #[trigger] self.ring_byte(p0 - 1 - k)
                    == self.ring_byte(p1 - 1 - k)
        }
    }

    /// Positions that agree modulo the size hold the same byte.
    proof fn lemma_ring_byte_congruent(&self, a: int, b: int, c: int)
        requires
            self.wf(),
            a % Self::size() == b % Self::size(),
        ensures
            self.ring_byte(a + c) == self.ring_byte(b + c),
    {
        lemma_mod_step(a, c, Self::size());
        lemma_mod_step(b, c, Self::size());
    }

    /// With the head shadow in place, storage byte `limit + q` is ring byte `q` for `q` up
    /// to `size + h`.
    proof fn lemma_storage_byte(&self, q: int, h: int)
        requires
            self.wf(),
            0 <= q < Self::size() + h,
            h <= Self::limit(),
            self.head_shadow_holds(h),
        ensures
            self.bytes()[Self::limit() + q] == self.ring_byte(q),
    {
        let s = Self::size();
        let l = Self::limit();
        if q < s {
            vstd::arithmetic::div_mod::lemma_small_mod(q as nat, s as nat);
        } else {
            vstd::arithmetic::div_mod::lemma_fundamental_div_mod_converse(q, s, 1, q - s);
            assert(self.0@.subrange(l, l + h)[q - s] == self.0@.subrange(l + s, l + s + h)[q - s]);
        }
    }

    /// The bytes of a word read at storage offset `limit + idx + off` are ring bytes.
    proof fn lemma_word_bytes(&self, w: u64, idx: int, off: int, h: int)
        requires
            self.wf(),
            0 <= idx < Self::size(),
            0 <= off,
            off + 8 <= h <= Self::limit(),
            self.head_shadow_holds(h),
            forall|t: int|
                0 <= t < 8 ==> #[trigger] byte_of(w, t) == self.bytes()[Self::limit() + idx + off
                    + t] as u64,
        ensures
            forall|t: int|
                0 <= t < 8 ==> #[trigger] byte_of(w, t) == self.ring_byte(idx + off + t) as u64,
    {
        assert forall|t: int| 0 <= t < 8 implies #[trigger] byte_of(w, t) == self.ring_byte(
            idx + off + t,
        ) as u64 by {
            self.lemma_storage_byte(idx + off + t, h);
            assert(Self::limit() + idx + off + t == Self::limit() + (idx + off + t));
        }
    }

    /// May overmatch `max` by `LEN + OVERMATCH_LEN` bytes.
    #[verifier::spinoff_prover]
    #[verifier::rlimit(40)]
    pub fn match_inc_coarse<const LEN: usize>(&self, idxs: (Idx, Idx), max: usize) -> (r: usize)
        requires
            self.wf(),
            LEN + OVERMATCH_LEN <= Self::limit(),
            self.head_shadow_holds(LEN + OVERMATCH_LEN),
            max + LEN + 80 <= usize::MAX,
        ensures
            self.coarse_inc(
                idxs.0.value() as int,
                idxs.1.value() as int,
                LEN as int,
                max as int,
                r as int,
            ),
            r <= max + LEN + OVERMATCH_LEN,
    {
        proof {
            lemma_coarse_end_bound(LEN as int, max as int);
        }
        let (size, limit) = ring_layout::<T>();
        let i0 = (idxs.0.get() as usize) % size;
        let i1 = (idxs.1.get() as usize) % size;
        let ghost p0 = idxs.0.value() as int;
        let ghost p1 = idxs.1.value() as int;
        let ghost h = LEN + OVERMATCH_LEN;
        let u_0 = load_u64_le(self.0, limit + i0 + LEN);
        let u_1 = load_u64_le(self.0, limit + i1 + LEN);
        proof {
            self.lemma_word_bytes(u_0, i0 as int, LEN as int, h as int);
            self.lemma_word_bytes(u_1, i1 as int, LEN as int, h as int);
            vstd::arithmetic::div_mod::lemma_mod_twice(p0, size as int);
            vstd::arithmetic::div_mod::lemma_mod_twice(p1, size as int);
            lemma_count_lower(LEN + 8, max as int, 32, 0);
        }
        let x = u_0 ^ u_1;
        if x != 0 {
            let n = nclz_bytes(x);
            proof {
                if n == 8 {
                    lemma_zero_bytes(x);
                }
                assert forall|k: int| LEN <= k < LEN + n implies #[trigger] self.ring_byte(p0 + k)
                    == self.ring_byte(p1 + k) by {
                    let t = k - LEN;
                    lemma_xor_bytes(u_0, u_1, t);
                    assert(byte_of(x, t) == 0);
                    assert(i0 + LEN + t == i0 + k);
                    assert(i1 + LEN + t == i1 + k);
                    self.lemma_ring_byte_congruent(i0 as int, p0, k);
                    self.lemma_ring_byte_congruent(i1 as int, p1, k);
                }
                let t = n as int;
                lemma_xor_bytes(u_0, u_1, t);
                self.lemma_ring_byte_congruent(i0 as int, p0, LEN + t);
                self.lemma_ring_byte_congruent(i1 as int, p1, LEN + t);
            }
            LEN + n as usize
        } else {
            proof {
                assert forall|k: int| LEN <= k < LEN + 8 implies #[trigger] self.ring_byte(i0 + k)
                    == self.ring_byte(i1 + k) by {
                    let t = k - LEN;
                    lemma_xor_bytes(u_0, u_1, t);
                    lemma_byte_of_zero(t);
                    assert(i0 + LEN + t == i0 + k);
                    assert(i1 + LEN + t == i1 + k);
                }
            }
            let r = self.match_inc_coarse_cont::<LEN>((i0, i1), max);
            proof {
                let e = coarse_end(LEN as int, max as int);
                self.lemma_ring_byte_congruent(i0 as int, p0, r as int);
                self.lemma_ring_byte_congruent(i1 as int, p1, r as int);
                assert forall|k: int|
                    LEN <= k < e && self.ring_byte(i0 + k) == self.ring_byte(i1 + k) implies
                    #[trigger] self.ring_byte(p0 + k) == self.ring_byte(p1 + k) by {
                    self.lemma_ring_byte_congruent(i0 as int, p0, k);
                    self.lemma_ring_byte_congruent(i1 as int, p1, k);
                }
            }
            r
        }
    }

    #[verifier::spinoff_prover]
    #[verifier::rlimit(40)]
    fn match_inc_coarse_cont<const LEN: usize>(&self, indexes: (usize, usize), max: usize) -> (r:
        usize)
        requires
            self.wf(),
            LEN + OVERMATCH_LEN <= Self::limit(),
            self.head_shadow_holds(LEN + OVERMATCH_LEN),
            max + LEN + 80 <= usize::MAX,
            indexes.0 < Self::size(),
            indexes.1 < Self::size(),
            forall|k: int|
                LEN <= k < LEN + 8 ==> #[trigger] self.ring_byte(indexes.0 + k) == self.ring_byte(
                    indexes.1 + k,
                ),
        ensures
            self.coarse_inc(
                indexes.0 as int,
                indexes.1 as int,
                LEN as int,
                max as int,
                r as int,
            ),
    {
        let (size, limit) = ring_layout::<T>();
        let ghost h = LEN + OVERMATCH_LEN;
        let ghost q0 = indexes.0 as int;
        let ghost q1 = indexes.1 as int;
        let ghost start = LEN + 8;
        let mut idx = indexes;
        let mut len = LEN + 8;
        let ghost mut j: int = 0;
        proof {
            vstd::arithmetic::div_mod::lemma_small_mod(q0 as nat, size as nat);
            vstd::arithmetic::div_mod::lemma_small_mod(q1 as nat, size as nat);
        }
        loop
            invariant
                self.wf(),
                size == Self::size(),
                limit == Self::limit(),
                LEN + OVERMATCH_LEN <= Self::limit(),
                self.head_shadow_holds(h),
                h == LEN + OVERMATCH_LEN,
                start == LEN + 8,
                max + LEN + 80 <= usize::MAX,
                q0 == indexes.0,
                q1 == indexes.1,
                j >= 0,
                len == LEN + 8 + 32 * j,
                j == 0 || start + 32 * j < max,
                idx.0 < size,
                idx.1 < size,
                idx.0 as int % Self::size() == (q0 + 32 * j) % Self::size(),
                idx.1 as int % Self::size() == (q1 + 32 * j) % Self::size(),
                forall|k: int|
                    LEN <= k < len ==> #[trigger] self.ring_byte(q0 + k) == self.ring_byte(q1 + k),
            decreases max + 32 - len,
        {
            proof {
                lemma_count_lower(start, max as int, 32, j);
            }
            let mut i: usize = 0;
            while i < 4
                invariant
                    self.wf(),
                    size == Self::size(),
                    limit == Self::limit(),
                    LEN + OVERMATCH_LEN <= Self::limit(),
                    self.head_shadow_holds(h),
                    h == LEN + OVERMATCH_LEN,
                    start == LEN + 8,
                    max + LEN + 80 <= usize::MAX,
                    j >= 0,
                    len == LEN + 8 + 32 * j,
                    j == 0 || start + 32 * j < max,
                    chunk_count(start, max as int, 32) >= j + 1,
                    q0 == indexes.0,
                    q1 == indexes.1,
                    idx.0 < size,
                    idx.1 < size,
                    idx.0 as int % Self::size() == (q0 + 32 * j) % Self::size(),
                    idx.1 as int % Self::size() == (q1 + 32 * j) % Self::size(),
                    i <= 4,
                    forall|k: int|
                        LEN <= k < len + 8 * i ==> #[trigger] self.ring_byte(q0 + k)
                            == self.ring_byte(q1 + k),
                decreases 4 - i,
            {
                let off = LEN + 8 + i * 8;
                let u_0 = load_u64_le(self.0, limit + idx.0 + off);
                let u_1 = load_u64_le(self.0, limit + idx.1 + off);
                proof {
                    self.lemma_word_bytes(u_0, idx.0 as int, off as int, h as int);
                    self.lemma_word_bytes(u_1, idx.1 as int, off as int, h as int);
                }
                let x = u_0 ^ u_1;
                if x != 0 {
                    let n = nclz_bytes(x);
                    proof {
                        if n == 8 {
                            lemma_zero_bytes(x);
                        }
                        assert forall|k: int| LEN <= k < len + 8 * i + n implies #[trigger]
                            self.ring_byte(q0 + k) == self.ring_byte(q1 + k) by {
                            if k >= len + 8 * i {
                                let t = k - len - 8 * i;
                                lemma_xor_bytes(u_0, u_1, t);
                                assert(byte_of(x, t) == 0);
                                self.lemma_ring_byte_congruent(idx.0 as int, q0 + 32 * j, off + t);
                                self.lemma_ring_byte_congruent(idx.1 as int, q1 + 32 * j, off + t);
                                assert(q0 + 32 * j + (off + t) == q0 + k);
                                assert(q1 + 32 * j + (off + t) == q1 + k);
                            }
                        }
                        let t = n as int;
                        lemma_xor_bytes(u_0, u_1, t);
                        self.lemma_ring_byte_congruent(idx.0 as int, q0 + 32 * j, off + t);
                        self.lemma_ring_byte_congruent(idx.1 as int, q1 + 32 * j, off + t);
                        assert(q0 + 32 * j + (off + t) == q0 + (len + 8 * i + t));
                        assert(q1 + 32 * j + (off + t) == q1 + (len + 8 * i + t));
                    }
                    return len + i * 8 + n as usize;
                }
                proof {
                    assert forall|k: int| LEN <= k < len + 8 * i + 8 implies #[trigger]
                        self.ring_byte(q0 + k) == self.ring_byte(q1 + k) by {
                        if k >= len + 8 * i {
                            let t = k - len - 8 * i;
                            lemma_xor_bytes(u_0, u_1, t);
                            lemma_byte_of_zero(t);
                            self.lemma_ring_byte_congruent(idx.0 as int, q0 + 32 * j, off + t);
                            self.lemma_ring_byte_congruent(idx.1 as int, q1 + 32 * j, off + t);
                            assert(q0 + 32 * j + (off + t) == q0 + k);
                            assert(q1 + 32 * j + (off + t) == q1 + k);
                        }
                    }
                }
                i += 1;
            }
            if len + 32 >= max {
                proof {
                    lemma_count_exact(start, max as int, 32, j);
                }
                return max;
            }
            let ghost prev0 = idx.0 as int;
            let ghost prev1 = idx.1 as int;
            len += 32;
            idx = ((idx.0 + 32) % size, (idx.1 + 32) % size);
            proof {
                let m = Self::size();
                vstd::arithmetic::div_mod::lemma_small_mod(prev0 as nat, m as nat);
                vstd::arithmetic::div_mod::lemma_small_mod(prev1 as nat, m as nat);
                vstd::arithmetic::div_mod::lemma_small_mod(idx.0 as nat, m as nat);
                vstd::arithmetic::div_mod::lemma_small_mod(idx.1 as nat, m as nat);
                lemma_mod_step(q0 + 32 * j, 32, m);
                lemma_mod_step(q1 + 32 * j, 32, m);
                j = j + 1;
            }
        }
    }
    /// May overmatch `max` by `LEN + OVERMATCH_LEN` bytes.
    #[verifier::spinoff_prover]
    #[verifier::rlimit(40)]
    pub fn match_dec_coarse<const LEN: usize>(&self, idxs: (Idx, Idx), max: usize) -> (r: usize)
        requires
            self.wf(),
            LEN + OVERMATCH_LEN <= Self::limit(),
            self.head_shadow_holds(LEN + OVERMATCH_LEN),
            max + LEN + 80 <= usize::MAX,
        ensures
            self.coarse_dec(
                idxs.0.value() as int,
                idxs.1.value() as int,
                LEN as int,
                max as int,
                r as int,
            ),
            r <= max + LEN + OVERMATCH_LEN,
    {
        proof {
            lemma_coarse_end_bound(LEN as int, max as int);
        }
        let (size, limit) = ring_layout::<T>();
        let off = LEN + OVERMATCH_LEN;
        let ghost h = off as int;
        let ghost p0 = idxs.0.value() as int;
        let ghost p1 = idxs.1.value() as int;
        let r0 = (idxs.0.get() as usize) % size;
        let r1 = (idxs.1.get() as usize) % size;
        let i0 = if r0 >= off {
            r0 - off
        } else {
            r0 + (size - off)
        };
        let i1 = if r1 >= off {
            r1 - off
        } else {
            r1 + (size - off)
        };
        let ghost b0 = i0 + h;
        let ghost b1 = i1 + h;
        proof {
            let m = Self::size();
            lemma_wrap_mod(r0 - h, m, i0 as int);
            lemma_wrap_mod(r1 - h, m, i1 as int);
            lemma_mod_step(p0, -h, m);
            lemma_mod_step(p1, -h, m);
            lemma_mod_step(p0 - h, h, m);
            lemma_mod_step(p1 - h, h, m);
            assert(b0 % m == p0 % m);
            assert(b1 % m == p1 % m);
            lemma_count_lower(LEN + 8, max as int, 32, 0);
        }
        let u_0 = load_u64_le(self.0, limit + i0 + 32);
        let u_1 = load_u64_le(self.0, limit + i1 + 32);
        proof {
            self.lemma_word_bytes(u_0, i0 as int, 32, h);
            self.lemma_word_bytes(u_1, i1 as int, 32, h);
        }
        let x = u_0 ^ u_1;
        if x != 0 {
            let n = nctz_bytes(x);
            proof {
                if n == 8 {
                    assert forall|t: int| 0 <= t < 8 implies #[trigger] byte_of(x, t) == 0 by {
                        assert(byte_of(x, 7 - (7 - t)) == 0);
                    }
                    lemma_zero_bytes(x);
                }
                assert forall|k: int| LEN <= k < LEN + n implies #[trigger] self.ring_byte(
                    p0 - 1 - k,
                ) == self.ring_byte(p1 - 1 - k) by {
                    let t = 7 - (k - LEN);
                    lemma_xor_bytes(u_0, u_1, t);
                    assert(byte_of(x, 7 - (k - LEN)) == 0);
                    assert(i0 + 32 + t == b0 + (-1 - k));
                    assert(i1 + 32 + t == b1 + (-1 - k));
                    self.lemma_ring_byte_congruent(b0, p0, -1 - k);
                    self.lemma_ring_byte_congruent(b1, p1, -1 - k);
                }
                let k = LEN + n;
                let t = 7 - n as int;
                lemma_xor_bytes(u_0, u_1, t);
                assert(i0 + 32 + t == b0 + (-1 - k));
                assert(i1 + 32 + t == b1 + (-1 - k));
                self.lemma_ring_byte_congruent(b0, p0, -1 - k);
                self.lemma_ring_byte_congruent(b1, p1, -1 - k);
            }
            LEN + n as usize
        } else {
            proof {
                assert forall|k: int| LEN <= k < LEN + 8 implies #[trigger] self.ring_byte(
                    i0 + h - 1 - k,
                ) == self.ring_byte(i1 + h - 1 - k) by {
                    let t = 7 - (k - LEN);
                    lemma_xor_bytes(u_0, u_1, t);
                    lemma_byte_of_zero(t);
                    assert(i0 + 32 + t == i0 + h - 1 - k);
                    assert(i1 + 32 + t == i1 + h - 1 - k);
                }
            }
            let r = self.match_dec_cont::<LEN>((i0, i1), max);
            proof {
                let e = coarse_end(LEN as int, max as int);
                self.lemma_ring_byte_congruent(b0, p0, -1 - r);
                self.lemma_ring_byte_congruent(b1, p1, -1 - r);
                assert(b0 - 1 - r == b0 + (-1 - r));
                assert(b1 - 1 - r == b1 + (-1 - r));
                assert forall|k: int|
                    LEN <= k < e && self.ring_byte(b0 - 1 - k) == self.ring_byte(b1 - 1 - k)
                        implies #[trigger] self.ring_byte(p0 - 1 - k) == self.ring_byte(
                    p1 - 1 - k,
                ) by {
                    self.lemma_ring_byte_congruent(b0, p0, -1 - k);
                    self.lemma_ring_byte_congruent(b1, p1, -1 - k);
                    assert(b0 - 1 - k == b0 + (-1 - k));
                    assert(b1 - 1 - k == b1 + (-1 - k));
                }
            }
            r
        }
    }

    #[verifier::spinoff_prover]
    #[verifier::rlimit(40)]
    fn match_dec_cont<const LEN: usize>(&self, indexes: (usize, usize), max: usize) -> (r: usize)
        requires
            self.wf(),
            LEN + OVERMATCH_LEN <= Self::limit(),
            self.head_shadow_holds(LEN + OVERMATCH_LEN),
            max + LEN + 80 <= usize::MAX,
            indexes.0 < Self::size(),
            indexes.1 < Self::size(),
            forall|k: int|
                LEN <= k < LEN + 8 ==> #[trigger] self.ring_byte(
                    indexes.0 + LEN + OVERMATCH_LEN - 1 - k,
                ) == self.ring_byte(indexes.1 + LEN + OVERMATCH_LEN - 1 - k),
        ensures
            self.coarse_dec(
                indexes.0 + LEN + OVERMATCH_LEN,
                indexes.1 + LEN + OVERMATCH_LEN,
                LEN as int,
                max as int,
                r as int,
            ),
    {
        let (size, limit) = ring_layout::<T>();
        let ghost h = LEN + OVERMATCH_LEN;
        let ghost q0 = indexes.0 as int;
        let ghost q1 = indexes.1 as int;
        let ghost b0 = q0 + h;
        let ghost b1 = q1 + h;
        let ghost start = LEN + 8;
        let mut idx = indexes;
        let mut len = LEN + 8;
        let ghost mut j: int = 0;
        proof {
            vstd::arithmetic::div_mod::lemma_small_mod(q0 as nat, size as nat);
            vstd::arithmetic::div_mod::lemma_small_mod(q1 as nat, size as nat);
            assert forall|k: int| LEN <= k < len implies #[trigger] self.ring_byte(b0 - 1 - k)
                == self.ring_byte(b1 - 1 - k) by {
                assert(b0 - 1 - k == indexes.0 + LEN + OVERMATCH_LEN - 1 - k);
                assert(b1 - 1 - k == indexes.1 + LEN + OVERMATCH_LEN - 1 - k);
            }
        }
        loop
            invariant
                self.wf(),
                size == Self::size(),
                limit == Self::limit(),
                LEN + OVERMATCH_LEN <= Self::limit(),
                self.head_shadow_holds(h),
                h == LEN + OVERMATCH_LEN,
                start == LEN + 8,
                max + LEN + 80 <= usize::MAX,
                q0 == indexes.0,
                q1 == indexes.1,
                b0 == q0 + h,
                b1 == q1 + h,
                j >= 0,
                len == LEN + 8 + 32 * j,
                j == 0 || start + 32 * j < max,
                idx.0 < size,
                idx.1 < size,
                idx.0 as int % Self::size() == (q0 - 32 * j) % Self::size(),
                idx.1 as int % Self::size() == (q1 - 32 * j) % Self::size(),
                forall|k: int|
                    LEN <= k < len ==> #[trigger] self.ring_byte(b0 - 1 - k) == self.ring_byte(
                        b1 - 1 - k,
                    ),
            decreases max + 32 - len,
        {
            proof {
                lemma_count_lower(start, max as int, 32, j);
            }
            let mut i: usize = 0;
            while i < 4
                invariant
                    self.wf(),
                    size == Self::size(),
                    limit == Self::limit(),
                    LEN + OVERMATCH_LEN <= Self::limit(),
                    self.head_shadow_holds(h),
                    h == LEN + OVERMATCH_LEN,
                    start == LEN + 8,
                    max + LEN + 80 <= usize::MAX,
                    q0 == indexes.0,
                    q1 == indexes.1,
                    b0 == q0 + h,
                    b1 == q1 + h,
                    j >= 0,
                    len == LEN + 8 + 32 * j,
                    j == 0 || start + 32 * j < max,
                    chunk_count(start, max as int, 32) >= j + 1,
                    idx.0 < size,
                    idx.1 < size,
                    idx.0 as int % Self::size() == (q0 - 32 * j) % Self::size(),
                    idx.1 as int % Self::size() == (q1 - 32 * j) % Self::size(),
                    i <= 4,
                    forall|k: int|
                        LEN <= k < len + 8 * i ==> #[trigger] self.ring_byte(b0 - 1 - k)
                            == self.ring_byte(b1 - 1 - k),
                decreases 4 - i,
            {
                let off = (3 - i) * 8;
                let u_0 = load_u64_le(self.0, limit + idx.0 + off);
                let u_1 = load_u64_le(self.0, limit + idx.1 + off);
                proof {
                    self.lemma_word_bytes(u_0, idx.0 as int, off as int, h as int);
                    self.lemma_word_bytes(u_1, idx.1 as int, off as int, h as int);
                }
                let x = u_0 ^ u_1;
                if x != 0 {
                    let n = nctz_bytes(x);
                    proof {
                        if n == 8 {
                            assert forall|t: int| 0 <= t < 8 implies #[trigger] byte_of(x, t)
                                == 0 by {
                                assert(byte_of(x, 7 - (7 - t)) == 0);
                            }
                            lemma_zero_bytes(x);
                        }
                        assert forall|k: int| LEN <= k < len + 8 * i + n implies #[trigger]
                            self.ring_byte(b0 - 1 - k) == self.ring_byte(b1 - 1 - k) by {
                            if k >= len + 8 * i {
                                let t = 7 - (k - len - 8 * i);
                                lemma_xor_bytes(u_0, u_1, t);
                                assert(byte_of(x, 7 - (k - len - 8 * i)) == 0);
                                self.lemma_ring_byte_congruent(idx.0 as int, q0 - 32 * j, off + t);
                                self.lemma_ring_byte_congruent(idx.1 as int, q1 - 32 * j, off + t);
                                assert(q0 - 32 * j + (off + t) == b0 - 1 - k);
                                assert(q1 - 32 * j + (off + t) == b1 - 1 - k);
                            }
                        }
                        let k = len + 8 * i + n;
                        let t = 7 - n as int;
                        lemma_xor_bytes(u_0, u_1, t);
                        self.lemma_ring_byte_congruent(idx.0 as int, q0 - 32 * j, off + t);
                        self.lemma_ring_byte_congruent(idx.1 as int, q1 - 32 * j, off + t);
                        assert(q0 - 32 * j + (off + t) == b0 - 1 - k);
                        assert(q1 - 32 * j + (off + t) == b1 - 1 - k);
                    }
                    return len + i * 8 + n as usize;
                }
                proof {
                    assert forall|k: int| LEN <= k < len + 8 * i + 8 implies #[trigger]
                        self.ring_byte(b0 - 1 - k) == self.ring_byte(b1 - 1 - k) by {
                        if k >= len + 8 * i {
                            let t = 7 - (k - len - 8 * i);
                            lemma_xor_bytes(u_0, u_1, t);
                            lemma_byte_of_zero(t);
                            self.lemma_ring_byte_congruent(idx.0 as int, q0 - 32 * j, off + t);
                            self.lemma_ring_byte_congruent(idx.1 as int, q1 - 32 * j, off + t);
                            assert(q0 - 32 * j + (off + t) == b0 - 1 - k);
                            assert(q1 - 32 * j + (off + t) == b1 - 1 - k);
                        }
                    }
                }
                i += 1;
            }
            if len + 32 >= max {
                proof {
                    lemma_count_exact(start, max as int, 32, j);
                }
                return max;
            }
            let ghost prev0 = idx.0 as int;
            let ghost prev1 = idx.1 as int;
            len += 32;
            let n0 = if idx.0 >= 32 {
                idx.0 - 32
            } else {
                idx.0 + (size - 32)
            };
            let n1 = if idx.1 >= 32 {
                idx.1 - 32
            } else {
                idx.1 + (size - 32)
            };
            idx = (n0, n1);
            proof {
                let m = Self::size();
                vstd::arithmetic::div_mod::lemma_small_mod(prev0 as nat, m as nat);
                vstd::arithmetic::div_mod::lemma_small_mod(prev1 as nat, m as nat);
                vstd::arithmetic::div_mod::lemma_small_mod(idx.0 as nat, m as nat);
                vstd::arithmetic::div_mod::lemma_small_mod(idx.1 as nat, m as nat);
                lemma_wrap_mod(prev0 - 32, m, n0 as int);
                lemma_wrap_mod(prev1 - 32, m, n1 as int);
                lemma_mod_step(q0 - 32 * j, -32, m);
                lemma_mod_step(q1 - 32 * j, -32, m);
                j = j + 1;
            }
        }
    }
}

} // verus!
