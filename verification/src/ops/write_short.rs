use vstd::prelude::*;

use crate::kit::copy::copy_slice;
use crate::kit::WIDE;
use crate::types::WideBytesMut;

use super::allocate::Allocate;
use super::short_limit::ShortLimit;

verus! {

/// The `n` low bytes of `v`, least significant first.
pub open spec fn le_bytes(v: nat, n: nat) -> Seq<u8>
    decreases n,
{
    if n == 0 {
        Seq::empty()
    } else {
        seq![(v % 256) as u8] + le_bytes(v / 256, (n - 1) as nat)
    }
}

/// The first `k` of the `n` low bytes of `v` are its `k` low bytes.
pub proof fn lemma_le_bytes_prefix(v: nat, n: nat, k: nat)
    requires
        k <= n,
    ensures
        le_bytes(v, n).take(k as int) == le_bytes(v, k),
        le_bytes(v, n).len() == n,
    decreases n,
{
    if n == 0 {
        assert(le_bytes(v, n).take(k as int) =~= le_bytes(v, k));
    } else {
        lemma_le_bytes_prefix(v / 256, (n - 1) as nat, if k == 0 { 0 } else { (k - 1) as nat });
        if k == 0 {
            assert(le_bytes(v, n).take(0) =~= le_bytes(v, 0));
        } else {
            assert(le_bytes(v, n).take(k as int) =~= le_bytes(v, k));
        }
    }
}

/// Four bytes put together little-endian come apart again.
pub proof fn lemma_le_bytes_4(b0: nat, b1: nat, b2: nat, b3: nat)
    requires
        b0 < 256,
        b1 < 256,
        b2 < 256,
        b3 < 256,
    ensures
        le_bytes(b0 + b1 * 256 + b2 * 0x1_0000 + b3 * 0x100_0000, 4) == seq![
            b0 as u8,
            b1 as u8,
            b2 as u8,
            b3 as u8,
        ],
{
    let v3 = b3 as int;
    let v2 = b2 + 256 * v3;
    let v1 = b1 + 256 * v2;
    let v0 = b0 + 256 * v1;
    vstd::arithmetic::div_mod::lemma_fundamental_div_mod_converse(v0, 256, v1, b0 as int);
    vstd::arithmetic::div_mod::lemma_fundamental_div_mod_converse(v1, 256, v2, b1 as int);
    vstd::arithmetic::div_mod::lemma_fundamental_div_mod_converse(v2, 256, v3, b2 as int);
    vstd::arithmetic::div_mod::lemma_fundamental_div_mod_converse(v3, 256, 0, b3 as int);
    assert(v0 == b0 + b1 * 256 + b2 * 0x1_0000 + b3 * 0x100_0000);
    reveal_with_fuel(le_bytes, 5);
    assert(le_bytes(v0 as nat, 4) =~= seq![b0 as u8, b1 as u8, b2 as u8, b3 as u8]);
}

/// Two numbers below `256^n` with the same `n` low bytes are equal.
pub proof fn lemma_le_bytes_injective(a: nat, b: nat, n: nat)
    requires
        a < pow256(n),
        b < pow256(n),
        le_bytes(a, n) == le_bytes(b, n),
    ensures
        a == b,
    decreases n,
{
    if n > 0 {
        assert(le_bytes(a, n)[0] == le_bytes(b, n)[0]);
        assert(a % 256 == b % 256) by {
            assert(le_bytes(a, n)[0] == (a % 256) as u8);
            assert(le_bytes(b, n)[0] == (b % 256) as u8);
            assert(((a % 256) as u8) as int == a % 256);
            assert(((b % 256) as u8) as int == b % 256);
        }
        assert(le_bytes(a / 256, (n - 1) as nat) =~= le_bytes(a, n).skip(1));
        assert(le_bytes(b / 256, (n - 1) as nat) =~= le_bytes(b, n).skip(1));
        vstd::arithmetic::div_mod::lemma_fundamental_div_mod(a as int, 256);
        vstd::arithmetic::div_mod::lemma_fundamental_div_mod(b as int, 256);
        vstd::arithmetic::div_mod::lemma_div_is_ordered(a as int, pow256(n) - 1, 256);
        vstd::arithmetic::div_mod::lemma_div_is_ordered(b as int, pow256(n) - 1, 256);
        assert((pow256(n) - 1) / 256 < pow256((n - 1) as nat)) by {
            vstd::arithmetic::div_mod::lemma_fundamental_div_mod_converse(
                pow256(n) - 1,
                256,
                pow256((n - 1) as nat) - 1,
                255,
            );
        }
        lemma_le_bytes_injective(a / 256, b / 256, (n - 1) as nat);
    }
}

/// `256^n`.
pub open spec fn pow256(n: nat) -> int
    decreases n,
{
    if n == 0 {
        1
    } else {
        256 * pow256((n - 1) as nat)
    }
}

/// `n` zero bytes.
pub open spec fn zeros(n: nat) -> Seq<u8> {
    Seq::new(n, |i: int| 0u8)
}

/// The `n` low bytes of `v`, least significant first.
pub fn to_le_bytes(v: u128, n: usize) -> (r: Vec<u8>)
    ensures
        r@ == le_bytes(v as nat, n as nat),
        r@.len() == n,
{
    let mut out: Vec<u8> = Vec::new();
    let mut x = v;
    let mut i: usize = 0;
    while i < n
        invariant
            i <= n,
            out@.len() == i,
            out@ + le_bytes(x as nat, (n - i) as nat) == le_bytes(v as nat, n as nat),
        decreases n - i,
    {
        let ghost rest = le_bytes(x as nat / 256, (n - i - 1) as nat);
        assert(le_bytes(x as nat, (n - i) as nat) == seq![(x % 256) as u8] + rest);
        out.push((x % 256) as u8);
        x = x / 256;
        i += 1;
        assert(out@ + le_bytes(x as nat, (n - i) as nat) =~= le_bytes(v as nat, n as nat));
    }
    assert(le_bytes(x as nat, 0) =~= Seq::<u8>::empty());
    assert(out@ =~= out@ + le_bytes(x as nat, 0));
    out
}

/// Low-level write buffer access methods.
pub trait WriteShort: Allocate + ShortLimit {
    // Little endian.
    fn write_short_u8(&mut self, u: u8) -> (r: std::io::Result<()>)
        requires
            1 <= Self::spec_short_limit(),
        ensures
            r is Ok <==> (*old(self)).written().len() + 1 <= isize::MAX,
            r is Ok ==> (*final(self)).written() == (*old(self)).written() + le_bytes(u as nat, 1),
            r is Err ==> (*final(self)).written() == (*old(self)).written(),
    {
        let bytes = to_le_bytes(u as u128, 1);
        self.write_short_bytes(bytes.as_slice())
    }

    // Little endian.
    fn write_short_u16(&mut self, u: u16) -> (r: std::io::Result<()>)
        requires
            2 <= Self::spec_short_limit(),
        ensures
            r is Ok <==> (*old(self)).written().len() + 2 <= isize::MAX,
            r is Ok ==> (*final(self)).written() == (*old(self)).written() + le_bytes(u as nat, 2),
            r is Err ==> (*final(self)).written() == (*old(self)).written(),
    {
        let bytes = to_le_bytes(u as u128, 2);
        self.write_short_bytes(bytes.as_slice())
    }

    // Little endian.
    fn write_short_u32(&mut self, u: u32) -> (r: std::io::Result<()>)
        requires
            4 <= Self::spec_short_limit(),
        ensures
            r is Ok <==> (*old(self)).written().len() + 4 <= isize::MAX,
            r is Ok ==> (*final(self)).written() == (*old(self)).written() + le_bytes(u as nat, 4),
            r is Err ==> (*final(self)).written() == (*old(self)).written(),
    {
        let bytes = to_le_bytes(u as u128, 4);
        self.write_short_bytes(bytes.as_slice())
    }

    // Little endian.
    fn write_short_u64(&mut self, u: u64) -> (r: std::io::Result<()>)
        requires
            8 <= Self::spec_short_limit(),
        ensures
            r is Ok <==> (*old(self)).written().len() + 8 <= isize::MAX,
            r is Ok ==> (*final(self)).written() == (*old(self)).written() + le_bytes(u as nat, 8),
            r is Err ==> (*final(self)).written() == (*old(self)).written(),
    {
        let bytes = to_le_bytes(u as u128, 8);
        self.write_short_bytes(bytes.as_slice())
    }

    // Little endian.
    fn write_short_u128(&mut self, u: u128) -> (r: std::io::Result<()>)
        requires
            16 <= Self::spec_short_limit(),
        ensures
            r is Ok <==> (*old(self)).written().len() + 16 <= isize::MAX,
            r is Ok ==> (*final(self)).written() == (*old(self)).written() + le_bytes(u as nat, 16),
            r is Err ==> (*final(self)).written() == (*old(self)).written(),
    {
        let bytes = to_le_bytes(u, 16);
        self.write_short_bytes(bytes.as_slice())
    }

    // Little endian, in the width of `usize` on this machine.
    fn write_short_usize(&mut self, u: usize) -> (r: std::io::Result<()>)
        requires
            usize::BITS / 8 <= Self::spec_short_limit(),
        ensures
            r is Ok <==> (*old(self)).written().len() + usize::BITS / 8 <= isize::MAX,
            r is Ok ==> (*final(self)).written() == (*old(self)).written() + le_bytes(
                u as nat,
                (usize::BITS / 8) as nat,
            ),
            r is Err ==> (*final(self)).written() == (*old(self)).written(),
    {
        let n = (usize::BITS / 8) as usize;
        let bytes = to_le_bytes(u as u128, n);
        self.write_short_bytes(bytes.as_slice())
    }

    fn write_short_bytes(&mut self, bytes: &[u8]) -> (r: std::io::Result<()>)
        requires
            bytes@.len() <= Self::spec_short_limit(),
        ensures
            r is Ok <==> (*old(self)).written().len() + bytes@.len() <= isize::MAX,
            r is Ok ==> (*final(self)).written() == (*old(self)).written() + bytes@,
            r is Err ==> (*final(self)).written() == (*old(self)).written(),
    {
        let len = bytes.len() as u32;
        let block = self.short_block(len)?;
        copy_slice(block, 0, bytes, 0, bytes.len());
        assert(block@ =~= bytes@);
        Ok(())
    }

    /// Appends `len` bytes and hands them out for writing.
    fn short_block(&mut self, len: u32) -> (r: std::io::Result<&mut [u8]>)
        ensures
            r is Ok <==> (*old(self)).written().len() + len <= isize::MAX,
            r is Ok ==> r->Ok_0@.len() == len,
            r is Ok ==> (*final(self)).written() == (*old(self)).written() + final(r->Ok_0)@,
            r is Err ==> (*final(self)).written() == (*old(self)).written(),
    ;

    /// Appends `len` bytes and `WIDE` slack bytes and hands them out for writing.
    fn short_wide_block(&mut self, len: u32) -> (r: std::io::Result<WideBytesMut<'_>>)
        requires
            len + WIDE <= usize::MAX,
        ensures
            r is Ok <==> (*old(self)).written().len() + len + WIDE <= isize::MAX,
            r is Ok ==> r->Ok_0.1 == len && r->Ok_0.0@.len() == len + WIDE,
            r is Ok ==> (*final(self)).written() == (*old(self)).written() + final(r->Ok_0.0)@,
            r is Err ==> (*final(self)).written() == (*old(self)).written(),
    ;
}

impl<T: WriteShort + ?Sized> WriteShort for &mut T {
    fn write_short_u8(&mut self, u: u8) -> std::io::Result<()> {
        (**self).write_short_u8(u)
    }

    fn write_short_u16(&mut self, u: u16) -> std::io::Result<()> {
        (**self).write_short_u16(u)
    }

    fn write_short_u32(&mut self, u: u32) -> std::io::Result<()> {
        (**self).write_short_u32(u)
    }

    fn write_short_u64(&mut self, u: u64) -> std::io::Result<()> {
        (**self).write_short_u64(u)
    }

    fn write_short_u128(&mut self, u: u128) -> std::io::Result<()> {
        (**self).write_short_u128(u)
    }

    fn write_short_usize(&mut self, u: usize) -> std::io::Result<()> {
        (**self).write_short_usize(u)
    }

    fn write_short_bytes(&mut self, bytes: &[u8]) -> std::io::Result<()> {
        (**self).write_short_bytes(bytes)
    }

    fn short_block(&mut self, len: u32) -> std::io::Result<&mut [u8]> {
        (**self).short_block(len)
    }

    fn short_wide_block(&mut self, len: u32) -> std::io::Result<WideBytesMut<'_>> {
        (**self).short_wide_block(len)
    }
}

impl WriteShort for Vec<u8> {
    /// The new bytes are zero.
    fn short_block(&mut self, len: u32) -> (r: std::io::Result<&mut [u8]>)
        ensures
            r is Ok ==> r->Ok_0@ == zeros(len as nat),
    {
        let len = len as usize;
        self.allocate(len)?;
        let index = self.len();
        self.resize(index + len, 0);
        let (_, block) = self.as_mut_slice().split_at_mut(index);
        assert(block@ =~= zeros(len as nat));
        Ok(block)
    }

    /// The new bytes are zero.
    fn short_wide_block(&mut self, len: u32) -> (r: std::io::Result<WideBytesMut<'_>>)
        ensures
            r is Ok ==> r->Ok_0.0@ == zeros((len + WIDE) as nat),
    {
        let len = len as usize;
        self.allocate(len + WIDE)?;
        let index = self.len();
        self.resize(index + len + WIDE, 0);
        let (_, block) = self.as_mut_slice().split_at_mut(index);
        assert(block@ =~= zeros((len + WIDE) as nat));
        Ok(WideBytesMut::from_bytes(block, len))
    }
}

} // verus!
