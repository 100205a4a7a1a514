use vstd::prelude::*;

verus! {

broadcast use vstd::std_specs::bits::axiom_u64_trailing_zeros,
    vstd::std_specs::bits::axiom_u64_leading_zeros;

/// Byte `j` of `x`, counting from the least significant.
pub open spec fn byte_of(x: u64, j: int) -> u64 {
    (x >> ((8 * j) as u64)) & 0xff
}

/// `n` is the number of zero bytes at the low end of `x`.
pub open spec fn low_zero_bytes(x: u64, n: int) -> bool {
    &&& 0 <= n <= 8
    &&& forall|j: int| 0 <= j < n ==> #[trigger] byte_of(x, j) == 0
    &&& n < 8 ==> byte_of(x, n) != 0
}

/// `n` is the number of zero bytes at the high end of `x`.
pub open spec fn high_zero_bytes(x: u64, n: int) -> bool {
    &&& 0 <= n <= 8
    &&& forall|j: int| 0 <= j < n ==> #[trigger] byte_of(x, 7 - j) == 0
    &&& n < 8 ==> byte_of(x, 7 - n) != 0
}

/// Number of common leading bytes, in memory order, of two words whose xor is `x`.
pub fn nclz_bytes(x: u64) -> (n: u32)
    ensures
        low_zero_bytes(x, n as int),
{
    let t = x.trailing_zeros();
    let n = t / 8;
    proof {
        let t64 = t as u64;
        let sh = (64 - t64) as u64;
        assert(x << sh == 0);
        assert forall|j: int| 0 <= j < n implies #[trigger] byte_of(x, j) == 0 by {
            let j8 = (8 * j) as u64;
            assert(j8 + 8 <= t64);
            assert(t64 <= 64 && sh == 64 - t64 && x << sh == 0 && j8 + 8 <= t64 ==> (x >> j8)
                & 0xff == 0) by (bit_vector);
        }
        if n < 8 {
            let n8 = (8 * n) as u64;
            assert(n8 <= t64 < n8 + 8);
            assert(t64 < 64 && (x >> t64) & 1 == 1 && n8 <= t64 && t64 < n8 + 8 ==> (x >> n8)
                & 0xff != 0) by (bit_vector);
        }
    }
    n
}

/// Number of common trailing bytes, in memory order, of two words whose xor is `x`.
pub fn nctz_bytes(x: u64) -> (n: u32)
    ensures
        high_zero_bytes(x, n as int),
{
    let l = x.leading_zeros();
    let n = l / 8;
    proof {
        let l64 = l as u64;
        let sh = (64 - l64) as u64;
        assert(x >> sh == 0);
        assert forall|j: int| 0 <= j < n implies #[trigger] byte_of(x, 7 - j) == 0 by {
            let k8 = (8 * (7 - j)) as u64;
            assert(64 - k8 <= l64);
            assert(l64 <= 64 && sh == 64 - l64 && x >> sh == 0 && 64 - k8 <= l64 && k8 <= 56 ==> (x
                >> k8) & 0xff == 0) by (bit_vector);
        }
        if n < 8 {
            let k8 = (8 * (7 - n)) as u64;
            let p = (63 - l64) as u64;
            assert(k8 <= p < k8 + 8);
            assert((x >> p) & 1 != 0 && k8 <= p && p < k8 + 8 && p < 64 ==> (x >> k8) & 0xff != 0)
                by (bit_vector);
        }
    }
    n
}

/// The eight bytes of `buf` from `pos` as a little-endian word.
pub fn load_u64_le(buf: &[u8], pos: usize) -> (w: u64)
    requires
        pos + 8 <= buf@.len(),
    ensures
        forall|j: int| 0 <= j < 8 ==> #[trigger] byte_of(w, j) == buf@[pos + j] as u64,
{
    let b0 = buf[pos] as u64;
    let b1 = buf[pos + 1] as u64;
    let b2 = buf[pos + 2] as u64;
    let b3 = buf[pos + 3] as u64;
    let b4 = buf[pos + 4] as u64;
    let b5 = buf[pos + 5] as u64;
    let b6 = buf[pos + 6] as u64;
    let b7 = buf[pos + 7] as u64;
    let w = b0 | (b1 << 8) | (b2 << 16) | (b3 << 24) | (b4 << 32) | (b5 << 40) | (b6 << 48) | (b7
        << 56);
    assert(b0 < 256 && b1 < 256 && b2 < 256 && b3 < 256 && b4 < 256 && b5 < 256 && b6 < 256 && b7
        < 256 && w == b0 | (b1 << 8) | (b2 << 16) | (b3 << 24) | (b4 << 32) | (b5 << 40) | (b6
        << 48) | (b7 << 56) ==> (w >> 0) & 0xff == b0 && (w >> 8) & 0xff == b1 && (w >> 16) & 0xff
        == b2 && (w >> 24) & 0xff == b3 && (w >> 32) & 0xff == b4 && (w >> 40) & 0xff == b5 && (w
        >> 48) & 0xff == b6 && (w >> 56) & 0xff == b7) by (bit_vector);
    assert forall|j: int| 0 <= j < 8 implies #[trigger] byte_of(w, j) == buf@[pos + j] as u64 by {
        if j == 0 {
        } else if j == 1 {
        } else if j == 2 {
        } else if j == 3 {
        } else if j == 4 {
        } else if j == 5 {
        } else if j == 6 {
        } else {
        }
    }
    w
}

/// Bytes of two words agree exactly where the bytes of their xor are zero.
pub proof fn lemma_xor_bytes(a: u64, b: u64, j: int)
    requires
        0 <= j < 8,
    ensures
        (byte_of(a ^ b, j) == 0) == (byte_of(a, j) == byte_of(b, j)),
{
    let s = (8 * j) as u64;
    assert(((a ^ b) >> s) & 0xff == ((a >> s) & 0xff) ^ ((b >> s) & 0xff)) by (bit_vector);
    let x = (a >> s) & 0xff;
    let y = (b >> s) & 0xff;
    assert((x ^ y == 0) == (x == y)) by (bit_vector);
}

/// Every byte of zero is zero.
pub proof fn lemma_byte_of_zero(j: int)
    requires
        0 <= j < 8,
    ensures
        byte_of(0, j) == 0,
{
    let s = (8 * j) as u64;
    assert((0u64 >> s) & 0xff == 0) by (bit_vector);
}

/// A word whose bytes are all zero is zero.
pub proof fn lemma_zero_bytes(x: u64)
    requires
        forall|j: int| 0 <= j < 8 ==> #[trigger] byte_of(x, j) == 0,
    ensures
        x == 0,
{
    assert(byte_of(x, 0) == 0 && byte_of(x, 1) == 0 && byte_of(x, 2) == 0 && byte_of(x, 3) == 0
        && byte_of(x, 4) == 0 && byte_of(x, 5) == 0 && byte_of(x, 6) == 0 && byte_of(x, 7) == 0);
    assert((x >> 0) & 0xff == 0 && (x >> 8) & 0xff == 0 && (x >> 16) & 0xff == 0 && (x >> 24)
        & 0xff == 0 && (x >> 32) & 0xff == 0 && (x >> 40) & 0xff == 0 && (x >> 48) & 0xff == 0 && (x
        >> 56) & 0xff == 0 ==> x == 0) by (bit_vector);
}

} // verus!
