use vstd::prelude::*;

use super::ops::{
    byte_of, lemma_byte_of_zero, lemma_xor_bytes, lemma_zero_bytes, load_u64_le, nclz_bytes, nctz_bytes,
};

verus! {

/// `r` is how far, from `from` on, `bytes` from `index` and from `match_index` agree, capped
/// at `max`: every offset in `[from, r)` agrees and, unless `r == max`, offset `r` does not.
pub open spec fn matches_forward(
    bytes: Seq<u8>,
    index: int,
    match_index: int,
    from: int,
    max: int,
    r: int,
) -> bool {
    &&& from <= r <= max
    &&& forall|k: int| from <= k < r ==> #[trigger] bytes[index + k] == bytes[match_index + k]
    &&& r < max ==> bytes[index + r] != bytes[match_index + r]
}

/// `r` is how many bytes, going backwards, `bytes` before `index` and before `match_index`
/// agree, capped at `max`: offset `k` compares `index - 1 - k` with `match_index - 1 - k`.
pub open spec fn matches_backward(
    bytes: Seq<u8>,
    index: int,
    match_index: int,
    max: int,
    r: int,
) -> bool {
    &&& 0 <= r <= max
    &&& forall|k: int|
        0 <= k < r ==> #[trigger] bytes[index - 1 - k] == bytes[match_index - 1 - k]
    &&& r < max ==> bytes[index - 1 - r] != bytes[match_index - 1 - r]
}

pub fn fast_match_inc(
    bytes: &[u8],
    index: usize,
    match_index: usize,
    len: usize,
    max: usize,
) -> (r: usize)
    requires
        match_index < index,
        index <= bytes@.len(),
        max <= bytes@.len() - index,
    ensures
        len >= max ==> r == max,
        len < max ==> matches_forward(
            bytes@,
            index as int,
            match_index as int,
            len as int,
            max as int,
            r as int,
        ),
{
    fast_match_inc_unchecked(bytes, index, match_index, len, max)
}

/// Extends a match between `index` and `match_index` from `len`, up to `max`, a word at a
/// time and then byte by byte.
pub fn fast_match_inc_unchecked(
    bytes: &[u8],
    index: usize,
    match_index: usize,
    len: usize,
    max: usize,
) -> (r: usize)
    requires
        match_index < index,
        index <= bytes@.len(),
        max <= bytes@.len() - index,
    ensures
        len >= max ==> r == max,
        len < max ==> matches_forward(
            bytes@,
            index as int,
            match_index as int,
            len as int,
            max as int,
            r as int,
        ),
{
    let ghost from = len;
    let blen = bytes.len();
    let mut cur = len;
    while cur < max && max - cur >= 8
        invariant
            blen == bytes@.len(),
            match_index < index,
            index <= bytes@.len(),
            max <= bytes@.len() - index,
            from == len,
            from <= cur,
            from < max ==> cur <= max,
            forall|k: int|
                from <= k < cur ==> #[trigger] bytes@[index + k] == bytes@[match_index + k],
        decreases max - cur,
    {
        let u_0 = load_u64_le(bytes, index + cur);
        let u_1 = load_u64_le(bytes, match_index + cur);
        let x = u_0 ^ u_1;
        if x != 0 {
            let n = nclz_bytes(x);
            proof {
                if n == 8 {
                    lemma_zero_bytes(x);
                }
                assert forall|k: int| from <= k < cur + n implies #[trigger] bytes@[index + k]
                    == bytes@[match_index + k] by {
                    if k >= cur {
                        lemma_xor_bytes(u_0, u_1, k - cur);
                        assert(byte_of(x, k - cur) == 0);
                    }
                }
                lemma_xor_bytes(u_0, u_1, n as int);
            }
            return cur + n as usize;
        }
        proof {
            assert forall|k: int| from <= k < cur + 8 implies #[trigger] bytes@[index + k]
                == bytes@[match_index + k] by {
                if k >= cur {
                    lemma_xor_bytes(u_0, u_1, k - cur);
                    lemma_byte_of_zero(k - cur);
                }
            }
        }
        cur = cur + 8;
    }
    while cur < max
        invariant
            blen == bytes@.len(),
            match_index < index,
            index <= bytes@.len(),
            max <= bytes@.len() - index,
            from == len,
            from <= cur,
            from < max ==> cur <= max,
            forall|k: int|
                from <= k < cur ==> #[trigger] bytes@[index + k] == bytes@[match_index + k],
        decreases max - cur,
    {
        if bytes[index + cur] != bytes[match_index + cur] {
            return cur;
        }
        cur = cur + 1;
    }
    max
}

pub fn fast_match_dec(bytes: &[u8], index: usize, match_index: usize, max: usize) -> (r: usize)
    requires
        max <= match_index,
        match_index < index,
        index <= bytes@.len(),
    ensures
        matches_backward(bytes@, index as int, match_index as int, max as int, r as int),
{
    fast_match_dec_unchecked(bytes, index, match_index, max)
}

/// Extends a match backwards from `index` and `match_index`, up to `max` bytes, a word at a
/// time and then byte by byte.
pub fn fast_match_dec_unchecked(
    bytes: &[u8],
    index: usize,
    match_index: usize,
    max: usize,
) -> (r: usize)
    requires
        max <= match_index,
        match_index < index,
        index <= bytes@.len(),
    ensures
        matches_backward(bytes@, index as int, match_index as int, max as int, r as int),
{
    // `len` counts the bytes known to agree; the next word ends where they begin.
    let mut len: usize = 0;
    while max - len >= 8
        invariant
            max <= match_index,
            match_index < index,
            index <= bytes@.len(),
            len <= max,
            forall|k: int|
                0 <= k < len ==> #[trigger] bytes@[index - 1 - k] == bytes@[match_index - 1 - k],
        decreases max - len,
    {
        let u_0 = load_u64_le(bytes, index - len - 8);
        let u_1 = load_u64_le(bytes, match_index - len - 8);
        let x = u_0 ^ u_1;
        if x != 0 {
            let n = nctz_bytes(x);
            proof {
                if n == 8 {
                    assert forall|j: int| 0 <= j < 8 implies #[trigger] byte_of(x, j) == 0 by {
                        assert(byte_of(x, 7 - (7 - j)) == 0);
                    }
                    lemma_zero_bytes(x);
                }
                assert forall|k: int| 0 <= k < len + n implies #[trigger] bytes@[index - 1 - k]
                    == bytes@[match_index - 1 - k] by {
                    if k >= len {
                        lemma_xor_bytes(u_0, u_1, 7 - (k - len));
                        assert(byte_of(x, 7 - (k - len)) == 0);
                    }
                }
                lemma_xor_bytes(u_0, u_1, 7 - n as int);
            }
            return len + n as usize;
        }
        proof {
            assert forall|k: int| 0 <= k < len + 8 implies #[trigger] bytes@[index - 1 - k]
                == bytes@[match_index - 1 - k] by {
                if k >= len {
                    lemma_xor_bytes(u_0, u_1, 7 - (k - len));
                    lemma_byte_of_zero(7 - (k - len));
                }
            }
        }
        len = len + 8;
    }
    while len != max
        invariant
            max <= match_index,
            match_index < index,
            index <= bytes@.len(),
            len <= max,
            forall|k: int|
                0 <= k < len ==> #[trigger] bytes@[index - 1 - k] == bytes@[match_index - 1 - k],
        decreases max - len,
    {
        if bytes[index - len - 1] != bytes[match_index - len - 1] {
            return len;
        }
        len = len + 1;
    }
    len
}

} // verus!
