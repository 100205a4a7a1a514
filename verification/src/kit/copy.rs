use vstd::prelude::*;

use super::wide::{spec_width, Width, WIDE};

verus! {

/// `s` with the bytes from `at` on overwritten by `t`.
pub open spec fn splice(s: Seq<u8>, at: int, t: Seq<u8>) -> Seq<u8> {
    s.take(at) + t + s.skip(at + t.len())
}

pub open spec fn min_len(a: int, b: int) -> int {
    if a <= b {
        a
    } else {
        b
    }
}

pub open spec fn max_len(a: int, b: int) -> int {
    if a <= b {
        b
    } else {
        a
    }
}

/// Copies `n` bytes of `src` from `src_off` into `dst` at `dst_off`.
pub fn copy_slice(dst: &mut [u8], dst_off: usize, src: &[u8], src_off: usize, n: usize)
    requires
        dst_off + n <= old(dst)@.len(),
        src_off + n <= src@.len(),
    ensures
        final(dst)@ == splice(old(dst)@, dst_off as int, src@.subrange(src_off as int, src_off + n)),
{
    let dst_len = dst.len();
    let src_len = src.len();
    let mut i: usize = 0;
    while i < n
        invariant
            i <= n,
            dst_len == old(dst)@.len(),
            src_len == src@.len(),
            dst_off + n <= old(dst)@.len(),
            src_off + n <= src@.len(),
            dst@.len() == old(dst)@.len(),
            forall|j: int|
                0 <= j < dst@.len() ==> #[trigger] dst@[j] == if dst_off <= j < dst_off + i {
                    src@[src_off + j - dst_off]
                } else {
                    old(dst)@[j]
                },
        decreases n - i,
    {
        dst[dst_off + i] = src[src_off + i];
        i += 1;
    }
    assert(dst@ =~= splice(old(dst)@, dst_off as int, src@.subrange(src_off as int, src_off + n)));
}

/// Copies `n` bytes within `buf` from `from` to `to`; the two ranges do not overlap.
pub fn copy_within_slice(buf: &mut [u8], from: usize, to: usize, n: usize)
    requires
        from + n <= old(buf)@.len(),
        to + n <= old(buf)@.len(),
        from + n <= to || to + n <= from,
    ensures
        final(buf)@ == splice(old(buf)@, to as int, old(buf)@.subrange(from as int, from + n)),
{
    let buf_len = buf.len();
    let mut i: usize = 0;
    while i < n
        invariant
            i <= n,
            buf_len == old(buf)@.len(),
            from + n <= old(buf)@.len(),
            to + n <= old(buf)@.len(),
            from + n <= to || to + n <= from,
            buf@.len() == old(buf)@.len(),
            forall|j: int|
                0 <= j < buf@.len() ==> #[trigger] buf@[j] == if to <= j < to + i {
                    old(buf)@[from + j - to]
                } else {
                    old(buf)@[j]
                },
        decreases n - i,
    {
        let b = buf[from + i];
        buf[to + i] = b;
        i += 1;
    }
    assert(buf@ =~= splice(old(buf)@, to as int, old(buf)@.subrange(from as int, from + n)));
}

/// Number of `w`-byte chunks a run from `start` takes to reach `len`: at least one.
pub open spec fn chunk_count(start: int, len: int, w: int) -> int {
    if len <= start + w {
        1
    } else {
        (len - start + w - 1) / w
    }
}

/// Where a run of `w`-byte chunks from `start`, asked for `len` bytes with `room` bytes
/// available, stops: after the first whole chunk that reaches `len` if it fits in `room`,
/// else at `len` or at the last whole chunk that fits, whichever is further.
pub open spec fn chunk_end(start: int, len: int, w: int, room: int) -> int {
    let want = start + w * chunk_count(start, len, w);
    if want <= room {
        want
    } else {
        max_len(len, start + w * ((room - start) / w))
    }
}

/// A run of `w`-byte chunks from `start` asked for `len` bytes stops less than a chunk past
/// `len`, at most.
pub proof fn lemma_chunk_end_bound(start: int, len: int, w: int, room: int)
    requires
        0 <= start <= len,
        w > 0,
    ensures
        chunk_end(start, len, w, room) <= len + w,
{
    let want = start + w * chunk_count(start, len, w);
    if len > start + w {
        let a = len - start + w - 1;
        vstd::arithmetic::div_mod::lemma_fundamental_div_mod(a, w);
        vstd::arithmetic::div_mod::lemma_mod_pos_bound(a, w);
        assert(w * (a / w) == (a / w) * w) by (nonlinear_arith);
    }
    assert(want <= len + w);
    if want > room {
        let x = room - start;
        vstd::arithmetic::div_mod::lemma_fundamental_div_mod(x, w);
        vstd::arithmetic::div_mod::lemma_mod_bound(x, w);
        assert(w * (x / w) == (x / w) * w) by (nonlinear_arith);
    }
}

proof fn lemma_div_exact(x: int, w: int, q: int)
    requires
        w > 0,
        w * q <= x < w * q + w,
    ensures
        x / w == q,
{
    assert(x == q * w + (x - w * q)) by (nonlinear_arith);
    vstd::arithmetic::div_mod::lemma_fundamental_div_mod_converse(x, w, q, x - w * q);
}

pub proof fn lemma_count_exact(start: int, len: int, w: int, i: int)
    requires
        w > 0,
        i >= 0,
        i == 0 || start + w * i < len,
        len <= start + w * (i + 1),
    ensures
        chunk_count(start, len, w) == i + 1,
{
    if len <= start + w {
        if i > 0 {
            assert(w * i >= w) by (nonlinear_arith)
                requires
                    w > 0,
                    i >= 1,
            ;
        }
    } else {
        let a = len - start;
        assert(w * (i + 1) == w * i + w) by (nonlinear_arith);
        lemma_div_exact(a + w - 1, w, i + 1);
    }
}

pub proof fn lemma_count_lower(start: int, len: int, w: int, i: int)
    requires
        w > 0,
        i >= 0,
        i == 0 || start + w * i < len,
    ensures
        chunk_count(start, len, w) >= i + 1,
        w * chunk_count(start, len, w) >= w * (i + 1),
{
    let c = chunk_count(start, len, w);
    if len <= start + w {
        if i > 0 {
            assert(w * i >= w) by (nonlinear_arith)
                requires
                    w > 0,
                    i >= 1,
            ;
        }
    } else {
        let a = len - start;
        assert(w * (i + 1) == w * i + w) by (nonlinear_arith);
        assert((i + 1) * w == w * (i + 1)) by (nonlinear_arith);
        vstd::arithmetic::div_mod::lemma_div_by_multiple(i + 1, w);
        vstd::arithmetic::div_mod::lemma_div_is_ordered((i + 1) * w, a + w - 1, w);
    }
    assert(w * c >= w * (i + 1)) by (nonlinear_arith)
        requires
            w > 0,
            c >= i + 1,
    ;
}

/// Copies `w`-byte chunks from `start` until `len` is reached or a chunk no longer fits,
/// then the bytes still missing up to `len`; returns where it stopped.
fn wide_run(src: &[u8], dst: &mut [u8], start: usize, len: usize, w: usize) -> (end: usize)
    requires
        1 <= w <= WIDE,
        start <= len,
        len <= src@.len(),
        len <= old(dst)@.len(),
    ensures
        end == chunk_end(
            start as int,
            len as int,
            w as int,
            min_len(src@.len() as int, old(dst)@.len() as int),
        ),
        len <= end <= min_len(src@.len() as int, old(dst)@.len() as int),
        final(dst)@ == splice(old(dst)@, start as int, src@.subrange(start as int, end as int)),
{
    let ghost room = min_len(src@.len() as int, old(dst)@.len() as int);
    let mut off = start;
    let ghost mut i: int = 0;
    loop
        invariant
            1 <= w <= WIDE,
            start <= len <= room,
            room == min_len(src@.len() as int, old(dst)@.len() as int),
            i >= 0,
            off == start + w * i,
            start <= off <= room,
            i == 0 || off < len,
            dst@.len() == old(dst)@.len(),
            dst@ == splice(old(dst)@, start as int, src@.subrange(start as int, off as int)),
        decreases room - off,
    {
        if w <= src.len() - off && w <= dst.len() - off {
            let ghost before = dst@;
            copy_slice(dst, off, src, off, w);
            assert(dst@ =~= splice(
                old(dst)@,
                start as int,
                src@.subrange(start as int, off + w),
            ));
            proof {
                assert(w * (i + 1) == w * i + w) by (nonlinear_arith);
                if off + w >= len {
                    lemma_count_exact(start as int, len as int, w as int, i);
                }
                i = i + 1;
            }
            off = off + w;
            if off >= len {
                return off;
            }
        } else {
            let remaining = len.saturating_sub(off);
            if remaining > 0 {
                copy_slice(dst, off, src, off, remaining);
                assert(dst@ =~= splice(
                    old(dst)@,
                    start as int,
                    src@.subrange(start as int, off + remaining),
                ));
            }
            proof {
                lemma_count_lower(start as int, len as int, w as int, i);
                assert(w * (i + 1) == w * i + w) by (nonlinear_arith);
                lemma_div_exact(room - start, w as int, i);
            }
            return off + remaining;
        }
    }
}

/// A strategy for copying `len` bytes in `WIDTH`-sized chunks. The copy may run past `len`
/// by less than a chunk, into the slack that both buffers hold beyond `len`.
pub trait CopyType {
    /// How far a copy of `len` bytes in chunks of `width` runs when `room` bytes are available
    /// in both buffers.
    spec fn copied_len(len: int, width: int, room: int) -> int;

    fn wide_copy<W: Width>(src: &[u8], dst: &mut [u8], len: usize)
        requires
            len <= src@.len(),
            len <= old(dst)@.len(),
        ensures
            ({
                let room = min_len(src@.len() as int, old(dst)@.len() as int);
                let n = Self::copied_len(len as int, spec_width::<W>() as int, room);
                &&& len <= n <= room
                &&& n <= len + spec_width::<W>()
                &&& final(dst)@ == src@.take(n) + old(dst)@.skip(n)
            }),
    ;
}

/// Copies chunk by chunk from the start.
#[derive(Copy, Clone, Debug)]
pub struct CopyTypeIndex;

impl CopyType for CopyTypeIndex {
    open spec fn copied_len(len: int, width: int, room: int) -> int {
        chunk_end(0, len, width, room)
    }

    fn wide_copy<W: Width>(src: &[u8], dst: &mut [u8], len: usize) {
        let w = W::width();
        let n = wide_run(src, dst, 0, len, w);
        proof {
            lemma_chunk_end_bound(0, len as int, w as int, min_len(src@.len() as int, old(dst)@.len() as int));
        }
        assert(dst@ =~= src@.take(n as int) + old(dst)@.skip(n as int));
    }
}

/// Copies chunk by chunk from the start (the pointer flavour of `CopyTypeIndex`).
#[derive(Copy, Clone, Debug)]
pub struct CopyTypePtr;

impl CopyType for CopyTypePtr {
    open spec fn copied_len(len: int, width: int, room: int) -> int {
        chunk_end(0, len, width, room)
    }

    fn wide_copy<W: Width>(src: &[u8], dst: &mut [u8], len: usize) {
        let w = W::width();
        let n = wide_run(src, dst, 0, len, w);
        proof {
            lemma_chunk_end_bound(0, len as int, w as int, min_len(src@.len() as int, old(dst)@.len() as int));
        }
        assert(dst@ =~= src@.take(n as int) + old(dst)@.skip(n as int));
    }
}

/// Chunks per block of `CopyTypeLong`.
pub const LONG_BLOCK: usize = 8;

/// Where the block phase of `CopyTypeLong` stops: at the last whole block below `len`, or at
/// the last whole block that fits in `room`, whichever comes first.
pub open spec fn long_blocks_end(len: int, block: int, room: int) -> int {
    min_len(block * (len / block), block * (room / block))
}

/// High latency, high throughput.
#[derive(Copy, Clone, Debug)]
pub struct CopyTypeLong;

impl CopyType for CopyTypeLong {
    open spec fn copied_len(len: int, width: int, room: int) -> int {
        let block = width * LONG_BLOCK as int;
        if len >= block {
            chunk_end(long_blocks_end(len, block, room), len, width, room)
        } else {
            chunk_end(0, len, width, room)
        }
    }

    fn wide_copy<W: Width>(src: &[u8], dst: &mut [u8], len: usize) {
        let w = W::width();
        let ghost room = min_len(src@.len() as int, old(dst)@.len() as int);
        let mut off: usize = 0;
        if len >= w * LONG_BLOCK {
            let block = w * LONG_BLOCK;
            proof {
                vstd::arithmetic::div_mod::lemma_fundamental_div_mod(len as int, block as int);
                vstd::arithmetic::div_mod::lemma_mod_pos_bound(len as int, block as int);
                let bk = block as int;
                let q = len as int / bk;
                let r = len as int % bk;
                assert(q * bk <= len) by (nonlinear_arith)
                    requires
                        len == bk * q + r,
                        0 <= r,
                ;
            }
            let wide_len = (len / block) * block;
            proof {
                assert((len / block) * block == block * (len / block)) by (nonlinear_arith);
                vstd::arithmetic::div_mod::lemma_div_is_ordered(block as int, len as int, block as int);
                vstd::arithmetic::div_mod::lemma_div_by_multiple(1, block as int);
                assert(block * (len / block) >= block) by (nonlinear_arith)
                    requires
                        len / block >= 1,
                        block > 0,
                ;
            }
            let ghost mut i: int = 0;
            loop
                invariant_except_break
                    off < wide_len,
                invariant
                    1 <= w <= WIDE,
                    block == w * LONG_BLOCK,
                    len <= room,
                    room == min_len(src@.len() as int, old(dst)@.len() as int),
                    wide_len == block * (len / block),
                    0 < wide_len <= len,
                    i >= 0,
                    off == block * i,
                    off <= wide_len,
                    off <= room,
                    dst@.len() == old(dst)@.len(),
                    dst@ == src@.take(off as int) + old(dst)@.skip(off as int),
                ensures
                    off == long_blocks_end(len as int, block as int, room),
                    dst@.len() == old(dst)@.len(),
                    dst@ == src@.take(off as int) + old(dst)@.skip(off as int),
                decreases wide_len - off,
            {
                if block <= src.len() - off && block <= dst.len() - off {
                    copy_slice(dst, off, src, off, block);
                    assert(dst@ =~= src@.take(off + block) + old(dst)@.skip(off + block));
                    proof {
                        let bk = block as int;
                        let q = len as int / bk;
                        assert(bk * i < bk * q ==> i + 1 <= q) by (nonlinear_arith)
                            requires
                                bk > 0,
                        ;
                        assert(i + 1 <= q ==> bk * (i + 1) <= bk * q) by (nonlinear_arith)
                            requires
                                bk > 0,
                        ;
                        assert(block * (i + 1) == block * i + block) by (nonlinear_arith);
                        i = i + 1;
                    }
                    off = off + block;
                    if off == wide_len {
                        proof {
                            vstd::arithmetic::div_mod::lemma_div_is_ordered(
                                len as int,
                                room,
                                block as int,
                            );
                            let bk = block as int;
                            vstd::arithmetic::mul::lemma_mul_inequality(
                                len as int / bk,
                                room / bk,
                                bk,
                            );
                            assert(bk * (len as int / bk) == (len as int / bk) * bk)
                                by (nonlinear_arith);
                            assert(bk * (room / bk) == (room / bk) * bk)
                                by (nonlinear_arith);
                        }
                        break;
                    }
                    proof {
                        let bk = block as int;
                        let q = len as int / bk;
                        assert(bk * i < bk * q ==> i < q) by (nonlinear_arith)
                            requires
                                bk > 0,
                        ;
                        assert(i <= q ==> bk * i <= bk * q) by (nonlinear_arith)
                            requires
                                bk > 0,
                        ;
                    }
                } else {
                    proof {
                        assert(block * (i + 1) == block * i + block) by (nonlinear_arith);
                        lemma_div_exact(room, block as int, i);
                    }
                    break;
                }
            }
        }
        let n = wide_run(src, dst, off, len, w);
        proof {
            lemma_chunk_end_bound(off as int, len as int, w as int, room);
        }
        assert(dst@ =~= src@.take(n as int) + old(dst)@.skip(n as int));
    }
}

} // verus!
