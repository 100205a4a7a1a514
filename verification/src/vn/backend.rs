use vstd::prelude::*;

use crate::kit::copy::splice;
use crate::kit::{CopyTypeIndex, WIDE};
use crate::ops::truncate::{lemma_truncate_back, truncate_delta};
use crate::ops::write_short::{le_bytes, lemma_le_bytes_prefix, to_le_bytes};
use crate::ops::{Allocate, CopyShort, Pos, Truncate, WriteShort};
use crate::ops::write_short::zeros;
use crate::ops::allocate::other_error;
use crate::types::{Idx, ShortBuffer};

use super::block::{header_bytes, le_u32, lemma_header_fields, VnBlock};
use super::decode::{
    copy_tokens, lemma_literal_bytes_decode, lemma_vn_match_bytes_decode, literal_tokens,
    lzvn_decode,
};
use super::constants::{EOS, VN_HEADER_SIZE, VN_MAGIC};

use super::opc;
use super::opc::{
    spec_match_len_x, lrg_d_bytes, lrg_l_bytes, lrg_m_bytes, med_d_bytes, pre_d_bytes, sml_d_bytes, sml_l_bytes,
    sml_m_bytes,
};

verus! {

/// Appends an opcode of `op_len` bytes followed by `literal_len` literals taken from `src`.
fn l<I: CopyShort>(dst: &mut Vec<u8>, src: &mut I, literal_len: u32, opu: u32, op_len: u32)
    requires
        (*old(src)).inv(),
        literal_len <= 0x10F,
        literal_len <= (*old(src)).contents().len(),
        op_len <= 3,
        old(dst)@.len() + op_len + literal_len + WIDE <= isize::MAX,
    ensures
        (*final(src)).inv(),
        (*final(src)).contents() == (*old(src)).contents().skip(literal_len as int),
        final(dst)@ == old(dst)@ + le_bytes(opu as nat, op_len as nat) + (*old(src)).contents().take(
            literal_len as int,
        ),
{
    let ghost old_len = dst@.len();
    let start_pos = dst.pos();
    let n = op_len + literal_len;
    let mut block = dst.short_wide_block(n).expect("internal error");
    let op_bytes = to_le_bytes(opu as u128, 4);
    block.poke_at(0, op_bytes.as_slice());
    let full_block = block.into_full_slice();
    let (head, tail) = full_block.split_at_mut(op_len as usize);
    let ghost head_bytes = head@;
    src.read_short_raw::<CopyTypeIndex>(tail, literal_len as usize);
    proof {
        lemma_le_bytes_prefix(opu as nat, 4, op_len as nat);
        assert(head_bytes =~= le_bytes(opu as nat, op_len as nat));
    }
    let ghost written = dst@;
    let target = start_pos.advance(n);
    proof {
        lemma_truncate_back(old_len, n as nat, (n + WIDE) as nat, target.value());
    }
    let _ = Truncate::truncate(dst, target);
    proof {
        assert(dst@ =~= old(dst)@ + le_bytes(opu as nat, op_len as nat) + (*old(src)).contents().take(
            literal_len as int,
        ));
    }
}

/// Appends an opcode of `op_len` bytes.
fn m(dst: &mut Vec<u8>, opu: u32, op_len: u32)
    requires
        op_len <= 3,
        old(dst)@.len() + op_len + WIDE <= isize::MAX,
    ensures
        final(dst)@ == old(dst)@ + le_bytes(opu as nat, op_len as nat),
{
    let ghost old_len = dst@.len();
    let start_pos = dst.pos();
    let mut block = dst.short_wide_block(op_len).expect("internal error");
    let op_bytes = to_le_bytes(opu as u128, 4);
    block.poke_at(0, op_bytes.as_slice());
    let ghost poked = block.0@;
    proof {
        lemma_le_bytes_prefix(opu as nat, 4, op_len as nat);
        assert(poked.take(op_len as int) =~= le_bytes(opu as nat, op_len as nat));
    }
    let target = start_pos.advance(op_len);
    proof {
        lemma_truncate_back(old_len, op_len as nat, (op_len + WIDE) as nat, target.value());
    }
    let _ = Truncate::truncate(dst, target);
    proof {
        assert(dst@ =~= old(dst)@ + le_bytes(opu as nat, op_len as nat));
    }
}

/// Appends an opcode of `op_len` bytes followed by the first `literal_len` bytes of `src`,
/// which stays as it is.
fn lmd<I: ShortBuffer>(dst: &mut Vec<u8>, src: &mut I, literal_len: u32, opu: u32, op_len: u32)
    requires
        (*old(src)).inv(),
        literal_len <= 4,
        literal_len <= (*old(src)).contents().len(),
        op_len <= 3,
        old(dst)@.len() + op_len + literal_len + WIDE <= isize::MAX,
    ensures
        *final(src) == *old(src),
        final(dst)@ == old(dst)@ + le_bytes(opu as nat, op_len as nat) + (*old(src)).contents().take(
            literal_len as int,
        ),
{
    let literal_bytes = src.peek_u32();
    let ghost old_len = dst@.len();
    let start_pos = dst.pos();
    let n = op_len + literal_len;
    let mut block = dst.short_wide_block(n).expect("internal error");
    let op_bytes = to_le_bytes(opu as u128, 4);
    let lit_bytes = to_le_bytes(literal_bytes as u128, 4);
    block.poke_at(0, op_bytes.as_slice());
    block.poke_at(op_len as usize, lit_bytes.as_slice());
    let ghost poked = block.0@;
    proof {
        lemma_le_bytes_prefix(opu as nat, 4, op_len as nat);
        assert(poked.take(op_len as int) =~= le_bytes(opu as nat, op_len as nat));
        assert(poked.subrange(op_len as int, n as int) =~= (*old(src)).contents().take(
            literal_len as int,
        ));
    }
    let target = start_pos.advance(n);
    proof {
        lemma_truncate_back(old_len, n as nat, (n + WIDE) as nat, target.value());
    }
    let _ = Truncate::truncate(dst, target);
    proof {
        assert(dst@ =~= old(dst)@ + le_bytes(opu as nat, op_len as nat) + (*old(src)).contents().take(
            literal_len as int,
        ));
    }
}

fn sml_l<I: CopyShort>(dst: &mut Vec<u8>, src: &mut I, literal_len: u32)
    requires
        (*old(src)).inv(),
        1 <= literal_len <= 15,
        literal_len <= (*old(src)).contents().len(),
        old(dst)@.len() + 1 + literal_len + WIDE <= isize::MAX,
    ensures
        (*final(src)).inv(),
        (*final(src)).contents() == (*old(src)).contents().skip(literal_len as int),
        final(dst)@ == old(dst)@ + sml_l_bytes(literal_len as int) + (*old(src)).contents().take(
            literal_len as int,
        ),
{
    l(dst, src, literal_len, opc::encode_sml_l(literal_len), 1)
}

fn lrg_l<I: CopyShort>(dst: &mut Vec<u8>, src: &mut I, literal_len: u32)
    requires
        (*old(src)).inv(),
        16 <= literal_len <= 0x10F,
        literal_len <= (*old(src)).contents().len(),
        old(dst)@.len() + 2 + literal_len + WIDE <= isize::MAX,
    ensures
        (*final(src)).inv(),
        (*final(src)).contents() == (*old(src)).contents().skip(literal_len as int),
        final(dst)@ == old(dst)@ + lrg_l_bytes(literal_len as int) + (*old(src)).contents().take(
            literal_len as int,
        ),
{
    l(dst, src, literal_len, opc::encode_lrg_l(literal_len), 2)
}

fn sml_m(dst: &mut Vec<u8>, match_len: u32)
    requires
        1 <= match_len <= 15,
        old(dst)@.len() + 1 + WIDE <= isize::MAX,
    ensures
        final(dst)@ == old(dst)@ + sml_m_bytes(match_len as int),
{
    m(dst, opc::encode_sml_m(match_len), 1);
}

fn lrg_m(dst: &mut Vec<u8>, match_len: u32)
    requires
        16 <= match_len <= 0x10F,
        old(dst)@.len() + 2 + WIDE <= isize::MAX,
    ensures
        final(dst)@ == old(dst)@ + lrg_m_bytes(match_len as int),
{
    m(dst, opc::encode_lrg_m(match_len), 2);
}

fn pre_d<I: ShortBuffer>(dst: &mut Vec<u8>, src: &mut I, literal_len: u32, match_len: u32)
    requires
        (*old(src)).inv(),
        1 <= literal_len <= 3,
        literal_len <= (*old(src)).contents().len(),
        3 <= match_len <= 10,
        old(dst)@.len() + 1 + literal_len + WIDE <= isize::MAX,
    ensures
        *final(src) == *old(src),
        final(dst)@ == old(dst)@ + pre_d_bytes(literal_len as int, match_len as int) + (*old(
            src,
        )).contents().take(literal_len as int),
{
    lmd(dst, src, literal_len, opc::encode_pre_d(literal_len, match_len), 1)
}

fn sml_d<I: ShortBuffer>(
    dst: &mut Vec<u8>,
    src: &mut I,
    literal_len: u32,
    match_len: u32,
    match_distance: u32,
)
    requires
        (*old(src)).inv(),
        literal_len <= 3,
        literal_len <= (*old(src)).contents().len(),
        3 <= match_len <= 10,
        match_distance < 0x600,
        old(dst)@.len() + 2 + literal_len + WIDE <= isize::MAX,
    ensures
        *final(src) == *old(src),
        final(dst)@ == old(dst)@ + sml_d_bytes(
            literal_len as int,
            match_len as int,
            match_distance as int,
        ) + (*old(src)).contents().take(literal_len as int),
{
    lmd(dst, src, literal_len, opc::encode_sml_d(literal_len, match_len, match_distance), 2)
}

fn med_d<I: ShortBuffer>(
    dst: &mut Vec<u8>,
    src: &mut I,
    literal_len: u32,
    match_len: u32,
    match_distance: u32,
)
    requires
        (*old(src)).inv(),
        literal_len <= 3,
        literal_len <= (*old(src)).contents().len(),
        3 <= match_len <= 34,
        match_distance < 0x4000,
        old(dst)@.len() + 3 + literal_len + WIDE <= isize::MAX,
    ensures
        *final(src) == *old(src),
        final(dst)@ == old(dst)@ + med_d_bytes(
            literal_len as int,
            match_len as int,
            match_distance as int,
        ) + (*old(src)).contents().take(literal_len as int),
{
    lmd(dst, src, literal_len, opc::encode_med_d(literal_len, match_len, match_distance), 3)
}

fn lrg_d<I: ShortBuffer>(
    dst: &mut Vec<u8>,
    src: &mut I,
    literal_len: u32,
    match_len: u32,
    match_distance: u32,
)
    requires
        (*old(src)).inv(),
        literal_len <= 3,
        literal_len <= (*old(src)).contents().len(),
        3 <= match_len <= 10,
        match_distance <= 0xFFFF,
        old(dst)@.len() + 3 + literal_len + WIDE <= isize::MAX,
    ensures
        *final(src) == *old(src),
        final(dst)@ == old(dst)@ + lrg_d_bytes(
            literal_len as int,
            match_len as int,
            match_distance as int,
        ) + (*old(src)).contents().take(literal_len as int),
{
    lmd(dst, src, literal_len, opc::encode_lrg_d(literal_len, match_len, match_distance), 3)
}

// Working slack: max op len + max literal len + EOS tag len
pub const SLACK: u32 = 0x11A;

/// Bytes reserved for a block of `len` input bytes.
pub open spec fn spec_n_allocate(len: int) -> int {
    VN_HEADER_SIZE + (len / 4) * 5 + 32 + SLACK + WIDE
}

fn n_allocate(len: usize) -> (r: usize)
    requires
        spec_n_allocate(len as int) <= usize::MAX,
    ensures
        r == spec_n_allocate(len as int),
{
    // Assuming a functional front end that pushes literals correctly:
    // * literals, at worst, cost 1 byte plus an additional 1 byte per 4 literals.
    // * match runs are always cost neutral.
    VN_HEADER_SIZE as usize + (len / 4) * 5 + 32 + SLACK as usize + WIDE
}

/// How many literals the next large literal opcode takes out of `len`.
pub open spec fn lrg_chunk(len: int) -> int {
    if len <= 0x10F {
        len
    } else {
        0x10F
    }
}

/// The large literal opcodes, with their literals, that take `lits` down below sixteen bytes.
pub open spec fn lrg_literals(lits: Seq<u8>) -> Seq<u8>
    decreases lits.len(),
{
    if lits.len() >= 16 {
        let x = lrg_chunk(lits.len() as int);
        lrg_l_bytes(x) + lits.take(x) + lrg_literals(lits.skip(x))
    } else {
        Seq::empty()
    }
}

/// What the large literal opcodes leave of `lits`: fewer than sixteen bytes.
pub open spec fn lrg_rest(lits: Seq<u8>) -> Seq<u8>
    decreases lits.len(),
{
    if lits.len() >= 16 {
        lrg_rest(lits.skip(lrg_chunk(lits.len() as int)))
    } else {
        lits
    }
}

/// The opcodes, with their literals, that carry `lits` alone.
pub open spec fn literal_bytes(lits: Seq<u8>) -> Seq<u8> {
    let rest = lrg_rest(lits);
    lrg_literals(lits) + if rest.len() > 0 {
        sml_l_bytes(rest.len() as int) + rest
    } else {
        Seq::empty()
    }
}

/// The match opcodes that carry `m` more bytes of a match at the previous distance.
pub open spec fn match_bytes(m: int) -> Seq<u8>
    decreases m,
{
    if m > 15 {
        lrg_m_bytes(lrg_chunk(m)) + match_bytes(m - lrg_chunk(m))
    } else if m > 0 {
        sml_m_bytes(m)
    } else {
        Seq::empty()
    }
}

/// The literal opcodes ahead of a match: large ones, then a small one when four or more
/// literals are left.
pub open spec fn lead_bytes(lits: Seq<u8>) -> Seq<u8> {
    let rest = lrg_rest(lits);
    lrg_literals(lits) + if rest.len() >= 4 {
        sml_l_bytes(rest.len() as int) + rest
    } else {
        Seq::empty()
    }
}

/// The literals, at most three, that ride with the match opcode.
pub open spec fn tail_literals(lits: Seq<u8>) -> Seq<u8> {
    let rest = lrg_rest(lits);
    if rest.len() >= 4 {
        Seq::empty()
    } else {
        rest
    }
}

/// The bytes of a match of `m` bytes that the match opcode carries, with `l` literals.
pub open spec fn match_head(l: int, m: int) -> int {
    if spec_match_len_x(l) <= m {
        spec_match_len_x(l)
    } else {
        m
    }
}

/// The opcodes that carry `lits` followed by a match of `m` bytes at distance `d`, when the
/// previous match was at distance `prev`.
pub open spec fn vn_match_bytes(lits: Seq<u8>, m: int, d: int, prev: int) -> Seq<u8> {
    let tail = tail_literals(lits);
    let n = match_head(tail.len() as int, m);
    lead_bytes(lits) + match_op_bytes(tail, n, m - n, d, prev) + match_bytes(m - n)
}

/// The `len` bytes of `dst` from stream position `idx` on, for writing.
fn patch_into(dst: &mut Vec<u8>, idx: Idx, len: usize) -> (r: &mut [u8])
    requires
        len <= truncate_delta(old(dst)@.len(), idx) <= old(dst)@.len(),
    ensures
        ({
            let at = old(dst)@.len() - truncate_delta(old(dst)@.len(), idx);
            &&& r@ == old(dst)@.subrange(at, at + len)
            &&& final(dst)@ == old(dst)@.take(at) + final(r)@ + old(dst)@.skip(at + len)
        }),
{
    let delta = dst.pos().diff(idx);
    let index = dst.len() - delta as usize;
    let (_, rest) = dst.as_mut_slice().split_at_mut(index);
    let (patch, _) = rest.split_at_mut(len);
    patch
}

/// Pushes large literal opcodes until fewer than sixteen literals are left.
fn lrg_literal_run<I: ShortBuffer>(dst: &mut Vec<u8>, literals: &mut I)
    requires
        (*old(literals)).inv(),
        old(dst)@.len() + 2 * (*old(literals)).contents().len() + WIDE <= isize::MAX,
    ensures
        (*final(literals)).inv(),
        (*final(literals)).contents() == lrg_rest((*old(literals)).contents()),
        (*final(literals)).contents().len() < 16,
        final(dst)@ == old(dst)@ + lrg_literals((*old(literals)).contents()),
        final(dst)@.len() + 2 * (*final(literals)).contents().len() <= old(dst)@.len() + 2 * (*old(
            literals,
        )).contents().len(),
{
    let ghost lits = literals.contents();
    while literals.len() >= 0x10
        invariant
            (*literals).inv(),
            dst@ + lrg_literals((*literals).contents()) == old(dst)@ + lrg_literals(lits),
            lrg_rest((*literals).contents()) == lrg_rest(lits),
            dst@.len() + 2 * (*literals).contents().len() <= old(dst)@.len() + 2 * lits.len(),
            old(dst)@.len() + 2 * lits.len() + WIDE <= isize::MAX,
        decreases (*literals).contents().len(),
    {
        let n = literals.len();
        let len = if n <= 0x10F {
            n as u32
        } else {
            0x10F
        };
        lrg_l(dst, literals, len);
        assert(dst@ + lrg_literals((*literals).contents()) =~= old(dst)@ + lrg_literals(lits));
    }
    assert(lrg_literals((*literals).contents()) =~= Seq::<u8>::empty());
    assert(dst@ =~= old(dst)@ + lrg_literals(lits));
}

/// The opcode that carries the last `literal_len` literals and `n` bytes of a match at
/// `match_distance`, when `rest` more match bytes follow and the previous distance was `prev`.
pub open spec fn match_op_bytes(tail: Seq<u8>, n: int, rest: int, d: int, prev: int) -> Seq<u8> {
    let l = tail.len() as int;
    if d == prev {
        if l == 0 {
            sml_m_bytes(n)
        } else {
            pre_d_bytes(l, n) + tail
        }
    } else if d < 0x600 {
        sml_d_bytes(l, n, d) + tail
    } else if d >= 0x4000 || rest == 0 || n + rest > 0x22 {
        lrg_d_bytes(l, n, d) + tail
    } else {
        med_d_bytes(l, n, d) + tail
    }
}

/// Pushes the opcode that carries the last literals and the head of a match.
fn match_op<I: ShortBuffer>(
    dst: &mut Vec<u8>,
    literals: &mut I,
    n: u32,
    rest: u32,
    match_distance: u32,
    prev: u32,
)
    requires
        (*old(literals)).inv(),
        (*old(literals)).contents().len() <= 3,
        1 <= n <= spec_match_len_x((*old(literals)).contents().len() as int),
        n < 3 ==> match_distance == prev && (*old(literals)).contents().len() == 0,
        n + rest <= u32::MAX,
        0 < match_distance <= 0xFFFF,
        old(dst)@.len() + 6 + WIDE <= isize::MAX,
    ensures
        final(dst)@ == old(dst)@ + match_op_bytes(
            (*old(literals)).contents(),
            n as int,
            rest as int,
            match_distance as int,
            prev as int,
        ),
{
    let literal_len = literals.len() as u32;
    proof {
        assert((*literals).contents().take(literal_len as int) =~= (*literals).contents());
    }
    if match_distance == prev {
        if literal_len == 0 {
            sml_m(dst, n);
        } else {
            pre_d(dst, literals, literal_len, n);
        }
    } else if match_distance < 0x600 {
        sml_d(dst, literals, literal_len, n, match_distance);
    } else if match_distance >= 0x4000 || rest == 0 || n + rest > 0x22 {
        lrg_d(dst, literals, literal_len, n, match_distance);
    } else {
        med_d(dst, literals, literal_len, n, match_distance);
    }
}

/// Pushes match opcodes at the previous distance for `match_len` bytes.
fn match_run(dst: &mut Vec<u8>, match_len: u32)
    requires
        old(dst)@.len() + match_len + WIDE <= isize::MAX,
    ensures
        final(dst)@ == old(dst)@ + match_bytes(match_len as int),
{
    let ghost m2 = match_len as int;
    let mut match_len = match_len;
    while match_len > 0x0F
        invariant
            dst@ + match_bytes(match_len as int) == old(dst)@ + match_bytes(m2),
            dst@.len() + match_len <= old(dst)@.len() + m2,
            old(dst)@.len() + m2 + WIDE <= isize::MAX,
        decreases match_len,
    {
        let limit = if match_len <= 0x10F {
            match_len
        } else {
            0x10F
        };
        lrg_m(dst, limit);
        match_len -= limit;
        assert(dst@ + match_bytes(match_len as int) =~= old(dst)@ + match_bytes(m2));
    }
    if match_len > 0 {
        sml_m(dst, match_len);
    }
    assert(dst@ =~= old(dst)@ + match_bytes(m2));
}

/// What `push_match` appends reads back as its literals and its match.
proof fn lemma_appended_match_decodes(
    before: Seq<u8>,
    after: Seq<u8>,
    lits: Seq<u8>,
    m: int,
    d: int,
    prev: int,
)
    requires
        after == before + vn_match_bytes(lits, m, d, prev),
        1 <= m,
        m < 3 ==> d == prev && tail_literals(lits).len() == 0,
        0 < d <= 0xFFFF,
    ensures
        lzvn_decode(after.skip(before.len() as int), prev) == Some(
            (literal_tokens(lits) + copy_tokens(m, d), d),
        ),
{
    assert(after.skip(before.len() as int) =~= vn_match_bytes(lits, m, d, prev));
    lemma_vn_match_bytes_decode(lits, m, d, prev);
}

/// VN backend.
///
/// Memory is allocated in advance for the entire block based on the worst scenario.
/// Pushing literals with a block length of less than 4 more than once may overflow our memory
/// allocation.
pub struct VnBackend {
    mark: Idx,
    match_distance: u32,
    n_literals: u32,
    n_match_bytes: u32,
}

impl Default for VnBackend {
    fn default() -> (r: Self)
        ensures
            r.spec_mark().value() == 0,
            r.spec_match_distance() == 0,
            r.spec_n_literals() == 0,
            r.spec_n_match_bytes() == 0,
    {
        VnBackend { mark: Idx::new(0), match_distance: 0, n_literals: 0, n_match_bytes: 0 }
    }
}

impl VnBackend {
    /// Where the block header stands in the output stream.
    pub closed spec fn spec_mark(&self) -> Idx {
        self.mark
    }

    /// The distance of the previous match.
    pub closed spec fn spec_match_distance(&self) -> u32 {
        self.match_distance
    }

    pub closed spec fn spec_n_literals(&self) -> u32 {
        self.n_literals
    }

    pub closed spec fn spec_n_match_bytes(&self) -> u32 {
        self.n_match_bytes
    }

    /// Starts a block of `len` bytes: reserves room for it and writes a blank header.
    pub fn init(&mut self, dst: &mut Vec<u8>, len: Option<usize>) -> (r: std::io::Result<()>)
        requires
            len is Some ==> spec_n_allocate(len->0 as int) <= usize::MAX,
            len is Some ==> old(dst)@.len() + spec_n_allocate(len->0 as int) <= isize::MAX,
            old(dst)@.len() + VN_HEADER_SIZE + WIDE <= isize::MAX,
        ensures
            len is None ==> r is Err && final(dst)@ == old(dst)@ && *final(self) == *old(self),
            len is Some ==> {
                &&& r is Ok
                &&& final(dst)@ == old(dst)@ + zeros(VN_HEADER_SIZE as nat)
                &&& final(self).spec_mark().value() == old(dst)@.len() % 0x1_0000_0000
                &&& final(self).spec_match_distance() == 0
                &&& final(self).spec_n_literals() == 0
                &&& final(self).spec_n_match_bytes() == 0
            },
    {
        if let Some(u) = len {
            self.mark = dst.pos();
            self.match_distance = 0;
            self.n_literals = 0;
            self.n_match_bytes = 0;
            let n = n_allocate(u);
            dst.allocate(n)?;
            let header: Vec<u8> = vec![0u8; 12];
            assert(header@ =~= zeros(VN_HEADER_SIZE as nat));
            dst.write_short_bytes(header.as_slice())?;
            Ok(())
        } else {
            Err(other_error())
        }
    }

    /// Pushes literals with no match after them.
    pub fn push_literals<I: ShortBuffer>(&mut self, dst: &mut Vec<u8>, literals: I) -> (r:
        std::io::Result<()>)
        requires
            I::spec_short_limit() >= 0x010F,
            literals.inv(),
            old(self).spec_n_literals() + literals.contents().len() <= u32::MAX,
            old(dst)@.len() + 2 * literals.contents().len() + WIDE <= isize::MAX,
        ensures
            r is Ok,
            final(dst)@ == old(dst)@ + literal_bytes(literals.contents()),
            lzvn_decode(
                final(dst)@.skip(old(dst)@.len() as int),
                old(self).spec_match_distance() as int,
            ) == Some(
                (literal_tokens(literals.contents()), old(self).spec_match_distance() as int),
            ),
            final(self).spec_n_literals() == old(self).spec_n_literals()
                + literals.contents().len(),
            final(self).spec_n_match_bytes() == old(self).spec_n_match_bytes(),
            final(self).spec_match_distance() == old(self).spec_match_distance(),
            final(self).spec_mark() == old(self).spec_mark(),
    {
        let ghost lits = literals.contents();
        let mut literals = literals;
        self.n_literals += literals.len() as u32;
        lrg_literal_run(dst, &mut literals);
        if literals.len() > 0 {
            let len = literals.len() as u32;
            sml_l(dst, &mut literals, len);
        }
        assert(dst@ =~= old(dst)@ + literal_bytes(lits));
        proof {
            assert(dst@.skip(old(dst)@.len() as int) =~= literal_bytes(lits));
            lemma_literal_bytes_decode(lits, self.match_distance as int);
        }
        Ok(())
    }
    /// Pushes literals followed by a match of `match_len` bytes at `match_distance`.
    #[verifier::spinoff_prover]
    #[verifier::rlimit(40)]
    pub fn push_match<I: ShortBuffer>(
        &mut self,
        dst: &mut Vec<u8>,
        literals: I,
        match_len: u32,
        match_distance: u32,
    ) -> (r: std::io::Result<()>)
        requires
            I::spec_short_limit() >= 0x010F,
            literals.inv(),
            1 <= match_len,
            match_len < 3 ==> match_distance == old(self).spec_match_distance() && tail_literals(
                literals.contents(),
            ).len() == 0,
            0 < match_distance <= 0xFFFF,
            old(self).spec_n_literals() + literals.contents().len() <= u32::MAX,
            old(self).spec_n_match_bytes() + match_len <= u32::MAX,
            old(dst)@.len() + 2 * literals.contents().len() + match_len + 2 * WIDE <= isize::MAX,
        ensures
            r is Ok,
            final(dst)@ == old(dst)@ + vn_match_bytes(
                literals.contents(),
                match_len as int,
                match_distance as int,
                old(self).spec_match_distance() as int,
            ),
            lzvn_decode(
                final(dst)@.skip(old(dst)@.len() as int),
                old(self).spec_match_distance() as int,
            ) == Some(
                (
                    literal_tokens(literals.contents()) + copy_tokens(
                        match_len as int,
                        match_distance as int,
                    ),
                    match_distance as int,
                ),
            ),
            final(self).spec_n_literals() == old(self).spec_n_literals()
                + literals.contents().len(),
            final(self).spec_n_match_bytes() == old(self).spec_n_match_bytes() + match_len,
            final(self).spec_match_distance() == match_distance,
            final(self).spec_mark() == old(self).spec_mark(),
    {
        let ghost lits = literals.contents();
        let ghost prev = self.match_distance as int;
        let ghost total = match_len as int;
        let mut literals = literals;
        self.n_literals += literals.len() as u32;
        self.n_match_bytes += match_len;
        lrg_literal_run(dst, &mut literals);
        let ghost rest = literals.contents();
        if literals.len() >= 0x04 {
            let len = literals.len() as u32;
            sml_l(dst, &mut literals, len);
            assert(literals.contents() =~= Seq::<u8>::empty());
            assert(rest.take(len as int) =~= rest);
        }
        let ghost lead = dst@;
        let ghost tail = literals.contents();
        assert(tail == tail_literals(lits));
        let literal_len = literals.len();
        let x = opc::match_len_x(literal_len as u32);
        let n = if x <= match_len {
            x
        } else {
            match_len
        };
        let match_rest = match_len - n;
        match_op(dst, &mut literals, n, match_rest, match_distance, self.match_distance);
        self.match_distance = match_distance;
        let ghost op_end = dst@;
        match_run(dst, match_rest);
        proof {
            assert(lead =~= old(dst)@ + lead_bytes(lits));
            assert(tail == tail_literals(lits));
            assert(dst@ =~= old(dst)@ + vn_match_bytes(lits, total, match_distance as int, prev));
            lemma_appended_match_decodes(old(dst)@, dst@, lits, total, match_distance as int, prev);
        }
        Ok(())
    }
    /// Ends the block: writes the end of stream opcode and fills in the header.
    pub fn finalize(&mut self, dst: &mut Vec<u8>) -> (r: std::io::Result<()>)
        requires
            old(dst)@.len() + 8 + WIDE <= isize::MAX,
            VN_HEADER_SIZE <= truncate_delta(old(dst)@.len() + 8, old(self).spec_mark())
                <= old(dst)@.len() + 8,
            old(self).spec_n_literals() + old(self).spec_n_match_bytes() <= u32::MAX,
        ensures
            r is Ok,
            *final(self) == *old(self),
            ({
                let len = old(dst)@.len() + 8;
                let delta = truncate_delta(len, old(self).spec_mark());
                final(dst)@ == splice(
                    old(dst)@ + le_bytes(EOS as nat, 8),
                    len - delta,
                    header_bytes(
                        (old(self).spec_n_literals() + old(self).spec_n_match_bytes()) as u32,
                        (delta - VN_HEADER_SIZE) as u32,
                    ),
                )
            }),
            ({
                let len = old(dst)@.len() + 8;
                let at = len - truncate_delta(len, old(self).spec_mark());
                &&& final(dst)@.len() == len
                &&& le_u32(final(dst)@.subrange(at, at + 4)) == VN_MAGIC
                &&& le_u32(final(dst)@.subrange(at + 4, at + 8)) == old(self).spec_n_literals()
                    + old(self).spec_n_match_bytes()
                &&& le_u32(final(dst)@.subrange(at + 8, at + 12)) == len - at - VN_HEADER_SIZE
            }),
    {
        dst.write_short_u64(EOS as u64)?;
        proof {
            lemma_le_bytes_prefix(EOS as nat, 8, 8);
        }
        let ghost ended = dst@;
        let delta = dst.pos().diff(self.mark);
        let n_payload_bytes = delta as u32 - VN_HEADER_SIZE;
        let buf = patch_into(dst, self.mark, VN_HEADER_SIZE as usize);
        let n_raw_bytes = self.n_literals + self.n_match_bytes;
        VnBlock::new(n_raw_bytes, n_payload_bytes).store(buf);
        proof {
            let at = ended.len() - truncate_delta(ended.len(), self.mark);
            lemma_le_bytes_prefix(super::constants::VN_MAGIC as nat, 4, 4);
            lemma_le_bytes_prefix(n_raw_bytes as nat, 4, 4);
            lemma_le_bytes_prefix(n_payload_bytes as nat, 4, 4);
            assert(header_bytes(n_raw_bytes, n_payload_bytes).len() == 12);
            assert(dst@ =~= splice(ended, at, header_bytes(n_raw_bytes, n_payload_bytes)));
            lemma_header_fields(n_raw_bytes, n_payload_bytes);
            let h = header_bytes(n_raw_bytes, n_payload_bytes);
            assert(dst@.subrange(at, at + 4) =~= h.subrange(0, 4));
            assert(dst@.subrange(at + 4, at + 8) =~= h.subrange(4, 8));
            assert(dst@.subrange(at + 8, at + 12) =~= h.subrange(8, 12));
        }
        Ok(())
    }
}

} // verus!
