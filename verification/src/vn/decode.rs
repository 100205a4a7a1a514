use vstd::prelude::*;

use super::backend::{
    lead_bytes, literal_bytes, lrg_chunk, lrg_literals, lrg_rest, match_bytes, match_head,
    match_op_bytes, tail_literals, vn_match_bytes,
};
use super::opc::{
    lrg_d_bytes, lrg_l_bytes, lrg_m_bytes, med_d_bytes, pre_d_bytes, sml_d_bytes, sml_l_bytes,
    sml_m_bytes, spec_match_len_x,
};

verus! {

// How an LZVN decoder reads an opcode stream, and what the encoder's opcodes read back as.
//
// A stream reads back as a script of tokens: a literal byte to copy out, or one byte to copy
// from `d` bytes back in the output. Each opcode carries `L` literals followed by a match of
// `M` bytes at distance `D`; opcodes without a distance of their own match at the distance of
// the previous match.

/// One step of the output a decoder writes.
pub enum Token {
    /// A byte copied out of the stream.
    Literal(u8),
    /// A byte copied from this many bytes back in the output.
    Copy(int),
}

/// The script of copying `lits` out.
pub open spec fn literal_tokens(lits: Seq<u8>) -> Seq<Token> {
    Seq::new(lits.len(), |i: int| Token::Literal(lits[i]))
}

/// The script of a match of `m` bytes at distance `d`.
pub open spec fn copy_tokens(m: int, d: int) -> Seq<Token> {
    Seq::new(m as nat, |i: int| Token::Copy(d))
}

/// The opcode at the head of `bytes`, read as LZVN defines it, with `prev` the distance of
/// the previous match: the length of its header, its literal count `L`, its match length `M`
/// and its distance `D`. `None` for end of stream, the no-ops, the undefined opcodes and a
/// header cut short.
pub open spec fn lzvn_opcode(bytes: Seq<u8>, prev: int) -> Option<(int, int, int, int)> {
    if bytes.len() == 0 {
        None
    } else {
        let b = bytes[0] as int;
        if b == 0xE0 {
            // lrg_l
            if bytes.len() < 2 {
                None
            } else {
                Some((2, bytes[1] as int + 16, 0, prev))
            }
        } else if 0xE0 < b < 0xF0 {
            // sml_l
            Some((1, b - 0xE0, 0, prev))
        } else if b == 0xF0 {
            // lrg_m
            if bytes.len() < 2 {
                None
            } else {
                Some((2, 0, bytes[1] as int + 16, prev))
            }
        } else if b > 0xF0 {
            // sml_m
            Some((1, 0, b - 0xF0, prev))
        } else if 0xA0 <= b < 0xC0 {
            // med_d
            if bytes.len() < 3 {
                None
            } else {
                Some(
                    (
                        3,
                        (b / 8) % 4,
                        (b % 8) * 4 + bytes[1] as int % 4 + 3,
                        bytes[1] as int / 4 + bytes[2] as int * 64,
                    ),
                )
            }
        } else if (0x70 <= b < 0x80) || (0xD0 <= b < 0xE0) {
            // undefined
            None
        } else if b == 0x06 || b == 0x0E || b == 0x16 {
            // end of stream, no-ops
            None
        } else if b % 8 == 6 {
            // pre_d
            Some((1, b / 64, (b / 8) % 8 + 3, prev))
        } else if b % 8 == 7 {
            // lrg_d
            if bytes.len() < 3 {
                None
            } else {
                Some((3, b / 64, (b / 8) % 8 + 3, bytes[1] as int + bytes[2] as int * 256))
            }
        } else {
            // sml_d
            if bytes.len() < 2 {
                None
            } else {
                Some((2, b / 64, (b / 8) % 8 + 3, (b % 8) * 256 + bytes[1] as int))
            }
        }
    }
}

/// What a decoder makes of `bytes`, a whole number of opcodes, starting with `prev` as the
/// previous distance: the script it follows and the previous distance it ends with; `None`
/// where it stops early.
#[verifier::opaque]
pub open spec fn lzvn_decode(bytes: Seq<u8>, prev: int) -> Option<(Seq<Token>, int)>
    decreases bytes.len(),
{
    if bytes.len() == 0 {
        Some((Seq::empty(), prev))
    } else {
        match lzvn_opcode(bytes, prev) {
            Some((h, l, m, d)) => {
                if 0 < h && 0 <= l && h + l <= bytes.len() {
                    match lzvn_decode(bytes.skip(h + l), d) {
                        Some((rest, p)) => Some(
                            (literal_tokens(bytes.subrange(h, h + l)) + copy_tokens(m, d) + rest, p),
                        ),
                        None => None,
                    }
                } else {
                    None
                }
            },
            None => None,
        }
    }
}

/// Reading an opcode looks no further than the opcode.
proof fn lemma_opcode_prefix(a: Seq<u8>, b: Seq<u8>, prev: int)
    requires
        lzvn_opcode(a, prev) is Some,
    ensures
        lzvn_opcode(a + b, prev) == lzvn_opcode(a, prev),
{
    assert((a + b)[0] == a[0]);
    if a.len() >= 2 {
        assert((a + b)[1] == a[1]);
    }
    if a.len() >= 3 {
        assert((a + b)[2] == a[2]);
    }
}

/// Decoding two runs of whole opcodes one after the other follows both scripts in turn.
pub proof fn lemma_decode_append(
    a: Seq<u8>,
    b: Seq<u8>,
    prev: int,
    ta: Seq<Token>,
    pa: int,
    tb: Seq<Token>,
    pb: int,
)
    requires
        lzvn_decode(a, prev) == Some((ta, pa)),
        lzvn_decode(b, pa) == Some((tb, pb)),
    ensures
        lzvn_decode(a + b, prev) == Some((ta + tb, pb)),
    decreases a.len(),
{
    reveal(lzvn_decode);
    if a.len() == 0 {
        assert(a + b =~= b);
        assert(ta + tb =~= tb);
    } else {
        let (h, l, m, d) = lzvn_opcode(a, prev)->0;
        lemma_opcode_prefix(a, b, prev);
        assert((a + b).skip(h + l) =~= a.skip(h + l) + b);
        assert((a + b).subrange(h, h + l) =~= a.subrange(h, h + l));
        let (t1, p1) = lzvn_decode(a.skip(h + l), d)->0;
        lemma_decode_append(a.skip(h + l), b, d, t1, p1, tb, pb);
        let head = literal_tokens(a.subrange(h, h + l)) + copy_tokens(m, d);
        assert(head + (t1 + tb) =~= (head + t1) + tb);
    }
}

/// A single opcode with its literals reads back as its literals and its match.
proof fn lemma_decode_one(op: Seq<u8>, lits: Seq<u8>, prev: int, h: int, m: int, d: int)
    requires
        op.len() == h,
        0 < h,
        lzvn_opcode(op, prev) == Some((h, lits.len() as int, m, d)),
    ensures
        lzvn_decode(op + lits, prev) == Some((literal_tokens(lits) + copy_tokens(m, d), d)),
{
    reveal(lzvn_decode);
    let bytes = op + lits;
    lemma_opcode_prefix(op, lits, prev);
    assert(bytes.subrange(h, h + lits.len()) =~= lits);
    assert(bytes.skip(h + lits.len()) =~= Seq::<u8>::empty());
    assert(bytes.len() > 0);
    assert(lzvn_decode(Seq::<u8>::empty(), d) == Some((Seq::<Token>::empty(), d)));
    assert(lzvn_decode(bytes.skip(h + lits.len()), d) == Some((Seq::<Token>::empty(), d)));
    assert(literal_tokens(lits) + copy_tokens(m, d) + Seq::<Token>::empty() =~= literal_tokens(lits)
        + copy_tokens(m, d));
}

/// `sml_l` carries its literals.
pub proof fn lemma_decode_sml_l(lits: Seq<u8>, prev: int)
    requires
        1 <= lits.len() <= 15,
    ensures
        lzvn_decode(sml_l_bytes(lits.len() as int) + lits, prev) == Some(
            (literal_tokens(lits), prev),
        ),
{
    lemma_decode_one(sml_l_bytes(lits.len() as int), lits, prev, 1, 0, prev);
    assert(copy_tokens(0, prev) =~= Seq::<Token>::empty());
    assert(literal_tokens(lits) + copy_tokens(0, prev) =~= literal_tokens(lits));
}

/// `lrg_l` carries its literals.
pub proof fn lemma_decode_lrg_l(lits: Seq<u8>, prev: int)
    requires
        16 <= lits.len() <= 0x10F,
    ensures
        lzvn_decode(lrg_l_bytes(lits.len() as int) + lits, prev) == Some(
            (literal_tokens(lits), prev),
        ),
{
    lemma_decode_one(lrg_l_bytes(lits.len() as int), lits, prev, 2, 0, prev);
    assert(copy_tokens(0, prev) =~= Seq::<Token>::empty());
    assert(literal_tokens(lits) + copy_tokens(0, prev) =~= literal_tokens(lits));
}

/// `sml_m` matches at the previous distance.
pub proof fn lemma_decode_sml_m(m: int, prev: int)
    requires
        1 <= m <= 15,
    ensures
        lzvn_decode(sml_m_bytes(m), prev) == Some((copy_tokens(m, prev), prev)),
{
    let e = Seq::<u8>::empty();
    assert(sml_m_bytes(m) + e =~= sml_m_bytes(m));
    lemma_decode_one(sml_m_bytes(m), e, prev, 1, m, prev);
    assert(literal_tokens(e) + copy_tokens(m, prev) =~= copy_tokens(m, prev));
}

/// `lrg_m` matches at the previous distance.
pub proof fn lemma_decode_lrg_m(m: int, prev: int)
    requires
        16 <= m <= 0x10F,
    ensures
        lzvn_decode(lrg_m_bytes(m), prev) == Some((copy_tokens(m, prev), prev)),
{
    let e = Seq::<u8>::empty();
    assert(lrg_m_bytes(m) + e =~= lrg_m_bytes(m));
    lemma_decode_one(lrg_m_bytes(m), e, prev, 2, m, prev);
    assert(literal_tokens(e) + copy_tokens(m, prev) =~= copy_tokens(m, prev));
}

/// `pre_d` carries its literals and matches at the previous distance.
pub proof fn lemma_decode_pre_d(lits: Seq<u8>, m: int, prev: int)
    requires
        1 <= lits.len() <= 3,
        3 <= m <= 10 - 2 * lits.len(),
    ensures
        lzvn_decode(pre_d_bytes(lits.len() as int, m) + lits, prev) == Some(
            (literal_tokens(lits) + copy_tokens(m, prev), prev),
        ),
{
    let l = lits.len() as int;
    let b = l * 64 + (m - 3) * 8 + 6;
    assert(b / 64 == l && (b / 8) % 8 == m - 3 && b % 8 == 6) by (nonlinear_arith)
        requires
            b == l * 64 + (m - 3) * 8 + 6,
            1 <= l <= 3,
            3 <= m <= 10,
    ;
    lemma_decode_one(pre_d_bytes(l, m), lits, prev, 1, m, prev);
}

/// `sml_d` carries its literals and matches at its own distance.
pub proof fn lemma_decode_sml_d(lits: Seq<u8>, m: int, d: int, prev: int)
    requires
        lits.len() <= 3,
        3 <= m <= 10 - 2 * lits.len(),
        0 <= d < 0x600,
    ensures
        lzvn_decode(sml_d_bytes(lits.len() as int, m, d) + lits, prev) == Some(
            (literal_tokens(lits) + copy_tokens(m, d), d),
        ),
{
    let l = lits.len() as int;
    let b = l * 64 + (m - 3) * 8 + d / 256;
    assert(b / 64 == l && (b / 8) % 8 == m - 3 && b % 8 == d / 256 && (b % 8) * 256 + d % 256
        == d) by (nonlinear_arith)
        requires
            b == l * 64 + (m - 3) * 8 + d / 256,
            0 <= l <= 3,
            3 <= m <= 10,
            0 <= d < 0x600,
    ;
    lemma_decode_one(sml_d_bytes(l, m, d), lits, prev, 2, m, d);
}

/// `med_d` carries its literals and matches at its own distance.
pub proof fn lemma_decode_med_d(lits: Seq<u8>, m: int, d: int, prev: int)
    requires
        lits.len() <= 3,
        3 <= m <= 34,
        0 <= d < 0x4000,
    ensures
        lzvn_decode(med_d_bytes(lits.len() as int, m, d) + lits, prev) == Some(
            (literal_tokens(lits) + copy_tokens(m, d), d),
        ),
{
    let l = lits.len() as int;
    let b = 0xA0 + l * 8 + (m - 3) / 4;
    let v = d * 4 + (m - 3) % 4;
    assert((b / 8) % 4 == l && (b % 8) * 4 + (v % 256) % 4 + 3 == m && (v % 256) / 4 + (v / 256)
        * 64 == d && 0xA0 <= b < 0xC0 && v / 256 < 256) by (nonlinear_arith)
        requires
            b == 0xA0 + l * 8 + (m - 3) / 4,
            v == d * 4 + (m - 3) % 4,
            0 <= l <= 3,
            3 <= m <= 34,
            0 <= d < 0x4000,
    ;
    lemma_decode_one(med_d_bytes(l, m, d), lits, prev, 3, m, d);
}

/// `lrg_d` carries its literals and matches at its own distance.
pub proof fn lemma_decode_lrg_d(lits: Seq<u8>, m: int, d: int, prev: int)
    requires
        lits.len() <= 3,
        3 <= m <= 10 - 2 * lits.len(),
        0 <= d <= 0xFFFF,
    ensures
        lzvn_decode(lrg_d_bytes(lits.len() as int, m, d) + lits, prev) == Some(
            (literal_tokens(lits) + copy_tokens(m, d), d),
        ),
{
    let l = lits.len() as int;
    let b = l * 64 + (m - 3) * 8 + 7;
    assert(b / 64 == l && (b / 8) % 8 == m - 3 && b % 8 == 7 && d % 256 + (d / 256) * 256 == d)
        by (nonlinear_arith)
        requires
            b == l * 64 + (m - 3) * 8 + 7,
            0 <= l <= 3,
            3 <= m <= 10,
            0 <= d <= 0xFFFF,
    ;
    lemma_decode_one(lrg_d_bytes(l, m, d), lits, prev, 3, m, d);
}

/// Literal scripts put together are the script of the literals put together.
proof fn lemma_literal_tokens_add(a: Seq<u8>, b: Seq<u8>)
    ensures
        literal_tokens(a + b) == literal_tokens(a) + literal_tokens(b),
{
    assert(literal_tokens(a + b) =~= literal_tokens(a) + literal_tokens(b));
}

/// Two matches at one distance put together are one match of both lengths.
proof fn lemma_copy_tokens_add(a: int, b: int, d: int)
    requires
        0 <= a,
        0 <= b,
    ensures
        copy_tokens(a, d) + copy_tokens(b, d) == copy_tokens(a + b, d),
{
    assert(copy_tokens(a, d) + copy_tokens(b, d) =~= copy_tokens(a + b, d));
}

/// The large literal opcodes carry the literals ahead of what they leave.
proof fn lemma_decode_lrg_literals(lits: Seq<u8>, prev: int)
    ensures
        lrg_rest(lits).len() <= lits.len(),
        lrg_rest(lits).len() < 16,
        lrg_rest(lits) == lits.skip(lits.len() - lrg_rest(lits).len()),
        lzvn_decode(lrg_literals(lits), prev) == Some(
            (literal_tokens(lits.take(lits.len() - lrg_rest(lits).len())), prev),
        ),
    decreases lits.len(),
{
    reveal(lzvn_decode);
    if lits.len() >= 16 {
        let x = lrg_chunk(lits.len() as int);
        let rest = lits.skip(x);
        lemma_decode_lrg_literals(rest, prev);
        let k2 = rest.len() - lrg_rest(rest).len();
        lemma_decode_lrg_l(lits.take(x), prev);
        lemma_decode_append(
            lrg_l_bytes(x) + lits.take(x),
            lrg_literals(rest),
            prev,
            literal_tokens(lits.take(x)),
            prev,
            literal_tokens(rest.take(k2)),
            prev,
        );
        lemma_literal_tokens_add(lits.take(x), rest.take(k2));
        assert(lits.take(x) + rest.take(k2) =~= lits.take(x + k2));
        assert(rest.skip(k2) =~= lits.skip(x + k2));
    } else {
        assert(lits.take(0) =~= Seq::<u8>::empty());
        assert(lits.skip(0) =~= lits);
        assert(literal_tokens(Seq::<u8>::empty()) =~= Seq::<Token>::empty());
    }
}

/// The bytes that `push_literals` appends read back as exactly the literals it was given, and
/// leave the previous distance as it was.
pub proof fn lemma_literal_bytes_decode(lits: Seq<u8>, prev: int)
    ensures
        lzvn_decode(literal_bytes(lits), prev) == Some((literal_tokens(lits), prev)),
{
    lemma_decode_lrg_literals(lits, prev);
    let rest = lrg_rest(lits);
    let k = lits.len() - rest.len();
    if rest.len() > 0 {
        lemma_decode_sml_l(rest, prev);
        lemma_decode_append(
            lrg_literals(lits),
            sml_l_bytes(rest.len() as int) + rest,
            prev,
            literal_tokens(lits.take(k)),
            prev,
            literal_tokens(rest),
            prev,
        );
        lemma_literal_tokens_add(lits.take(k), rest);
        assert(lits.take(k) + rest =~= lits);
    } else {
        assert(literal_bytes(lits) =~= lrg_literals(lits));
        assert(lits.take(k) =~= lits);
    }
}

/// The match opcodes at the previous distance carry the whole match.
pub proof fn lemma_decode_match_bytes(m: int, d: int)
    requires
        0 <= m,
    ensures
        lzvn_decode(match_bytes(m), d) == Some((copy_tokens(m, d), d)),
    decreases m,
{
    reveal(lzvn_decode);
    if m > 15 {
        let x = lrg_chunk(m);
        lemma_decode_lrg_m(x, d);
        lemma_decode_match_bytes(m - x, d);
        lemma_decode_append(
            lrg_m_bytes(x),
            match_bytes(m - x),
            d,
            copy_tokens(x, d),
            d,
            copy_tokens(m - x, d),
            d,
        );
        lemma_copy_tokens_add(x, m - x, d);
    } else if m > 0 {
        lemma_decode_sml_m(m, d);
    } else {
        assert(copy_tokens(0, d) =~= Seq::<Token>::empty());
    }
}

/// The literal opcodes ahead of a match carry all the literals but the last few.
proof fn lemma_decode_lead(lits: Seq<u8>, prev: int)
    ensures
        tail_literals(lits).len() <= 3,
        tail_literals(lits).len() <= lits.len(),
        tail_literals(lits) == lits.skip(lits.len() - tail_literals(lits).len()),
        lzvn_decode(lead_bytes(lits), prev) == Some(
            (literal_tokens(lits.take(lits.len() - tail_literals(lits).len())), prev),
        ),
{
    lemma_decode_lrg_literals(lits, prev);
    let rest = lrg_rest(lits);
    let k = lits.len() - rest.len();
    if rest.len() >= 4 {
        lemma_decode_sml_l(rest, prev);
        lemma_decode_append(
            lrg_literals(lits),
            sml_l_bytes(rest.len() as int) + rest,
            prev,
            literal_tokens(lits.take(k)),
            prev,
            literal_tokens(rest),
            prev,
        );
        lemma_literal_tokens_add(lits.take(k), rest);
        assert(lits.take(k) + rest =~= lits);
        assert(lits.take(lits.len() as int) =~= lits);
        assert(lits.skip(lits.len() as int) =~= Seq::<u8>::empty());
    } else {
        assert(lead_bytes(lits) =~= lrg_literals(lits));
    }
}

/// The opcode that carries the last literals and the head of a match.
proof fn lemma_decode_match_op(tail: Seq<u8>, n: int, rest: int, d: int, prev: int)
    requires
        tail.len() <= 3,
        1 <= n <= spec_match_len_x(tail.len() as int),
        n < 3 ==> d == prev && tail.len() == 0,
        0 < d <= 0xFFFF,
    ensures
        lzvn_decode(match_op_bytes(tail, n, rest, d, prev), prev) == Some(
            (literal_tokens(tail) + copy_tokens(n, d), d),
        ),
{
    let l = tail.len() as int;
    if d == prev {
        if l == 0 {
            lemma_decode_sml_m(n, prev);
            assert(literal_tokens(tail) + copy_tokens(n, d) =~= copy_tokens(n, d));
        } else {
            lemma_decode_pre_d(tail, n, prev);
        }
    } else if d < 0x600 {
        lemma_decode_sml_d(tail, n, d, prev);
    } else if d >= 0x4000 || rest == 0 || n + rest > 0x22 {
        lemma_decode_lrg_d(tail, n, d, prev);
    } else {
        lemma_decode_med_d(tail, n, d, prev);
    }
}

/// The bytes that `push_match` appends read back as exactly the literals it was given
/// followed by `m` bytes copied from `d` back, and leave `d` as the previous distance.
pub proof fn lemma_vn_match_bytes_decode(lits: Seq<u8>, m: int, d: int, prev: int)
    requires
        1 <= m,
        m < 3 ==> d == prev && tail_literals(lits).len() == 0,
        0 < d <= 0xFFFF,
    ensures
        lzvn_decode(vn_match_bytes(lits, m, d, prev), prev) == Some(
            (literal_tokens(lits) + copy_tokens(m, d), d),
        ),
{
    let tail = tail_literals(lits);
    let l = tail.len() as int;
    let n = match_head(l, m);
    let k = lits.len() - l;
    lemma_decode_lead(lits, prev);
    lemma_decode_match_op(tail, n, m - n, d, prev);
    lemma_decode_match_bytes(m - n, d);
    lemma_decode_append(
        lead_bytes(lits),
        match_op_bytes(tail, n, m - n, d, prev),
        prev,
        literal_tokens(lits.take(k)),
        prev,
        literal_tokens(tail) + copy_tokens(n, d),
        d,
    );
    lemma_decode_append(
        lead_bytes(lits) + match_op_bytes(tail, n, m - n, d, prev),
        match_bytes(m - n),
        prev,
        literal_tokens(lits.take(k)) + (literal_tokens(tail) + copy_tokens(n, d)),
        d,
        copy_tokens(m - n, d),
        d,
    );
    lemma_literal_tokens_add(lits.take(k), tail);
    assert(lits.take(k) + tail =~= lits);
    lemma_copy_tokens_add(n, m - n, d);
    let lt = literal_tokens(lits.take(k));
    let tt = literal_tokens(tail);
    assert(lt + (tt + copy_tokens(n, d)) + copy_tokens(m - n, d) =~= (lt + tt) + (copy_tokens(
        n,
        d,
    ) + copy_tokens(m - n, d)));
}

} // verus!
