use vstd::prelude::*;

use crate::ops::write_short::le_bytes;

verus! {

// LZVN opcodes, in the order their bytes appear:
//
// sml_l  1110LLLL                               literals 1..=15
// lrg_l  11100000 LLLLLLLL                      literals 16..=271
// sml_m  1111MMMM                               match 1..=15, previous distance
// lrg_m  11110000 MMMMMMMM                      match 16..=271, previous distance
// pre_d  LLMMM110                               literals 0..=3, match 3..=10, previous distance
// sml_d  LLMMMDDD DDDDDDDD                      literals 0..=3, match 3..=10, distance < 0x600
// med_d  101LLMMM DDDDDDMM DDDDDDDD             literals 0..=3, match 3..=34, distance < 0x4000
// lrg_d  LLMMM111 DDDDDDDD DDDDDDDD             literals 0..=3, match 3..=10, distance <= 0xFFFF
pub open spec fn sml_l_bytes(l: int) -> Seq<u8> {
    seq![(0xE0 + l) as u8]
}

pub open spec fn lrg_l_bytes(l: int) -> Seq<u8> {
    seq![0xE0u8, (l - 16) as u8]
}

pub open spec fn sml_m_bytes(m: int) -> Seq<u8> {
    seq![(0xF0 + m) as u8]
}

pub open spec fn lrg_m_bytes(m: int) -> Seq<u8> {
    seq![0xF0u8, (m - 16) as u8]
}

pub open spec fn pre_d_bytes(l: int, m: int) -> Seq<u8> {
    seq![(l * 64 + (m - 3) * 8 + 6) as u8]
}

pub open spec fn sml_d_bytes(l: int, m: int, d: int) -> Seq<u8> {
    seq![(l * 64 + (m - 3) * 8 + d / 256) as u8, (d % 256) as u8]
}

pub open spec fn med_d_bytes(l: int, m: int, d: int) -> Seq<u8> {
    seq![
        (0xA0 + l * 8 + (m - 3) / 4) as u8,
        ((d * 4 + (m - 3) % 4) % 256) as u8,
        ((d * 4 + (m - 3) % 4) / 256) as u8,
    ]
}

pub open spec fn lrg_d_bytes(l: int, m: int, d: int) -> Seq<u8> {
    seq![(l * 64 + (m - 3) * 8 + 7) as u8, (d % 256) as u8, (d / 256) as u8]
}

/// The longest match that an opcode with `literal_len` literals carries.
pub open spec fn spec_match_len_x(literal_len: int) -> int {
    10 - 2 * literal_len
}

proof fn lemma_le_bytes_1(v: nat)
    requires
        v < 256,
    ensures
        le_bytes(v, 1) == seq![v as u8],
{
    reveal_with_fuel(le_bytes, 2);
    assert(le_bytes(v, 1) =~= seq![v as u8]);
}

proof fn lemma_le_bytes_2(v: nat)
    requires
        v < 0x1_0000,
    ensures
        le_bytes(v, 2) == seq![(v % 256) as u8, (v / 256) as u8],
{
    reveal_with_fuel(le_bytes, 3);
    assert(le_bytes(v, 2) =~= seq![(v % 256) as u8, (v / 256) as u8]);
}

proof fn lemma_le_bytes_3(v: nat)
    requires
        v < 0x100_0000,
    ensures
        le_bytes(v, 3) == seq![(v % 256) as u8, (v / 256 % 256) as u8, (v / 256 / 256) as u8],
{
    reveal_with_fuel(le_bytes, 4);
    assert(le_bytes(v, 3) =~= seq![(v % 256) as u8, (v / 256 % 256) as u8, (v / 256 / 256) as u8]);
}

pub fn match_len_x(literal_len: u32) -> (r: u32)
    requires
        literal_len <= 3,
    ensures
        r == spec_match_len_x(literal_len as int),
{
    10 - 2 * literal_len
}

pub fn encode_sml_l(literal_len: u32) -> (r: u32)
    requires
        1 <= literal_len <= 15,
    ensures
        r == 0xE0 + literal_len,
        le_bytes(r as nat, 1) == sml_l_bytes(literal_len as int),
{
    let r = 0xE0 + literal_len;
    proof {
        lemma_le_bytes_1(r as nat);
    }
    r
}

pub fn encode_lrg_l(literal_len: u32) -> (r: u32)
    requires
        16 <= literal_len <= 0x10F,
    ensures
        r == 0xE0 + (literal_len - 16) * 256,
        le_bytes(r as nat, 2) == lrg_l_bytes(literal_len as int),
{
    let r = 0xE0 + (literal_len - 16) * 256;
    proof {
        lemma_le_bytes_2(r as nat);
    }
    r
}

pub fn encode_sml_m(match_len: u32) -> (r: u32)
    requires
        1 <= match_len <= 15,
    ensures
        r == 0xF0 + match_len,
        le_bytes(r as nat, 1) == sml_m_bytes(match_len as int),
{
    let r = 0xF0 + match_len;
    proof {
        lemma_le_bytes_1(r as nat);
    }
    r
}

pub fn encode_lrg_m(match_len: u32) -> (r: u32)
    requires
        16 <= match_len <= 0x10F,
    ensures
        r == 0xF0 + (match_len - 16) * 256,
        le_bytes(r as nat, 2) == lrg_m_bytes(match_len as int),
{
    let r = 0xF0 + (match_len - 16) * 256;
    proof {
        lemma_le_bytes_2(r as nat);
    }
    r
}

pub fn encode_pre_d(literal_len: u32, match_len: u32) -> (r: u32)
    requires
        1 <= literal_len <= 3,
        3 <= match_len <= 10,
    ensures
        r == literal_len * 64 + (match_len - 3) * 8 + 6,
        le_bytes(r as nat, 1) == pre_d_bytes(literal_len as int, match_len as int),
{
    let r = literal_len * 64 + (match_len - 3) * 8 + 6;
    proof {
        lemma_le_bytes_1(r as nat);
    }
    r
}

pub fn encode_sml_d(literal_len: u32, match_len: u32, match_distance: u32) -> (r: u32)
    requires
        literal_len <= 3,
        3 <= match_len <= 10,
        match_distance < 0x600,
    ensures
        r == literal_len * 64 + (match_len - 3) * 8 + match_distance / 256 + (match_distance % 256) * 256,
        le_bytes(r as nat, 2) == sml_d_bytes(
            literal_len as int,
            match_len as int,
            match_distance as int,
        ),
{
    let op = literal_len * 64 + (match_len - 3) * 8 + match_distance / 256;
    let r = op + (match_distance % 256) * 256;
    proof {
        lemma_le_bytes_2(r as nat);
    }
    r
}

pub fn encode_med_d(literal_len: u32, match_len: u32, match_distance: u32) -> (r: u32)
    requires
        literal_len <= 3,
        3 <= match_len <= 34,
        match_distance < 0x4000,
    ensures
        r == 0xA0 + literal_len * 8 + (match_len - 3) / 4 + (match_distance * 4 + (match_len - 3) % 4) * 256,
        le_bytes(r as nat, 3) == med_d_bytes(
            literal_len as int,
            match_len as int,
            match_distance as int,
        ),
{
    let op = 0xA0 + literal_len * 8 + (match_len - 3) / 4;
    let dm = match_distance * 4 + (match_len - 3) % 4;
    let r = op + dm * 256;
    proof {
        lemma_le_bytes_3(r as nat);
    }
    r
}

pub fn encode_lrg_d(literal_len: u32, match_len: u32, match_distance: u32) -> (r: u32)
    requires
        literal_len <= 3,
        3 <= match_len <= 10,
        match_distance <= 0xFFFF,
    ensures
        r == literal_len * 64 + (match_len - 3) * 8 + 7 + match_distance * 256,
        le_bytes(r as nat, 3) == lrg_d_bytes(
            literal_len as int,
            match_len as int,
            match_distance as int,
        ),
{
    let op = literal_len * 64 + (match_len - 3) * 8 + 7;
    let r = op + match_distance * 256;
    proof {
        lemma_le_bytes_3(r as nat);
    }
    r
}

} // verus!
