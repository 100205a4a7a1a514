use vstd::prelude::*;

use crate::kit::copy::{copy_slice, splice};
use crate::ops::write_short::{le_bytes, to_le_bytes};

use super::constants::VN_MAGIC;

verus! {

/// The header of an LZVN block: magic, raw size, payload size, each little-endian.
pub open spec fn header_bytes(n_raw_bytes: u32, n_payload_bytes: u32) -> Seq<u8> {
    le_bytes(VN_MAGIC as nat, 4) + le_bytes(n_raw_bytes as nat, 4) + le_bytes(
        n_payload_bytes as nat,
        4,
    )
}

/// The number that four bytes hold, least significant first.
pub open spec fn le_u32(b: Seq<u8>) -> int {
    b[0] as int + 0x100 * b[1] as int + 0x1_0000 * b[2] as int + 0x100_0000 * b[3] as int
}

/// Four little-endian bytes read back as the number they were made from.
pub proof fn lemma_le_u32_of_bytes(v: nat)
    requires
        v < 0x1_0000_0000,
    ensures
        le_bytes(v, 4).len() == 4,
        le_u32(le_bytes(v, 4)) == v,
{
    reveal_with_fuel(le_bytes, 5);
    let v1 = v / 256;
    let v2 = v1 / 256;
    let v3 = v2 / 256;
    vstd::arithmetic::div_mod::lemma_fundamental_div_mod(v as int, 256);
    vstd::arithmetic::div_mod::lemma_fundamental_div_mod(v1 as int, 256);
    vstd::arithmetic::div_mod::lemma_fundamental_div_mod(v2 as int, 256);
    assert(v3 < 256);
    assert(((v % 256) as u8) as int == v % 256);
    assert(((v1 % 256) as u8) as int == v1 % 256);
    assert(((v2 % 256) as u8) as int == v2 % 256);
    assert(((v3 % 256) as u8) as int == v3);
}

/// A header holds, little-endian, the magic number, then the raw size, then the payload size.
pub proof fn lemma_header_fields(n_raw_bytes: u32, n_payload_bytes: u32)
    ensures
        header_bytes(n_raw_bytes, n_payload_bytes).len() == 12,
        le_u32(header_bytes(n_raw_bytes, n_payload_bytes).subrange(0, 4)) == VN_MAGIC,
        le_u32(header_bytes(n_raw_bytes, n_payload_bytes).subrange(4, 8)) == n_raw_bytes,
        le_u32(header_bytes(n_raw_bytes, n_payload_bytes).subrange(8, 12)) == n_payload_bytes,
{
    let m = le_bytes(VN_MAGIC as nat, 4);
    let r = le_bytes(n_raw_bytes as nat, 4);
    let p = le_bytes(n_payload_bytes as nat, 4);
    lemma_le_u32_of_bytes(VN_MAGIC as nat);
    lemma_le_u32_of_bytes(n_raw_bytes as nat);
    lemma_le_u32_of_bytes(n_payload_bytes as nat);
    let h = header_bytes(n_raw_bytes, n_payload_bytes);
    assert(h.subrange(0, 4) =~= m);
    assert(h.subrange(4, 8) =~= r);
    assert(h.subrange(8, 12) =~= p);
}

/// An LZVN block header.
pub struct VnBlock {
    n_raw_bytes: u32,
    n_payload_bytes: u32,
}

impl VnBlock {
    pub closed spec fn spec_n_raw_bytes(&self) -> u32 {
        self.n_raw_bytes
    }

    pub closed spec fn spec_n_payload_bytes(&self) -> u32 {
        self.n_payload_bytes
    }

    pub fn new(n_raw_bytes: u32, n_payload_bytes: u32) -> (r: Self)
        ensures
            r.spec_n_raw_bytes() == n_raw_bytes,
            r.spec_n_payload_bytes() == n_payload_bytes,
    {
        VnBlock { n_raw_bytes, n_payload_bytes }
    }

    /// Writes the header at the start of `dst`.
    pub fn store(&self, dst: &mut [u8])
        requires
            12 <= old(dst)@.len(),
        ensures
            final(dst)@ == splice(
                old(dst)@,
                0,
                header_bytes(self.spec_n_raw_bytes(), self.spec_n_payload_bytes()),
            ),
    {
        let magic = to_le_bytes(VN_MAGIC as u128, 4);
        let raw = to_le_bytes(self.n_raw_bytes as u128, 4);
        let payload = to_le_bytes(self.n_payload_bytes as u128, 4);
        copy_slice(dst, 0, magic.as_slice(), 0, 4);
        copy_slice(dst, 4, raw.as_slice(), 0, 4);
        copy_slice(dst, 8, payload.as_slice(), 0, 4);
        assert(magic@.subrange(0, 4) =~= magic@);
        assert(raw@.subrange(0, 4) =~= raw@);
        assert(payload@.subrange(0, 4) =~= payload@);
        assert(dst@ =~= splice(
            old(dst)@,
            0,
            header_bytes(self.spec_n_raw_bytes(), self.spec_n_payload_bytes()),
        ));
    }
}

} // verus!
