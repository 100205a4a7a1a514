use vstd::prelude::*;

verus! {

/// Bytes in an LZVN block header: magic, raw size, payload size.
pub const VN_HEADER_SIZE: u32 = 12;

/// The end of stream opcode; it is followed by seven zero bytes.
pub const EOS: u32 = 0x06;

/// LZVN block magic, "bvxn" in little-endian byte order.
pub const VN_MAGIC: u32 = 0x6e78_7662;

} // verus!
