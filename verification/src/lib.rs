//! Byte-buffer primitives of an LZFSE/LZVN compressor: wide copies with slack, cursors over
//! byte slices, an append-only output writer and a shadowed ring buffer with match scanning.

pub mod kit;
pub mod match_kit;
pub mod ops;
pub mod ring;
pub mod types;
pub mod vn;

pub use kit::{CopyType, CopyTypeIndex, CopyTypeLong, CopyTypePtr, Width, W00, W08, W16, WIDE, Wide};
