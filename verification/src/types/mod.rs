pub mod idx;
pub mod short_buffer;
pub mod short_bytes;
pub mod wide_bytes_mut;

pub use idx::Idx;
pub use short_buffer::ShortBuffer;
pub use short_bytes::ShortBytes;
pub use wide_bytes_mut::WideBytesMut;
