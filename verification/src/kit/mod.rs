pub mod copy;
pub mod wide;

pub use copy::{CopyType, CopyTypeIndex, CopyTypeLong, CopyTypePtr};
pub use wide::{Width, W00, W08, W16, WIDE, Wide};
