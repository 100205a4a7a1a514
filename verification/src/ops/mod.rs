pub mod allocate;
pub mod copy_long;
pub mod copy_short;
pub mod len;
pub mod limit;
pub mod pos;
pub mod short_limit;
pub mod skip;
pub mod truncate;
pub mod write_short;

pub use allocate::Allocate;
pub use copy_long::CopyLong;
pub use copy_short::CopyShort;
pub use len::Len;
pub use limit::Limit;
pub use pos::Pos;
pub use short_limit::ShortLimit;
pub use skip::Skip;
pub use truncate::Truncate;
pub use write_short::WriteShort;
