pub mod object;
pub mod ring_box;
pub mod ring_size;
pub mod ring_type;
pub mod ring_view;

pub use object::{Ring, OVERMATCH_LEN};
pub use ring_box::RingBox;
pub use ring_size::RingSize;
pub use ring_type::RingType;
pub use ring_view::RingView;
