pub mod match_fast;
pub mod ops;

pub use match_fast::{
    fast_match_dec, fast_match_dec_unchecked, fast_match_inc, fast_match_inc_unchecked,
};
pub use ops::{nclz_bytes, nctz_bytes};
