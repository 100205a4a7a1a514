use vstd::prelude::*;

verus! {

/// Seals `Width`: only the widths of this crate implement it.
pub trait Sealed {}

} // verus!
