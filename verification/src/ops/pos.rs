use vstd::prelude::*;

use crate::types::Idx;

verus! {

/// A byte stream that knows its current position.
pub trait Pos {
    /// The bytes of the stream so far.
    spec fn stream(&self) -> Seq<u8>;

    fn pos(&self) -> (r: Idx)
        ensures
            r.value() == self.stream().len() % 0x1_0000_0000,
    ;
}

impl Pos for Vec<u8> {
    open spec fn stream(&self) -> Seq<u8> {
        self@
    }

    fn pos(&self) -> Idx {
        Idx::from_usize(self.len())
    }
}

impl<T: Pos + ?Sized> Pos for &mut T {
    open spec fn stream(&self) -> Seq<u8> {
        (**self).stream()
    }

    fn pos(&self) -> Idx {
        (**self).pos()
    }
}

} // verus!
