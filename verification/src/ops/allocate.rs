use vstd::prelude::*;

verus! {

#[verifier::external_type_specification]
#[verifier::external_body]
pub struct ExIoError(std::io::Error);

/// Builds `io::ErrorKind::Other` by `std::io::Error::from`; nothing is claimed of the value.
#[verifier::external_body]
pub(crate) fn other_error() -> std::io::Error {
    std::io::Error::from(std::io::ErrorKind::Other)
}

pub trait Allocate {
    /// The bytes written so far.
    spec fn written(&self) -> Seq<u8>;

    /// Allocate `len` bytes returning `io::ErrorKind::Other` in case of failure: when the
    /// bytes written and the `len` asked for would not fit in `isize::MAX`.
    fn allocate(&mut self, len: usize) -> (r: std::io::Result<()>)
        ensures
            (*final(self)).written() == (*old(self)).written(),
            r is Ok <==> (*old(self)).written().len() + len <= isize::MAX,
    ;
}

impl<T: Allocate + ?Sized> Allocate for &mut T {
    open spec fn written(&self) -> Seq<u8> {
        (**self).written()
    }

    fn allocate(&mut self, additional: usize) -> std::io::Result<()> {
        (**self).allocate(additional)
    }
}

impl Allocate for Vec<u8> {
    open spec fn written(&self) -> Seq<u8> {
        self@
    }

    fn allocate(&mut self, additional: usize) -> std::io::Result<()> {
        let index = self.len();
        if index > isize::MAX as usize || additional > isize::MAX as usize - index {
            return Err(other_error());
        }
        self.reserve(additional);
        Ok(())
    }
}

} // verus!
