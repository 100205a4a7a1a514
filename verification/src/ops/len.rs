use vstd::prelude::*;

verus! {

/// A byte source of known length.
pub trait Len {
    /// The value is well formed.
    spec fn inv(&self) -> bool;

    /// The bytes it holds.
    spec fn contents(&self) -> Seq<u8>;

    fn len(&self) -> (n: usize)
        requires
            self.inv(),
        ensures
            n == self.contents().len(),
    ;
}

impl Len for &[u8] {
    open spec fn inv(&self) -> bool {
        true
    }

    open spec fn contents(&self) -> Seq<u8> {
        self@
    }

    fn len(&self) -> usize {
        (**self).len()
    }
}

impl Len for &mut [u8] {
    open spec fn inv(&self) -> bool {
        true
    }

    open spec fn contents(&self) -> Seq<u8> {
        (**self)@
    }

    fn len(&self) -> usize {
        let s: &[u8] = &**self;
        assert(s@ == (**self)@);
        assert(s@ == self.contents());
        s.len()
    }
}

impl<T: Len + ?Sized> Len for &mut T {
    open spec fn inv(&self) -> bool {
        (**self).inv()
    }

    open spec fn contents(&self) -> Seq<u8> {
        (**self).contents()
    }

    fn len(&self) -> usize {
        (**self).len()
    }
}

} // verus!
