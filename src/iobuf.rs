use vstd::prelude::*;

verus! {

/// A byte buffer with a known length, for sources and sinks that have one.
pub trait IoBuf {
    /// The number of bytes between the current position and the end of the
    /// buffer.
    fn remaining(&self) -> usize;
}

impl<R: IoBuf + ?Sized> IoBuf for &mut R {
    fn remaining(&self) -> (r: usize) {
        (**self).remaining()
    }
}

impl<R: IoBuf + ?Sized> IoBuf for Box<R> {
    fn remaining(&self) -> (r: usize) {
        (**self).remaining()
    }
}

impl IoBuf for std::collections::VecDeque<u8> {
    fn remaining(&self) -> (r: usize)
        ensures
            r == self@.len(),
    {
        self.len()
    }
}

impl IoBuf for &[u8] {
    fn remaining(&self) -> (r: usize)
        ensures
            r == self@.len(),
    {
        self.len()
    }
}

impl IoBuf for &mut [u8] {
    fn remaining(&self) -> (r: usize) {
        self.len()
    }
}

impl IoBuf for Vec<u8> {
    fn remaining(&self) -> (r: usize)
        ensures
            r == self@.len(),
    {
        self.len()
    }
}

} // verus!
