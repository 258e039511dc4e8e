//! Storage: the byte buffers a field view can stand on.
//!
//! Reading and writing are two separate capabilities. An owned buffer and an
//! exclusive borrow have both; a shared borrow has only the first, so nothing
//! that writes can be called on it.

use vstd::prelude::*;

verus! {

/// A storage whose bytes can be read.
pub trait ReadStorage {
    /// The bytes held.
    spec fn bytes(&self) -> Seq<u8>;

    /// The bytes held, as a slice.
    fn as_bytes(&self) -> (s: &[u8])
        ensures
            s@ == self.bytes(),
    ;
}

/// A storage whose bytes can be overwritten in place. The length is fixed by
/// the slice handed out.
pub trait WriteStorage: ReadStorage {
    /// The bytes held, as a mutable slice: what is written through it is what
    /// the storage holds afterwards.
    fn as_bytes_mut(&mut self) -> (s: &mut [u8])
        ensures
            s@ == old(self).bytes(),
            final(self).bytes() == final(s)@,
    ;
}

impl ReadStorage for Vec<u8> {
    open spec fn bytes(&self) -> Seq<u8> {
        self@
    }

    fn as_bytes(&self) -> (s: &[u8]) {
        self.as_slice()
    }
}

impl WriteStorage for Vec<u8> {
    fn as_bytes_mut(&mut self) -> (s: &mut [u8]) {
        self.as_mut_slice()
    }
}

impl<'a> ReadStorage for &'a [u8] {
    open spec fn bytes(&self) -> Seq<u8> {
        (*self)@
    }

    fn as_bytes(&self) -> (s: &[u8]) {
        *self
    }
}

impl<'a> ReadStorage for &'a mut [u8] {
    open spec fn bytes(&self) -> Seq<u8> {
        (*self)@
    }

    fn as_bytes(&self) -> (s: &[u8]) {
        &**self
    }
}

impl<'a> WriteStorage for &'a mut [u8] {
    fn as_bytes_mut(&mut self) -> (s: &mut [u8]) {
        &mut **self
    }
}

} // verus!
