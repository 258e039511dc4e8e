//! The field view: one storage bound to one field.

use vstd::prelude::*;
use vstd::slice::slice_subrange;
use core::marker::PhantomData;
use crate::byte_order::overwrite;
use crate::field::{
    field_bytes, fits, in_bounds, written, Field, FieldCopyAccess, FieldReadExt, FieldWriteExt,
};
use crate::fields::TailField;
use crate::storage::{ReadStorage, WriteStorage};

verus! {

/// A field view holds a storage (a `&[u8]`, a `&mut [u8]` or an owning
/// `Vec<u8>`) and remembers, in its type, which field of the layout it
/// stands for, so that the buffer need not be passed in on each access.
///
/// Which operations a view offers depends on both parameters: reading needs
/// a [`ReadStorage`], writing a [`WriteStorage`], and the field decides
/// whether access is infallible (`read`, `write`) or can fail (`try_read`,
/// `try_write`).
pub struct FieldView<S, F: Field> {
    storage: S,
    _p: PhantomData<F>,
}

impl<S, F: Field> FieldView<S, F> {
    /// The storage that the view stands on.
    pub closed spec fn storage(&self) -> S {
        self.storage
    }

    /// Creates a view of a field over a given storage. Nothing is checked
    /// here: whether the storage is long enough matters only on access.
    pub fn new(storage: S) -> (view: Self)
        ensures
            view.storage() == storage,
    {
        Self { storage, _p: PhantomData }
    }

    /// Gives the storage back.
    pub fn into_storage(self) -> (storage: S)
        ensures
            storage == self.storage(),
    {
        self.storage
    }
}

impl<S: ReadStorage, F: Field> FieldView<S, F> {
    /// The bytes of the whole storage.
    pub open spec fn bytes(&self) -> Seq<u8> {
        self.storage().bytes()
    }

    /// Whether the storage is long enough to hold the field: what every
    /// access asks for.
    pub fn fits(&self) -> (b: bool)
        ensures
            b == in_bounds::<F>(self.bytes()),
    {
        fits::<F>(self.storage.as_bytes())
    }
}

impl<S: ReadStorage, F: FieldReadExt> FieldView<S, F> {
    /// Reads the field from the storage.
    pub fn read(&self) -> (v: F::HighLevelType)
        requires
            in_bounds::<F>(self.bytes()),
        ensures
            v == F::decode(field_bytes::<F>(self.bytes())),
    {
        F::read(self.storage.as_bytes())
    }
}

impl<S: WriteStorage, F: FieldWriteExt> FieldView<S, F> {
    /// Writes the field to the storage. Exactly the field's bytes are
    /// overwritten.
    pub fn write(&mut self, v: F::HighLevelType)
        requires
            in_bounds::<F>(old(self).bytes()),
        ensures
            final(self).bytes() == overwrite(old(self).bytes(), F::offset() as int, F::encode(v)),
    {
        F::write(self.storage.as_bytes_mut(), v)
    }
}

impl<S: ReadStorage, F: FieldCopyAccess> FieldView<S, F> {
    /// Reads the field from the storage, or says why its bytes are no value.
    pub fn try_read(&self) -> (r: Result<F::HighLevelType, F::ReadError>)
        requires
            in_bounds::<F>(self.bytes()),
        ensures
            r == F::try_decode(field_bytes::<F>(self.bytes())),
    {
        F::try_read(self.storage.as_bytes())
    }
}

impl<S: WriteStorage, F: FieldCopyAccess> FieldView<S, F> {
    /// Writes the field to the storage, or says why the value has no
    /// encoding; the storage is then left as it was.
    pub fn try_write(&mut self, v: F::HighLevelType) -> (r: Result<(), F::WriteError>)
        requires
            in_bounds::<F>(old(self).bytes()),
        ensures
            final(self).bytes() == written::<F>(old(self).bytes(), v),
            match F::try_encode(v) {
                Ok(_) => r is Ok,
                Err(e) => r == Err::<(), F::WriteError>(e),
            },
    {
        F::try_write(self.storage.as_bytes_mut(), v)
    }
}

impl<S: ReadStorage, const OFFSET: usize> FieldView<S, TailField<OFFSET>> {
    /// The trailing region: the bytes from the field's offset to the end of
    /// the storage.
    pub fn tail(&self) -> (s: &[u8])
        requires
            in_bounds::<TailField<OFFSET>>(self.bytes()),
        ensures
            s@ == self.bytes().subrange(OFFSET as int, self.bytes().len() as int),
            s@.len() == self.bytes().len() - OFFSET,
    {
        let all = self.storage.as_bytes();
        slice_subrange(all, OFFSET, all.len())
    }
}

impl<S: WriteStorage, const OFFSET: usize> FieldView<S, TailField<OFFSET>> {
    /// The trailing region, to be written in place: the storage ends up
    /// holding its bytes before the offset as they were, followed by what
    /// the slice handed out holds when the caller is done with it.
    pub fn tail_mut(&mut self) -> (s: &mut [u8])
        requires
            in_bounds::<TailField<OFFSET>>(old(self).bytes()),
        ensures
            s@ == old(self).bytes().subrange(OFFSET as int, old(self).bytes().len() as int),
            s@.len() == old(self).bytes().len() - OFFSET,
            final(self).bytes() == old(self).bytes().subrange(0, OFFSET as int) + final(s)@,
    {
        let all = self.storage.as_bytes_mut();
        let (_, tail) = all.split_at_mut(OFFSET);
        tail
    }
}

} // verus!
