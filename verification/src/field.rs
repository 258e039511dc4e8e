//! Field metadata and the three access capabilities.
//!
//! A field type is a marker: it is never built, it only fixes where the field
//! lies and how its bytes map to a logical value. It implements the
//! capabilities that its encoding supports: [`FieldReadExt`] and
//! [`FieldWriteExt`] where every byte pattern is a value and every value has
//! bytes, [`FieldCopyAccess`] where either direction can fail.

use vstd::prelude::*;
use crate::byte_order::overwrite;

verus! {

/// Where a field lies and what a value of it is.
pub trait Field: Sized {
    /// The logical value that a read gives and a write takes.
    type HighLevelType;

    /// The offset of the field's first byte.
    spec fn offset() -> nat;

    /// The number of bytes of the field; `None` for a field that runs to the
    /// end of the buffer.
    spec fn size() -> Option<nat>;

    /// The offset of the field's first byte.
    fn field_offset() -> (o: usize)
        ensures
            o == Self::offset(),
    ;

    /// The number of bytes of the field; `None` for a field that runs to the
    /// end of the buffer.
    fn field_size() -> (s: Option<usize>)
        ensures
            match s {
                Some(n) => Self::size() == Some(n as nat),
                None => Self::size() is None,
            },
    ;
}

/// A buffer is long enough to hold the whole of field `F`.
pub open spec fn in_bounds<F: Field>(buf: Seq<u8>) -> bool {
    match F::size() {
        Some(n) => F::offset() + n <= buf.len(),
        None => F::offset() <= buf.len(),
    }
}

/// The bytes of field `F` in a buffer.
pub open spec fn field_bytes<F: Field>(buf: Seq<u8>) -> Seq<u8> {
    match F::size() {
        Some(n) => buf.subrange(F::offset() as int, (F::offset() + n) as int),
        None => buf.subrange(F::offset() as int, buf.len() as int),
    }
}

/// Whether a buffer is long enough to hold the whole of field `F`: what every
/// access asks of the storage.
pub fn fits<F: Field>(storage: &[u8]) -> (b: bool)
    ensures
        b == in_bounds::<F>(storage@),
{
    let len: usize = storage.len();
    let offset: usize = F::field_offset();
    match F::field_size() {
        Some(n) => n <= len && offset <= len - n,
        None => offset <= len,
    }
}

/// A field of which every byte pattern is a value.
pub trait FieldReadExt: Field {
    /// The value that the field's bytes stand for.
    spec fn decode(bytes: Seq<u8>) -> Self::HighLevelType;

    /// Reads the field from a buffer that holds the whole layout.
    fn read(storage: &[u8]) -> (v: Self::HighLevelType)
        requires
            in_bounds::<Self>(storage@),
        ensures
            v == Self::decode(field_bytes::<Self>(storage@)),
    ;
}

/// A field of which every value has an encoding.
pub trait FieldWriteExt: Field {
    /// The bytes that stand for a value.
    spec fn encode(v: Self::HighLevelType) -> Seq<u8>;

    /// An encoding fills the field exactly.
    proof fn lemma_encode_len(v: Self::HighLevelType)
        ensures
            Self::size() == Some(Self::encode(v).len()),
    ;

    /// Writes the field into a buffer that holds the whole layout. Only the
    /// field's own bytes change.
    fn write(storage: &mut [u8], v: Self::HighLevelType)
        requires
            in_bounds::<Self>(old(storage)@),
        ensures
            final(storage)@ == overwrite(old(storage)@, Self::offset() as int, Self::encode(v)),
    ;
}

/// A field that can be both read and written without failure, and whose
/// encoding loses nothing.
pub trait FieldRoundTrip: FieldReadExt + FieldWriteExt {
    /// Decoding the bytes of a value gives the value.
    proof fn lemma_decode_encode(v: Self::HighLevelType)
        ensures
            Self::decode(Self::encode(v)) == v,
    ;

    /// Encoding the value of a field's bytes gives the bytes.
    proof fn lemma_encode_decode(bytes: Seq<u8>)
        requires
            Self::size() == Some(bytes.len()),
        ensures
            Self::encode(Self::decode(bytes)) == bytes,
    ;
}

/// A field whose bytes may stand for no value, or whose values may have no
/// encoding: both directions report a failure of their own kind.
pub trait FieldCopyAccess: Field {
    /// Why a byte pattern is no value.
    type ReadError;

    /// Why a value has no encoding.
    type WriteError;

    /// The values of the field's domain. Every value that a program holds is
    /// one of them.
    spec fn valid(v: Self::HighLevelType) -> bool;

    /// The value that the field's bytes stand for, or why there is none.
    spec fn try_decode(bytes: Seq<u8>) -> Result<Self::HighLevelType, Self::ReadError>;

    /// The bytes that stand for a value, or why there are none.
    spec fn try_encode(v: Self::HighLevelType) -> Result<Seq<u8>, Self::WriteError>;

    /// An encoding fills the field exactly.
    proof fn lemma_try_encode_len(v: Self::HighLevelType)
        ensures
            Self::try_encode(v) matches Ok(bytes) ==> Self::size() == Some(bytes.len()),
    ;

    /// Only values of the domain are decoded from the bytes of a field.
    proof fn lemma_try_decode_valid(bytes: Seq<u8>)
        requires
            Self::size() == Some(bytes.len()),
        ensures
            Self::try_decode(bytes) matches Ok(v) ==> Self::valid(v),
    ;

    /// Decoding the bytes of a value that has an encoding gives the value.
    proof fn lemma_try_decode_encode(v: Self::HighLevelType)
        requires
            Self::valid(v),
        ensures
            Self::try_encode(v) matches Ok(bytes) ==> Self::try_decode(bytes) == Ok::<
                Self::HighLevelType,
                Self::ReadError,
            >(v),
    ;

    /// Reads the field from a buffer that holds the whole layout.
    fn try_read(storage: &[u8]) -> (r: Result<Self::HighLevelType, Self::ReadError>)
        requires
            in_bounds::<Self>(storage@),
        ensures
            r == Self::try_decode(field_bytes::<Self>(storage@)),
    ;

    /// Writes the field into a buffer that holds the whole layout. A value
    /// without an encoding leaves the buffer as it was.
    fn try_write(storage: &mut [u8], v: Self::HighLevelType) -> (r: Result<(), Self::WriteError>)
        requires
            in_bounds::<Self>(old(storage)@),
        ensures
            match Self::try_encode(v) {
                Ok(bytes) => r is Ok && final(storage)@ == overwrite(
                    old(storage)@,
                    Self::offset() as int,
                    bytes,
                ),
                Err(e) => r == Err::<(), Self::WriteError>(e) && final(storage)@ == old(storage)@,
            },
    ;
}

/// What a buffer holds after an attempt to write `v` to field `F`.
pub open spec fn written<F: FieldCopyAccess>(buf: Seq<u8>, v: F::HighLevelType) -> Seq<u8> {
    match F::try_encode(v) {
        Ok(bytes) => overwrite(buf, F::offset() as int, bytes),
        Err(_) => buf,
    }
}

} // verus!
