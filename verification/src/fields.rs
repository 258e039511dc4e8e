//! The field markers: integers, integers that must not be zero, raw bytes,
//! and the trailing region.

use vstd::prelude::*;
use core::convert::Infallible;
use core::marker::PhantomData;
use crate::byte_order::{
    decode_uint, lemma_decode_encode_uint, lemma_encode_decode_uint, overwrite, ByteOrder,
};
use crate::field::{Field, FieldCopyAccess, FieldReadExt, FieldRoundTrip, FieldWriteExt};
use crate::nonzero::{NonZero, NonZeroIsZeroError};
use crate::primitive::{decode_int, encode_int, read_int, write_int, PrimitiveInt};

verus! {

/// A byte order fixed in a type: every field of a layout names the same one.
pub trait Endianness: Sized {
    /// The byte order that the type stands for.
    spec fn order() -> ByteOrder;

    /// The byte order that the type stands for.
    fn byte_order() -> (o: ByteOrder)
        ensures
            o == Self::order(),
    ;
}

/// Least significant byte first.
pub struct LittleEndian;

/// Most significant byte first.
pub struct BigEndian;

impl Endianness for LittleEndian {
    open spec fn order() -> ByteOrder {
        ByteOrder::Little
    }

    fn byte_order() -> (o: ByteOrder) {
        ByteOrder::Little
    }
}

impl Endianness for BigEndian {
    open spec fn order() -> ByteOrder {
        ByteOrder::Big
    }

    fn byte_order() -> (o: ByteOrder) {
        ByteOrder::Big
    }
}

/// An integer `T` stored at `OFFSET` in byte order `E`. Every byte pattern is
/// a value and every value has bytes, so access cannot fail.
pub struct IntField<T, E, const OFFSET: usize> {
    _t: PhantomData<T>,
    _e: PhantomData<E>,
}

impl<T: PrimitiveInt, E: Endianness, const OFFSET: usize> Field for IntField<T, E, OFFSET> {
    type HighLevelType = T;

    open spec fn offset() -> nat {
        OFFSET as nat
    }

    open spec fn size() -> Option<nat> {
        Some(T::width())
    }

    fn field_offset() -> (o: usize) {
        OFFSET
    }

    fn field_size() -> (s: Option<usize>) {
        Some(T::byte_width())
    }
}

impl<T: PrimitiveInt, E: Endianness, const OFFSET: usize> FieldReadExt for IntField<T, E, OFFSET> {
    open spec fn decode(bytes: Seq<u8>) -> T {
        decode_int::<T>(bytes, E::order())
    }

    fn read(storage: &[u8]) -> (v: T) {
        read_int::<T>(storage, OFFSET, E::byte_order())
    }
}

impl<T: PrimitiveInt, E: Endianness, const OFFSET: usize> FieldWriteExt for IntField<T, E, OFFSET> {
    open spec fn encode(v: T) -> Seq<u8> {
        encode_int(v, E::order())
    }

    proof fn lemma_encode_len(v: T) {
        v.lemma_raw_bound();
        lemma_decode_encode_uint(v.raw(), T::width(), E::order());
    }

    fn write(storage: &mut [u8], v: T) {
        write_int(storage, OFFSET, E::byte_order(), v)
    }
}

impl<T: PrimitiveInt, E: Endianness, const OFFSET: usize> FieldRoundTrip for IntField<
    T,
    E,
    OFFSET,
> {
    proof fn lemma_decode_encode(v: T) {
        v.lemma_raw_bound();
        lemma_decode_encode_uint(v.raw(), T::width(), E::order());
        v.lemma_from_raw_of_raw();
    }

    proof fn lemma_encode_decode(bytes: Seq<u8>) {
        lemma_encode_decode_uint(bytes, E::order());
        T::lemma_raw_of_from_raw(decode_uint(bytes, E::order()));
    }
}

/// An integer `T` that must not be zero, stored at `OFFSET` in byte order
/// `E`. Bytes that spell zero are no value, so a read can fail; every value
/// has bytes, so a write cannot.
pub struct NonZeroField<T, E, const OFFSET: usize> {
    _t: PhantomData<T>,
    _e: PhantomData<E>,
}

impl<T: PrimitiveInt, E: Endianness, const OFFSET: usize> Field for NonZeroField<T, E, OFFSET> {
    type HighLevelType = NonZero<T>;

    open spec fn offset() -> nat {
        OFFSET as nat
    }

    open spec fn size() -> Option<nat> {
        Some(T::width())
    }

    fn field_offset() -> (o: usize) {
        OFFSET
    }

    fn field_size() -> (s: Option<usize>) {
        Some(T::byte_width())
    }
}

impl<T: PrimitiveInt, E: Endianness, const OFFSET: usize> FieldCopyAccess for NonZeroField<
    T,
    E,
    OFFSET,
> {
    type ReadError = NonZeroIsZeroError;

    type WriteError = Infallible;

    open spec fn valid(v: NonZero<T>) -> bool {
        v.is_valid()
    }

    open spec fn try_decode(bytes: Seq<u8>) -> Result<NonZero<T>, NonZeroIsZeroError> {
        if decode_uint(bytes, E::order()) == 0 {
            Err(NonZeroIsZeroError { offset: OFFSET })
        } else {
            Ok(NonZero::of(decode_int::<T>(bytes, E::order())))
        }
    }

    open spec fn try_encode(v: NonZero<T>) -> Result<Seq<u8>, Infallible> {
        Ok(encode_int(v.value(), E::order()))
    }

    proof fn lemma_try_encode_len(v: NonZero<T>) {
        v.value().lemma_raw_bound();
        lemma_decode_encode_uint(v.value().raw(), T::width(), E::order());
    }

    proof fn lemma_try_decode_valid(bytes: Seq<u8>) {
        let raw = decode_uint(bytes, E::order());
        if raw != 0 {
            NonZero::lemma_of_value(T::from_raw(raw));
            lemma_encode_decode_uint(bytes, E::order());
            T::lemma_raw_of_from_raw(raw);
        }
    }

    proof fn lemma_try_decode_encode(v: NonZero<T>) {
        v.value().lemma_raw_bound();
        lemma_decode_encode_uint(v.value().raw(), T::width(), E::order());
        v.value().lemma_from_raw_of_raw();
        v.lemma_of_own_value();
    }

    fn try_read(storage: &[u8]) -> (r: Result<NonZero<T>, NonZeroIsZeroError>) {
        let value: T = read_int::<T>(storage, OFFSET, E::byte_order());
        proof {
            let field = storage@.subrange(OFFSET as int, OFFSET + T::width());
            lemma_encode_decode_uint(field, E::order());
            T::lemma_raw_of_from_raw(decode_uint(field, E::order()));
        }
        match NonZero::new(value) {
            Some(v) => Ok(v),
            None => Err(NonZeroIsZeroError { offset: OFFSET }),
        }
    }

    fn try_write(storage: &mut [u8], v: NonZero<T>) -> (r: Result<(), Infallible>) {
        write_int(storage, OFFSET, E::byte_order(), v.get());
        Ok(())
    }
}

/// `N` raw bytes stored at `OFFSET`, taken as they are: no byte order applies.
pub struct ArrayField<const N: usize, const OFFSET: usize>;

impl<const N: usize, const OFFSET: usize> Field for ArrayField<N, OFFSET> {
    type HighLevelType = [u8; N];

    open spec fn offset() -> nat {
        OFFSET as nat
    }

    open spec fn size() -> Option<nat> {
        Some(N as nat)
    }

    fn field_offset() -> (o: usize) {
        OFFSET
    }

    fn field_size() -> (s: Option<usize>) {
        Some(N)
    }
}

impl<const N: usize, const OFFSET: usize> FieldReadExt for ArrayField<N, OFFSET> {
    /// The array that holds exactly `bytes`.
    open spec fn decode(bytes: Seq<u8>) -> [u8; N] {
        choose|a: [u8; N]| a@ == bytes
    }

    fn read(storage: &[u8]) -> (v: [u8; N])
        ensures
            v@ == storage@.subrange(OFFSET as int, OFFSET + N),
    {
        let ghost field = storage@.subrange(OFFSET as int, OFFSET + N);
        let total: usize = storage.len();
        let mut out: [u8; N] = [0u8; N];
        let mut i: usize = 0;
        while i < N
            invariant
                i <= N,
                OFFSET + N <= total,
                total == storage@.len(),
                field == storage@.subrange(OFFSET as int, OFFSET + N),
                forall|j: int| 0 <= j < i ==> out@[j] == field[j],
            decreases N - i,
        {
            out[i] = storage[OFFSET + i];
            i = i + 1;
        }
        proof {
            assert(out@ =~= field);
            let chosen = Self::decode(field);
            assert(chosen =~= out);
        }
        out
    }
}

impl<const N: usize, const OFFSET: usize> FieldWriteExt for ArrayField<N, OFFSET> {
    open spec fn encode(v: [u8; N]) -> Seq<u8> {
        v@
    }

    proof fn lemma_encode_len(v: [u8; N]) {
    }

    fn write(storage: &mut [u8], v: [u8; N]) {
        let total: usize = storage.len();
        let mut i: usize = 0;
        while i < N
            invariant
                i <= N,
                OFFSET + N <= total,
                total == storage@.len(),
                storage@.len() == old(storage)@.len(),
                forall|j: int| OFFSET <= j < OFFSET + i ==> storage@[j] == v@[j - OFFSET],
                forall|j: int|
                    0 <= j < total && !(OFFSET <= j < OFFSET + i) ==> storage@[j] == old(
                        storage,
                    )@[j],
            decreases N - i,
        {
            storage[OFFSET + i] = v[i];
            i = i + 1;
        }
        proof {
            assert(storage@ =~= overwrite(old(storage)@, OFFSET as int, v@));
        }
    }
}

impl<const N: usize, const OFFSET: usize> FieldRoundTrip for ArrayField<N, OFFSET> {
    proof fn lemma_decode_encode(v: [u8; N]) {
        let chosen = Self::decode(v@);
        assert(chosen =~= v);
    }

    proof fn lemma_encode_decode(bytes: Seq<u8>) {
        crate::laws::lemma_array_decode::<N, OFFSET>(bytes);
    }
}

/// The trailing region: every byte from `OFFSET` to the end of the buffer.
/// It has no value of its own; a view hands out the bytes themselves.
pub struct TailField<const OFFSET: usize>;

impl<const OFFSET: usize> Field for TailField<OFFSET> {
    type HighLevelType = ();

    open spec fn offset() -> nat {
        OFFSET as nat
    }

    open spec fn size() -> Option<nat> {
        None
    }

    fn field_offset() -> (o: usize) {
        OFFSET
    }

    fn field_size() -> (s: Option<usize>) {
        None
    }
}

} // verus!
