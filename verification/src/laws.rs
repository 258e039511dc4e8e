//! What holds of every field and every buffer, stated over the functions
//! that the contracts of the views speak of.

use vstd::prelude::*;
use crate::byte_order::{decode_uint, le_value, ordered, overwrite, ByteOrder};
use crate::field::{
    field_bytes, in_bounds, written, Field, FieldCopyAccess, FieldReadExt, FieldRoundTrip,
    FieldWriteExt,
};
use crate::fields::{ArrayField, Endianness, NonZeroField};
use crate::nonzero::{NonZero, NonZeroIsZeroError};
use crate::primitive::PrimitiveInt;

verus! {

/// Overwriting a field changes neither the length of the buffer nor any byte
/// outside the field, and puts the data where the field lies.
pub proof fn lemma_overwrite(buf: Seq<u8>, offset: nat, data: Seq<u8>)
    requires
        offset + data.len() <= buf.len(),
    ensures
        overwrite(buf, offset as int, data).len() == buf.len(),
        overwrite(buf, offset as int, data).subrange(offset as int, (offset + data.len()) as int)
            == data,
        forall|i: int|
            0 <= i < buf.len() && !(offset <= i < offset + data.len()) ==> overwrite(
                buf,
                offset as int,
                data,
            )[i] == buf[i],
{
    let after = overwrite(buf, offset as int, data);
    assert(after.subrange(offset as int, (offset + data.len()) as int) =~= data);
}

/// A read after a write gives the value written: in a buffer that holds the
/// field, the bytes of the field after `write(v)` decode to `v`.
pub proof fn lemma_write_then_read<F: FieldRoundTrip>(buf: Seq<u8>, v: F::HighLevelType)
    requires
        in_bounds::<F>(buf),
    ensures
        in_bounds::<F>(overwrite(buf, F::offset() as int, F::encode(v))),
        F::decode(field_bytes::<F>(overwrite(buf, F::offset() as int, F::encode(v)))) == v,
{
    F::lemma_encode_len(v);
    lemma_overwrite(buf, F::offset(), F::encode(v));
    F::lemma_decode_encode(v);
}

/// A fallible read after a fallible write that succeeded gives the value
/// written.
pub proof fn lemma_try_write_then_try_read<F: FieldCopyAccess>(buf: Seq<u8>, v: F::HighLevelType)
    requires
        in_bounds::<F>(buf),
        F::valid(v),
        F::try_encode(v) is Ok,
    ensures
        in_bounds::<F>(written::<F>(buf, v)),
        F::try_decode(field_bytes::<F>(written::<F>(buf, v))) == Ok::<
            F::HighLevelType,
            F::ReadError,
        >(v),
{
    F::lemma_try_encode_len(v);
    lemma_overwrite(buf, F::offset(), F::try_encode(v)->Ok_0);
    F::lemma_try_decode_encode(v);
}

/// A write never changes the length of the buffer nor a byte outside the
/// field written to.
pub proof fn lemma_write_touches_only_field<F: FieldWriteExt>(
    buf: Seq<u8>,
    v: F::HighLevelType,
    i: int,
)
    requires
        in_bounds::<F>(buf),
        0 <= i < buf.len(),
        !(F::offset() <= i < F::offset() + F::size()->Some_0),
    ensures
        overwrite(buf, F::offset() as int, F::encode(v)).len() == buf.len(),
        overwrite(buf, F::offset() as int, F::encode(v))[i] == buf[i],
{
    F::lemma_encode_len(v);
    lemma_overwrite(buf, F::offset(), F::encode(v));
}

/// Fields that do not overlap do not disturb each other: after a write to
/// field `A`, field `B` holds the bytes it held.
pub proof fn lemma_write_keeps_other_field<A: FieldWriteExt, B: Field>(
    buf: Seq<u8>,
    v: A::HighLevelType,
)
    requires
        in_bounds::<A>(buf),
        in_bounds::<B>(buf),
        match B::size() {
            Some(n) => B::offset() + n <= A::offset() || A::offset() + A::size()->Some_0
                <= B::offset(),
            None => A::offset() + A::size()->Some_0 <= B::offset(),
        },
    ensures
        in_bounds::<B>(overwrite(buf, A::offset() as int, A::encode(v))),
        field_bytes::<B>(overwrite(buf, A::offset() as int, A::encode(v))) == field_bytes::<B>(
            buf,
        ),
{
    A::lemma_encode_len(v);
    lemma_overwrite(buf, A::offset(), A::encode(v));
    let after = overwrite(buf, A::offset() as int, A::encode(v));
    assert(field_bytes::<B>(after) =~= field_bytes::<B>(buf));
}

/// A fallible write never changes the length of the buffer nor a byte outside
/// the field written to, and one that fails changes nothing at all.
pub proof fn lemma_try_write_touches_only_field<F: FieldCopyAccess>(
    buf: Seq<u8>,
    v: F::HighLevelType,
    i: int,
)
    requires
        in_bounds::<F>(buf),
        0 <= i < buf.len(),
        F::size() is Some,
        !(F::offset() <= i < F::offset() + F::size()->Some_0),
    ensures
        written::<F>(buf, v).len() == buf.len(),
        written::<F>(buf, v)[i] == buf[i],
        F::try_encode(v) is Err ==> written::<F>(buf, v) == buf,
{
    F::lemma_try_encode_len(v);
    if F::try_encode(v) is Ok {
        lemma_overwrite(buf, F::offset(), F::try_encode(v)->Ok_0);
    }
}

/// Bytes spell zero exactly when each of them is zero, in either byte order.
pub proof fn lemma_decode_uint_zero(bytes: Seq<u8>, order: ByteOrder)
    ensures
        decode_uint(bytes, order) == 0 <==> (forall|i: int| 0 <= i < bytes.len() ==> bytes[i] == 0),
{
    let le = ordered(bytes, order);
    lemma_le_value_zero(le);
    if decode_uint(bytes, order) == 0 {
        assert forall|i: int| 0 <= i < bytes.len() implies bytes[i] == 0 by {
            match order {
                ByteOrder::Little => {},
                ByteOrder::Big => {
                    assert(le[bytes.len() - 1 - i] == bytes[i]);
                },
            }
        }
    }
    if forall|i: int| 0 <= i < bytes.len() ==> bytes[i] == 0 {
        assert forall|i: int| 0 <= i < le.len() implies le[i] == 0 by {
            match order {
                ByteOrder::Little => {},
                ByteOrder::Big => {
                    assert(le[i] == bytes[bytes.len() - 1 - i]);
                },
            }
        }
    }
}

proof fn lemma_le_value_zero(bytes: Seq<u8>)
    ensures
        le_value(bytes) == 0 <==> (forall|i: int| 0 <= i < bytes.len() ==> bytes[i] == 0),
    decreases bytes.len(),
{
    if bytes.len() > 0 {
        let rest = bytes.drop_first();
        lemma_le_value_zero(rest);
        if le_value(bytes) == 0 {
            assert forall|i: int| 0 <= i < bytes.len() implies bytes[i] == 0 by {
                if i > 0 {
                    assert(rest[i - 1] == bytes[i]);
                }
            }
        }
        if forall|i: int| 0 <= i < bytes.len() ==> bytes[i] == 0 {
            assert forall|i: int| 0 <= i < rest.len() implies rest[i] == 0 by {
                assert(rest[i] == bytes[i + 1]);
            }
        }
    }
}

/// A field that must not be zero rejects exactly the bytes that are all
/// zero, with the error that says so.
pub proof fn lemma_nonzero_rejects_zero<T: PrimitiveInt, E: Endianness, const OFFSET: usize>(
    bytes: Seq<u8>,
)
    ensures
        (forall|i: int| 0 <= i < bytes.len() ==> bytes[i] == 0) <==> NonZeroField::<
            T,
            E,
            OFFSET,
        >::try_decode(bytes) == Err::<NonZero<T>, NonZeroIsZeroError>(
            NonZeroIsZeroError { offset: OFFSET },
        ),
{
    lemma_decode_uint_zero(bytes, E::order());
}

/// An array that agrees with `bytes` on its first `k` places.
proof fn lemma_array_prefix<const N: usize>(bytes: Seq<u8>, k: nat) -> (a: [u8; N])
    requires
        bytes.len() == N,
        k <= N,
    ensures
        a@.len() == N,
        forall|j: int| 0 <= j < k ==> a@[j] == bytes[j],
    decreases k,
{
    broadcast use vstd::array::group_array_axioms;

    if k == 0 {
        vstd::array::spec_array_fill_for_copy_type::<u8, N>(0u8)
    } else {
        let shorter = lemma_array_prefix::<N>(bytes, (k - 1) as nat);
        vstd::array::spec_array_update(shorter, k - 1, bytes[k - 1])
    }
}

/// A field of raw bytes decodes to the array that holds exactly its bytes.
pub proof fn lemma_array_decode<const N: usize, const OFFSET: usize>(bytes: Seq<u8>)
    requires
        bytes.len() == N,
    ensures
        ArrayField::<N, OFFSET>::decode(bytes)@ == bytes,
{
    let a = lemma_array_prefix::<N>(bytes, N as nat);
    assert(a@ =~= bytes);
}

/// What is written through the trailing region is what the trailing region
/// then holds, and the bytes before it stay: for a buffer whose tail from
/// `offset` on was replaced by `data`.
pub proof fn lemma_tail_sees_writes(buf: Seq<u8>, offset: nat, data: Seq<u8>)
    requires
        offset <= buf.len(),
    ensures
        ({
            let after = buf.subrange(0, offset as int) + data;
            &&& after.len() - offset == data.len()
            &&& after.subrange(offset as int, after.len() as int) == data
            &&& after.subrange(0, offset as int) == buf.subrange(0, offset as int)
        }),
{
    let after = buf.subrange(0, offset as int) + data;
    assert(after.subrange(offset as int, after.len() as int) =~= data);
    assert(after.subrange(0, offset as int) =~= buf.subrange(0, offset as int));
}

} // verus!
