//! Byte orders, and the conversion between unsigned values and their bytes.

use vstd::prelude::*;

verus! {

/// The order in which the bytes of a multi-byte value are laid out.
#[derive(Clone, Copy, Debug, PartialEq, Eq, Structural)]
pub enum ByteOrder {
    /// Least significant byte first.
    Little,
    /// Most significant byte first.
    Big,
}

/// The number of values that `n` bytes can hold.
pub open spec fn pow256(n: nat) -> nat
    decreases n,
{
    if n == 0 {
        1
    } else {
        256 * pow256((n - 1) as nat)
    }
}

/// The value that `bytes` spell, least significant byte first.
pub open spec fn le_value(bytes: Seq<u8>) -> nat
    decreases bytes.len(),
{
    if bytes.len() == 0 {
        0
    } else {
        bytes[0] as nat + 256 * le_value(bytes.drop_first())
    }
}

/// The `width` low bytes of `v`, least significant byte first.
pub open spec fn le_bytes(v: nat, width: nat) -> Seq<u8>
    decreases width,
{
    if width == 0 {
        Seq::empty()
    } else {
        seq![(v % 256) as u8] + le_bytes(v / 256, (width - 1) as nat)
    }
}

/// `bytes` as stored in `order`, given least significant byte first (and back:
/// the same function turns stored bytes into least-significant-first bytes).
pub open spec fn ordered(bytes: Seq<u8>, order: ByteOrder) -> Seq<u8> {
    match order {
        ByteOrder::Little => bytes,
        ByteOrder::Big => bytes.reverse(),
    }
}

/// The unsigned value that `bytes`, stored in `order`, spell.
pub open spec fn decode_uint(bytes: Seq<u8>, order: ByteOrder) -> nat {
    le_value(ordered(bytes, order))
}

/// The `width` bytes that store `v` in `order`.
pub open spec fn encode_uint(v: nat, width: nat, order: ByteOrder) -> Seq<u8> {
    ordered(le_bytes(v, width), order)
}

/// `buf` with the bytes from `offset` on replaced by `data`; every other byte,
/// and the length, stay.
pub open spec fn overwrite(buf: Seq<u8>, offset: int, data: Seq<u8>) -> Seq<u8> {
    Seq::new(
        buf.len(),
        |i: int|
            if offset <= i < offset + data.len() {
                data[i - offset]
            } else {
                buf[i]
            },
    )
}

/// The bounds of one to sixteen bytes, written out.
pub proof fn lemma_pow256_values()
    ensures
        pow256(0) == 1,
        pow256(1) == 0x100,
        pow256(2) == 0x1_0000,
        pow256(3) == 0x100_0000,
        pow256(4) == 0x1_0000_0000,
        pow256(5) == 0x100_0000_0000,
        pow256(6) == 0x1_0000_0000_0000,
        pow256(7) == 0x100_0000_0000_0000,
        pow256(8) == 0x1_0000_0000_0000_0000,
        pow256(9) == 0x100_0000_0000_0000_0000,
        pow256(10) == 0x1_0000_0000_0000_0000_0000,
        pow256(11) == 0x100_0000_0000_0000_0000_0000,
        pow256(12) == 0x1_0000_0000_0000_0000_0000_0000,
        pow256(13) == 0x100_0000_0000_0000_0000_0000_0000,
        pow256(14) == 0x1_0000_0000_0000_0000_0000_0000_0000,
        pow256(15) == 0x100_0000_0000_0000_0000_0000_0000_0000,
        pow256(16) == u128::MAX + 1,
{
    reveal_with_fuel(pow256, 18);
}

/// More bytes hold more values.
pub proof fn lemma_pow256_monotonic(a: nat, b: nat)
    requires
        a <= b,
    ensures
        1 <= pow256(a) <= pow256(b),
    decreases b,
{
    if a == 0 && b == 0 {
    } else if a == b {
        lemma_pow256_monotonic((a - 1) as nat, (b - 1) as nat);
    } else {
        lemma_pow256_monotonic(a, (b - 1) as nat);
    }
}

/// A value is laid out on exactly the bytes asked for.
pub proof fn lemma_le_bytes_len(v: nat, width: nat)
    ensures
        le_bytes(v, width).len() == width,
    decreases width,
{
    if width > 0 {
        lemma_le_bytes_len(v / 256, (width - 1) as nat);
    }
}

/// Putting a byte in front adds it below the value of the rest.
pub proof fn lemma_le_value_prepend(b: u8, rest: Seq<u8>)
    ensures
        le_value(seq![b] + rest) == b as nat + 256 * le_value(rest),
{
    let s = seq![b] + rest;
    assert(s.drop_first() =~= rest);
}

/// What bytes spell fits in as many bytes.
pub proof fn lemma_le_value_bound(bytes: Seq<u8>)
    ensures
        le_value(bytes) < pow256(bytes.len()),
    decreases bytes.len(),
{
    if bytes.len() > 0 {
        lemma_le_value_bound(bytes.drop_first());
    }
}

/// A value that fits in `width` bytes comes back from its bytes.
pub proof fn lemma_le_value_of_le_bytes(v: nat, width: nat)
    requires
        v < pow256(width),
    ensures
        le_value(le_bytes(v, width)) == v,
    decreases width,
{
    if width > 0 {
        lemma_le_bytes_len(v / 256, (width - 1) as nat);
        lemma_le_value_of_le_bytes(v / 256, (width - 1) as nat);
        lemma_le_value_prepend((v % 256) as u8, le_bytes(v / 256, (width - 1) as nat));
    }
}

/// Bytes come back from the value they spell.
pub proof fn lemma_le_bytes_of_le_value(bytes: Seq<u8>)
    ensures
        le_bytes(le_value(bytes), bytes.len()) == bytes,
    decreases bytes.len(),
{
    if bytes.len() > 0 {
        let rest = bytes.drop_first();
        lemma_le_bytes_of_le_value(rest);
        let v = le_value(bytes);
        assert(v % 256 == bytes[0] as nat && v / 256 == le_value(rest));
        assert(le_bytes(v, bytes.len()) =~= bytes);
    } else {
        assert(le_bytes(le_value(bytes), bytes.len()) =~= bytes);
    }
}

/// Ordering twice gives the bytes back, and ordering keeps their number.
pub proof fn lemma_ordered_twice(bytes: Seq<u8>, order: ByteOrder)
    ensures
        ordered(ordered(bytes, order), order) == bytes,
        ordered(bytes, order).len() == bytes.len(),
{
    assert(bytes.reverse().reverse() =~= bytes);
}

/// Encoding keeps the width, and decoding what was encoded gives the value back.
pub proof fn lemma_decode_encode_uint(v: nat, width: nat, order: ByteOrder)
    requires
        v < pow256(width),
    ensures
        encode_uint(v, width, order).len() == width,
        decode_uint(encode_uint(v, width, order), order) == v,
{
    lemma_le_bytes_len(v, width);
    lemma_ordered_twice(le_bytes(v, width), order);
    lemma_le_value_of_le_bytes(v, width);
}

/// Decoding stays below the bound of the width, and encoding it gives the
/// bytes back.
pub proof fn lemma_encode_decode_uint(bytes: Seq<u8>, order: ByteOrder)
    ensures
        decode_uint(bytes, order) < pow256(bytes.len()),
        encode_uint(decode_uint(bytes, order), bytes.len(), order) == bytes,
{
    lemma_ordered_twice(bytes, order);
    lemma_le_value_bound(ordered(bytes, order));
    lemma_le_bytes_of_le_value(ordered(bytes, order));
}

/// Where the byte of significance `k` (0 is the lowest) of a field of `width`
/// bytes at `offset` lies.
pub open spec fn position(offset: int, width: int, order: ByteOrder, k: int) -> int {
    match order {
        ByteOrder::Little => offset + k,
        ByteOrder::Big => offset + width - 1 - k,
    }
}

/// Reads the unsigned value of the `width` bytes at `offset`, stored in `order`.
pub fn load_uint(storage: &[u8], offset: usize, width: usize, order: ByteOrder) -> (v: u128)
    requires
        width <= 16,
        offset + width <= storage@.len(),
    ensures
        v == decode_uint(storage@.subrange(offset as int, offset + width), order),
        v < pow256(width as nat),
{
    let ghost field = storage@.subrange(offset as int, offset + width);
    let ghost le = ordered(field, order);
    let total: usize = storage.len();
    let mut acc: u128 = 0;
    let mut k: usize = width;
    proof {
        assert(le.subrange(width as int, width as int) =~= Seq::<u8>::empty());
    }
    while k > 0
        invariant
            k <= width <= 16,
            offset + width <= total,
            total == storage@.len(),
            field == storage@.subrange(offset as int, offset + width),
            le == ordered(field, order),
            le.len() == width,
            acc == le_value(le.subrange(k as int, width as int)),
        decreases k,
    {
        k = k - 1;
        let at: usize = match order {
            ByteOrder::Little => offset + k,
            ByteOrder::Big => offset + (width - 1 - k),
        };
        let b: u8 = storage[at];
        proof {
            let rest = le.subrange(k + 1, width as int);
            assert(b == le[k as int]);
            assert(le.subrange(k as int, width as int) =~= seq![b] + rest);
            lemma_le_value_prepend(b, rest);
            lemma_le_value_bound(rest);
            lemma_pow256_monotonic(rest.len(), 15);
            lemma_pow256_values();
        }
        acc = acc * 256 + b as u128;
    }
    proof {
        assert(le.subrange(0, width as int) =~= le);
        lemma_le_value_bound(le);
    }
    acc
}

/// Stores `v` into the `width` bytes at `offset`, in `order`.
pub fn store_uint(storage: &mut [u8], offset: usize, width: usize, order: ByteOrder, v: u128)
    requires
        width <= 16,
        offset + width <= old(storage)@.len(),
        v < pow256(width as nat),
    ensures
        final(storage)@ == overwrite(
            old(storage)@,
            offset as int,
            encode_uint(v as nat, width as nat, order),
        ),
{
    let ghost le = le_bytes(v as nat, width as nat);
    let total: usize = storage.len();
    let mut rest: u128 = v;
    let mut k: usize = 0;
    proof {
        lemma_le_bytes_len(v as nat, width as nat);
        assert(le.subrange(0, width as int) =~= le);
    }
    while k < width
        invariant
            k <= width <= 16,
            offset + width <= total,
            total == storage@.len(),
            storage@.len() == old(storage)@.len(),
            le == le_bytes(v as nat, width as nat),
            le.len() == width,
            le.subrange(k as int, width as int) == le_bytes(rest as nat, (width - k) as nat),
            forall|j: int|
                0 <= j < k ==> storage@[#[trigger] position(
                    offset as int,
                    width as int,
                    order,
                    j,
                )] == le[j],
            forall|i: int|
                0 <= i < storage@.len() && !(offset <= i < offset + width)
                    ==> storage@[i] == old(storage)@[i],
            forall|j: int|
                k <= j < width ==> storage@[#[trigger] position(
                    offset as int,
                    width as int,
                    order,
                    j,
                )] == old(storage)@[position(offset as int, width as int, order, j)],
        decreases width - k,
    {
        let at: usize = match order {
            ByteOrder::Little => offset + k,
            ByteOrder::Big => offset + (width - 1 - k),
        };
        let ghost before = storage@;
        proof {
            let tail = le.subrange(k as int, width as int);
            assert(tail[0] == le[k as int]);
            assert(tail.drop_first() =~= le.subrange(k + 1, width as int));
            assert(le_bytes(rest as nat, (width - k) as nat).drop_first() =~= le_bytes(
                rest as nat / 256,
                (width - k - 1) as nat,
            ));
            assert(at == position(offset as int, width as int, order, k as int));
        }
        storage[at] = (rest % 256) as u8;
        rest = rest / 256;
        proof {
            assert forall|j: int| 0 <= j < k + 1 implies storage@[#[trigger] position(
                offset as int,
                width as int,
                order,
                j,
            )] == le[j] by {
                if j < k {
                    assert(before[position(offset as int, width as int, order, j)] == le[j]);
                }
            }
        }
        k = k + 1;
    }
    proof {
        let enc = encode_uint(v as nat, width as nat, order);
        let want = overwrite(old(storage)@, offset as int, enc);
        assert(enc.len() == width);
        assert forall|i: int| 0 <= i < want.len() implies storage@[i] == want[i] by {
            if offset <= i < offset + width {
                let m = i - offset;
                let j = match order {
                    ByteOrder::Little => m,
                    ByteOrder::Big => width - 1 - m,
                };
                assert(position(offset as int, width as int, order, j) == i);
                assert(enc[m] == le[j]);
            }
        }
        assert(storage@ =~= want);
    }
}

} // verus!
