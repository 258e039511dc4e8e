//! Primitive integers: how each maps to the unsigned value of its bytes, and
//! how one is read from and written to a buffer in a given byte order.

use vstd::prelude::*;
use crate::byte_order::{
    decode_uint, encode_uint, lemma_pow256_values, load_uint, overwrite, pow256, store_uint,
    ByteOrder,
};

verus! {

/// An integer of one to sixteen bytes. Its raw value is the unsigned number
/// that its two's-complement bytes spell; the byte order of a field then
/// decides how those bytes are laid out.
pub trait PrimitiveInt: Copy + Sized {
    /// The number of bytes.
    spec fn width() -> nat;

    /// The unsigned value of the integer's bytes.
    spec fn raw(self) -> nat;

    /// The integer whose bytes have the unsigned value `raw`.
    spec fn from_raw(raw: nat) -> Self;

    /// An integer has one to sixteen bytes.
    proof fn lemma_width()
        ensures
            1 <= Self::width() <= 16,
    ;

    /// The raw value fits in the integer's bytes.
    proof fn lemma_raw_bound(self)
        ensures
            self.raw() < pow256(Self::width()),
    ;

    /// An integer comes back from its raw value.
    proof fn lemma_from_raw_of_raw(self)
        ensures
            Self::from_raw(self.raw()) == self,
    ;

    /// A raw value that fits comes back from its integer.
    proof fn lemma_raw_of_from_raw(raw: nat)
        requires
            raw < pow256(Self::width()),
        ensures
            Self::from_raw(raw).raw() == raw,
    ;

    /// The number of bytes.
    fn byte_width() -> (w: usize)
        ensures
            w == Self::width(),
    ;

    /// The unsigned value of the integer's bytes.
    fn to_raw(self) -> (raw: u128)
        ensures
            raw == self.raw(),
    ;

    /// The integer whose bytes have the unsigned value `raw`.
    fn of_raw(raw: u128) -> (v: Self)
        requires
            raw < pow256(Self::width()),
        ensures
            v == Self::from_raw(raw as nat),
    ;
}

/// The integer that `bytes`, stored in `order`, stand for.
pub open spec fn decode_int<T: PrimitiveInt>(bytes: Seq<u8>, order: ByteOrder) -> T {
    T::from_raw(decode_uint(bytes, order))
}

/// The bytes that store the integer `v` in `order`.
pub open spec fn encode_int<T: PrimitiveInt>(v: T, order: ByteOrder) -> Seq<u8> {
    encode_uint(v.raw(), T::width(), order)
}

/// Reads the integer stored at `offset` in `order`.
pub fn read_int<T: PrimitiveInt>(storage: &[u8], offset: usize, order: ByteOrder) -> (v: T)
    requires
        offset + T::width() <= storage@.len(),
    ensures
        v == decode_int::<T>(storage@.subrange(offset as int, offset + T::width()), order),
{
    proof {
        T::lemma_width();
    }
    let raw: u128 = load_uint(storage, offset, T::byte_width(), order);
    T::of_raw(raw)
}

/// Writes the integer `v` at `offset` in `order`. Only its own bytes change.
pub fn write_int<T: PrimitiveInt>(storage: &mut [u8], offset: usize, order: ByteOrder, v: T)
    requires
        offset + T::width() <= old(storage)@.len(),
    ensures
        final(storage)@ == overwrite(old(storage)@, offset as int, encode_int(v, order)),
{
    proof {
        T::lemma_width();
        v.lemma_raw_bound();
    }
    store_uint(storage, offset, T::byte_width(), order, v.to_raw())
}

impl PrimitiveInt for u8 {
    open spec fn width() -> nat {
        1
    }

    open spec fn raw(self) -> nat {
        self as nat
    }

    open spec fn from_raw(raw: nat) -> Self {
        raw as u8
    }

    proof fn lemma_width() {
    }

    proof fn lemma_raw_bound(self) {
        lemma_pow256_values();
    }

    proof fn lemma_from_raw_of_raw(self) {
    }

    proof fn lemma_raw_of_from_raw(raw: nat) {
        lemma_pow256_values();
    }

    fn byte_width() -> (w: usize) {
        1
    }

    fn to_raw(self) -> (raw: u128) {
        self as u128
    }

    fn of_raw(raw: u128) -> (v: Self) {
        proof {
            lemma_pow256_values();
        }
        raw as u8
    }
}

impl PrimitiveInt for u16 {
    open spec fn width() -> nat {
        2
    }

    open spec fn raw(self) -> nat {
        self as nat
    }

    open spec fn from_raw(raw: nat) -> Self {
        raw as u16
    }

    proof fn lemma_width() {
    }

    proof fn lemma_raw_bound(self) {
        lemma_pow256_values();
    }

    proof fn lemma_from_raw_of_raw(self) {
    }

    proof fn lemma_raw_of_from_raw(raw: nat) {
        lemma_pow256_values();
    }

    fn byte_width() -> (w: usize) {
        2
    }

    fn to_raw(self) -> (raw: u128) {
        self as u128
    }

    fn of_raw(raw: u128) -> (v: Self) {
        proof {
            lemma_pow256_values();
        }
        raw as u16
    }
}

impl PrimitiveInt for u32 {
    open spec fn width() -> nat {
        4
    }

    open spec fn raw(self) -> nat {
        self as nat
    }

    open spec fn from_raw(raw: nat) -> Self {
        raw as u32
    }

    proof fn lemma_width() {
    }

    proof fn lemma_raw_bound(self) {
        lemma_pow256_values();
    }

    proof fn lemma_from_raw_of_raw(self) {
    }

    proof fn lemma_raw_of_from_raw(raw: nat) {
        lemma_pow256_values();
    }

    fn byte_width() -> (w: usize) {
        4
    }

    fn to_raw(self) -> (raw: u128) {
        self as u128
    }

    fn of_raw(raw: u128) -> (v: Self) {
        proof {
            lemma_pow256_values();
        }
        raw as u32
    }
}

impl PrimitiveInt for u64 {
    open spec fn width() -> nat {
        8
    }

    open spec fn raw(self) -> nat {
        self as nat
    }

    open spec fn from_raw(raw: nat) -> Self {
        raw as u64
    }

    proof fn lemma_width() {
    }

    proof fn lemma_raw_bound(self) {
        lemma_pow256_values();
    }

    proof fn lemma_from_raw_of_raw(self) {
    }

    proof fn lemma_raw_of_from_raw(raw: nat) {
        lemma_pow256_values();
    }

    fn byte_width() -> (w: usize) {
        8
    }

    fn to_raw(self) -> (raw: u128) {
        self as u128
    }

    fn of_raw(raw: u128) -> (v: Self) {
        proof {
            lemma_pow256_values();
        }
        raw as u64
    }
}

impl PrimitiveInt for u128 {
    open spec fn width() -> nat {
        16
    }

    open spec fn raw(self) -> nat {
        self as nat
    }

    open spec fn from_raw(raw: nat) -> Self {
        raw as u128
    }

    proof fn lemma_width() {
    }

    proof fn lemma_raw_bound(self) {
        lemma_pow256_values();
    }

    proof fn lemma_from_raw_of_raw(self) {
    }

    proof fn lemma_raw_of_from_raw(raw: nat) {
        lemma_pow256_values();
    }

    fn byte_width() -> (w: usize) {
        16
    }

    fn to_raw(self) -> (raw: u128) {
        self as u128
    }

    fn of_raw(raw: u128) -> (v: Self) {
        proof {
            lemma_pow256_values();
        }
        raw as u128
    }
}

impl PrimitiveInt for i8 {
    open spec fn width() -> nat {
        1
    }

    open spec fn raw(self) -> nat {
        if self < 0 {
            (self + 0x100) as nat
        } else {
            self as nat
        }
    }

    open spec fn from_raw(raw: nat) -> Self {
        if raw >= 0x80 {
            (raw - 0x100) as i8
        } else {
            raw as i8
        }
    }

    proof fn lemma_width() {
    }

    proof fn lemma_raw_bound(self) {
        lemma_pow256_values();
    }

    proof fn lemma_from_raw_of_raw(self) {
    }

    proof fn lemma_raw_of_from_raw(raw: nat) {
        lemma_pow256_values();
    }

    fn byte_width() -> (w: usize) {
        1
    }

    fn to_raw(self) -> (raw: u128) {
        if self < 0 {
            (self as i128 + 0x100) as u128
        } else {
            self as u128
        }
    }

    fn of_raw(raw: u128) -> (v: Self) {
        proof {
            lemma_pow256_values();
        }
        if raw >= 0x80 {
            (raw as i128 - 0x100) as i8
        } else {
            raw as i8
        }
    }
}

impl PrimitiveInt for i16 {
    open spec fn width() -> nat {
        2
    }

    open spec fn raw(self) -> nat {
        if self < 0 {
            (self + 0x1_0000) as nat
        } else {
            self as nat
        }
    }

    open spec fn from_raw(raw: nat) -> Self {
        if raw >= 0x8000 {
            (raw - 0x1_0000) as i16
        } else {
            raw as i16
        }
    }

    proof fn lemma_width() {
    }

    proof fn lemma_raw_bound(self) {
        lemma_pow256_values();
    }

    proof fn lemma_from_raw_of_raw(self) {
    }

    proof fn lemma_raw_of_from_raw(raw: nat) {
        lemma_pow256_values();
    }

    fn byte_width() -> (w: usize) {
        2
    }

    fn to_raw(self) -> (raw: u128) {
        if self < 0 {
            (self as i128 + 0x1_0000) as u128
        } else {
            self as u128
        }
    }

    fn of_raw(raw: u128) -> (v: Self) {
        proof {
            lemma_pow256_values();
        }
        if raw >= 0x8000 {
            (raw as i128 - 0x1_0000) as i16
        } else {
            raw as i16
        }
    }
}

impl PrimitiveInt for i32 {
    open spec fn width() -> nat {
        4
    }

    open spec fn raw(self) -> nat {
        if self < 0 {
            (self + 0x1_0000_0000) as nat
        } else {
            self as nat
        }
    }

    open spec fn from_raw(raw: nat) -> Self {
        if raw >= 0x8000_0000 {
            (raw - 0x1_0000_0000) as i32
        } else {
            raw as i32
        }
    }

    proof fn lemma_width() {
    }

    proof fn lemma_raw_bound(self) {
        lemma_pow256_values();
    }

    proof fn lemma_from_raw_of_raw(self) {
    }

    proof fn lemma_raw_of_from_raw(raw: nat) {
        lemma_pow256_values();
    }

    fn byte_width() -> (w: usize) {
        4
    }

    fn to_raw(self) -> (raw: u128) {
        if self < 0 {
            (self as i128 + 0x1_0000_0000) as u128
        } else {
            self as u128
        }
    }

    fn of_raw(raw: u128) -> (v: Self) {
        proof {
            lemma_pow256_values();
        }
        if raw >= 0x8000_0000 {
            (raw as i128 - 0x1_0000_0000) as i32
        } else {
            raw as i32
        }
    }
}

impl PrimitiveInt for i64 {
    open spec fn width() -> nat {
        8
    }

    open spec fn raw(self) -> nat {
        if self < 0 {
            (self + 0x1_0000_0000_0000_0000) as nat
        } else {
            self as nat
        }
    }

    open spec fn from_raw(raw: nat) -> Self {
        if raw >= 0x8000_0000_0000_0000 {
            (raw - 0x1_0000_0000_0000_0000) as i64
        } else {
            raw as i64
        }
    }

    proof fn lemma_width() {
    }

    proof fn lemma_raw_bound(self) {
        lemma_pow256_values();
    }

    proof fn lemma_from_raw_of_raw(self) {
    }

    proof fn lemma_raw_of_from_raw(raw: nat) {
        lemma_pow256_values();
    }

    fn byte_width() -> (w: usize) {
        8
    }

    fn to_raw(self) -> (raw: u128) {
        if self < 0 {
            (self as i128 + 0x1_0000_0000_0000_0000) as u128
        } else {
            self as u128
        }
    }

    fn of_raw(raw: u128) -> (v: Self) {
        proof {
            lemma_pow256_values();
        }
        if raw >= 0x8000_0000_0000_0000 {
            (raw as i128 - 0x1_0000_0000_0000_0000) as i64
        } else {
            raw as i64
        }
    }
}

impl PrimitiveInt for i128 {
    open spec fn width() -> nat {
        16
    }

    open spec fn raw(self) -> nat {
        if self < 0 {
            (self + u128::MAX + 1) as nat
        } else {
            self as nat
        }
    }

    open spec fn from_raw(raw: nat) -> Self {
        if raw > i128::MAX {
            (raw - u128::MAX - 1) as i128
        } else {
            raw as i128
        }
    }

    proof fn lemma_width() {
    }

    proof fn lemma_raw_bound(self) {
        lemma_pow256_values();
    }

    proof fn lemma_from_raw_of_raw(self) {
    }

    proof fn lemma_raw_of_from_raw(raw: nat) {
        lemma_pow256_values();
    }

    fn byte_width() -> (w: usize) {
        16
    }

    fn to_raw(self) -> (raw: u128) {
        if self < 0 {
            u128::MAX - (-(self + 1)) as u128
        } else {
            self as u128
        }
    }

    fn of_raw(raw: u128) -> (v: Self) {
        proof {
            lemma_pow256_values();
        }
        if raw > 0x7fff_ffff_ffff_ffff_ffff_ffff_ffff_ffff {
            -((u128::MAX - raw) as i128) - 1
        } else {
            raw as i128
        }
    }
}

} // verus!
