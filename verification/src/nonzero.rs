//! Integers that are never zero.

use vstd::prelude::*;
use crate::primitive::PrimitiveInt;

verus! {

/// An integer known not to be zero. The only ways to one are [`NonZero::new`],
/// which checks, and a fallible read of a field.
#[derive(Debug)]
pub struct NonZero<T: PrimitiveInt> {
    value: T,
}

impl<T: PrimitiveInt> Clone for NonZero<T> {
    fn clone(&self) -> (r: Self)
        ensures
            r == *self,
    {
        *self
    }
}

impl<T: PrimitiveInt> Copy for NonZero<T> {

}

/// A field that must not be zero held the value zero.
#[derive(Clone, Copy, Debug, PartialEq, Eq, Structural)]
pub struct NonZeroIsZeroError {
    /// The offset of the field that was read.
    pub offset: usize,
}

impl NonZeroIsZeroError {
    /// The message of this error.
    pub fn message(&self) -> (s: &'static str)
        ensures
            s@ == "tried to read a zero value from a field that must not be zero"@,
    {
        "tried to read a zero value from a field that must not be zero"
    }
}

impl<T: PrimitiveInt> NonZero<T> {
    #[verifier::type_invariant]
    spec fn not_zero(self) -> bool {
        self.value.raw() != 0
    }

    /// The integer held.
    pub closed spec fn value(self) -> T {
        self.value
    }

    /// Whether the integer held is indeed not zero: true of every value that
    /// a program holds.
    pub open spec fn is_valid(self) -> bool {
        self.value().raw() != 0
    }

    /// The value that holds `value`: what `new` gives for a `value` other
    /// than zero.
    pub closed spec fn of(value: T) -> Self {
        NonZero { value }
    }

    /// `of` holds what it was given.
    pub proof fn lemma_of_value(value: T)
        ensures
            Self::of(value).value() == value,
    {
    }

    /// A value is determined by the integer it holds.
    pub proof fn lemma_of_own_value(self)
        ensures
            Self::of(self.value()) == self,
    {
    }

    /// Accepts every `value` but zero.
    pub fn new(value: T) -> (r: Option<Self>)
        ensures
            r == if value.raw() == 0 {
                None
            } else {
                Some(Self::of(value))
            },
    {
        if value.to_raw() == 0 {
            None
        } else {
            Some(NonZero { value })
        }
    }

    /// The integer held, which is not zero.
    pub fn get(self) -> (v: T)
        ensures
            v == self.value(),
            self.is_valid(),
    {
        proof {
            use_type_invariant(&self);
        }
        self.value
    }
}

} // verus!
