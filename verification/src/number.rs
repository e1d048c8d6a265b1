//! The numeric values that can be measured and summed.

use vstd::prelude::*;

verus! {

/// A measurement value: a copyable number with a zero, addition, subtraction
/// and equality.
///
/// Contracts speak of a number through `as_int`, its mathematical value.
/// `representable` tells which mathematical values the type can hold, so that
/// arithmetic is only asked for where the result fits.
pub trait Number: Copy + Sized {
    /// The mathematical value of this number.
    spec fn as_int(self) -> int;

    /// Whether the type has a number whose value is `v`.
    spec fn representable(v: int) -> bool;

    /// Every number's value is representable, and two numbers with the same
    /// value are the same number.
    proof fn lemma_value_is_faithful(a: Self, b: Self)
        ensures
            Self::representable(a.as_int()),
            a.as_int() == b.as_int() ==> a == b,
    ;

    /// The number zero.
    fn zero() -> (z: Self)
        ensures
            z.as_int() == 0,
    ;

    /// `self + rhs`.
    fn plus(self, rhs: Self) -> (r: Self)
        requires
            Self::representable(self.as_int() + rhs.as_int()),
        ensures
            r.as_int() == self.as_int() + rhs.as_int(),
    ;

    /// `self - rhs`.
    fn minus(self, rhs: Self) -> (r: Self)
        requires
            Self::representable(self.as_int() - rhs.as_int()),
        ensures
            r.as_int() == self.as_int() - rhs.as_int(),
    ;

    /// `self + rhs` where it fits, `None` where it does not.
    fn checked_plus(self, rhs: Self) -> (r: Option<Self>)
        ensures
            r is Some <==> Self::representable(self.as_int() + rhs.as_int()),
            r matches Some(s) ==> s.as_int() == self.as_int() + rhs.as_int(),
    ;

    /// `self - rhs` where it fits, `None` where it does not.
    fn checked_minus(self, rhs: Self) -> (r: Option<Self>)
        ensures
            r is Some <==> Self::representable(self.as_int() - rhs.as_int()),
            r matches Some(s) ==> s.as_int() == self.as_int() - rhs.as_int(),
    ;

    /// Whether the two numbers have the same value.
    fn equals(self, rhs: Self) -> (b: bool)
        ensures
            b == (self.as_int() == rhs.as_int()),
    ;
}

impl Number for i64 {
    open spec fn as_int(self) -> int {
        self as int
    }

    open spec fn representable(v: int) -> bool {
        i64::MIN <= v <= i64::MAX
    }

    proof fn lemma_value_is_faithful(a: Self, b: Self) {
    }

    fn zero() -> (z: Self) {
        0
    }

    fn plus(self, rhs: Self) -> (r: Self) {
        self + rhs
    }

    fn minus(self, rhs: Self) -> (r: Self) {
        self - rhs
    }

    fn checked_plus(self, rhs: Self) -> (r: Option<Self>) {
        self.checked_add(rhs)
    }

    fn checked_minus(self, rhs: Self) -> (r: Option<Self>) {
        self.checked_sub(rhs)
    }

    fn equals(self, rhs: Self) -> (b: bool) {
        self == rhs
    }
}

impl Number for u64 {
    open spec fn as_int(self) -> int {
        self as int
    }

    open spec fn representable(v: int) -> bool {
        0 <= v <= u64::MAX
    }

    proof fn lemma_value_is_faithful(a: Self, b: Self) {
    }

    fn zero() -> (z: Self) {
        0
    }

    fn plus(self, rhs: Self) -> (r: Self) {
        self + rhs
    }

    fn minus(self, rhs: Self) -> (r: Self) {
        self - rhs
    }

    fn checked_plus(self, rhs: Self) -> (r: Option<Self>) {
        self.checked_add(rhs)
    }

    fn checked_minus(self, rhs: Self) -> (r: Option<Self>) {
        self.checked_sub(rhs)
    }

    fn equals(self, rhs: Self) -> (b: bool) {
        self == rhs
    }
}

} // verus!
