use vstd::prelude::*;
use crate::text::{decimal, push_decimal};

verus! {

/// A numeric element type: a machine integer that stands for a mathematical
/// one, with exact addition and multiplication wherever the result is
/// representable.
pub trait Scalar: Copy + Sized {
    /// The integer that this value stands for.
    spec fn value(self) -> int;

    /// Whether the type can represent the integer `v`.
    spec fn fits(v: int) -> bool;

    /// The additive identity.
    fn zero() -> (z: Self)
        ensures
            z.value() == 0,
    ;

    /// Exact sum.
    fn plus(self, other: Self) -> (sum: Self)
        requires
            Self::fits(self.value() + other.value()),
        ensures
            sum.value() == self.value() + other.value(),
    ;

    /// Exact product.
    fn times(self, other: Self) -> (product: Self)
        requires
            Self::fits(self.value() * other.value()),
        ensures
            product.value() == self.value() * other.value(),
    ;

    /// The sum, where the type can represent it.
    fn checked_plus(self, other: Self) -> (sum: Option<Self>)
        ensures
            match sum {
                Some(s) => Self::fits(self.value() + other.value()) && s.value() == self.value()
                    + other.value(),
                None => !Self::fits(self.value() + other.value()),
            },
    ;

    /// The product, where the type can represent it.
    fn checked_times(self, other: Self) -> (product: Option<Self>)
        ensures
            match product {
                Some(p) => Self::fits(self.value() * other.value()) && p.value() == self.value()
                    * other.value(),
                None => !Self::fits(self.value() * other.value()),
            },
    ;

    /// Appends the decimal text of the value to `out`.
    fn push_text(&self, out: &mut String)
        ensures
            final(out)@ == old(out)@ + decimal(self.value()),
    ;
}

impl Scalar for i32 {
    open spec fn value(self) -> int {
        self as int
    }

    open spec fn fits(v: int) -> bool {
        i32::MIN <= v <= i32::MAX
    }

    fn zero() -> (z: Self) {
        0
    }

    fn plus(self, other: Self) -> (sum: Self) {
        self + other
    }

    fn times(self, other: Self) -> (product: Self) {
        self * other
    }

    fn checked_plus(self, other: Self) -> (sum: Option<Self>) {
        self.checked_add(other)
    }

    fn checked_times(self, other: Self) -> (product: Option<Self>) {
        self.checked_mul(other)
    }

    fn push_text(&self, out: &mut String) {
        push_decimal(out, *self as i128)
    }
}

impl Scalar for i64 {
    open spec fn value(self) -> int {
        self as int
    }

    open spec fn fits(v: int) -> bool {
        i64::MIN <= v <= i64::MAX
    }

    fn zero() -> (z: Self) {
        0
    }

    fn plus(self, other: Self) -> (sum: Self) {
        self + other
    }

    fn times(self, other: Self) -> (product: Self) {
        self * other
    }

    fn checked_plus(self, other: Self) -> (sum: Option<Self>) {
        self.checked_add(other)
    }

    fn checked_times(self, other: Self) -> (product: Option<Self>) {
        self.checked_mul(other)
    }

    fn push_text(&self, out: &mut String) {
        push_decimal(out, *self as i128)
    }
}

impl Scalar for u32 {
    open spec fn value(self) -> int {
        self as int
    }

    open spec fn fits(v: int) -> bool {
        u32::MIN <= v <= u32::MAX
    }

    fn zero() -> (z: Self) {
        0
    }

    fn plus(self, other: Self) -> (sum: Self) {
        self + other
    }

    fn times(self, other: Self) -> (product: Self) {
        self * other
    }

    fn checked_plus(self, other: Self) -> (sum: Option<Self>) {
        self.checked_add(other)
    }

    fn checked_times(self, other: Self) -> (product: Option<Self>) {
        self.checked_mul(other)
    }

    fn push_text(&self, out: &mut String) {
        push_decimal(out, *self as i128)
    }
}

impl Scalar for u64 {
    open spec fn value(self) -> int {
        self as int
    }

    open spec fn fits(v: int) -> bool {
        u64::MIN <= v <= u64::MAX
    }

    fn zero() -> (z: Self) {
        0
    }

    fn plus(self, other: Self) -> (sum: Self) {
        self + other
    }

    fn times(self, other: Self) -> (product: Self) {
        self * other
    }

    fn checked_plus(self, other: Self) -> (sum: Option<Self>) {
        self.checked_add(other)
    }

    fn checked_times(self, other: Self) -> (product: Option<Self>) {
        self.checked_mul(other)
    }

    fn push_text(&self, out: &mut String) {
        push_decimal(out, *self as i128)
    }
}

/// The integers that a sequence of scalars stands for.
pub open spec fn values<T: Scalar>(s: Seq<T>) -> Seq<int> {
    Seq::new(s.len(), |i: int| s[i].value())
}

} // verus!
