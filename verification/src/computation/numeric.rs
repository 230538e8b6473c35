//! The integer types that the shipped strategies work on.

use vstd::prelude::*;

verus! {

/// A machine integer, seen as the mathematical integer it stands for.
///
/// Contracts speak of `value()`, so that sums are never cut short by the
/// width of the type; `fits` says which integers the type can hold.
pub trait Numeric: Copy + Sized {
    /// The integer that `self` stands for.
    spec fn value(self) -> int;

    /// Whether this type can hold `v`.
    spec fn fits(v: int) -> bool;

    /// The member of this type that stands for `v`, where `v` fits.
    spec fn from_int(v: int) -> Self;

    proof fn value_fits(self)
        ensures
            Self::fits(self.value()),
    ;

    proof fn from_int_value(v: int)
        requires
            Self::fits(v),
        ensures
            Self::from_int(v).value() == v,
    ;

    proof fn value_injective(a: Self, b: Self)
        requires
            a.value() == b.value(),
        ensures
            a == b,
    ;

    /// The integers that fit have no gaps.
    proof fn fits_between(low: int, v: int, high: int)
        requires
            Self::fits(low),
            Self::fits(high),
            low <= v <= high,
        ensures
            Self::fits(v),
    ;

    /// The member that stands for zero.
    fn zero() -> (res: Self)
        ensures
            res.value() == 0,
    ;

    /// Addition, for operands whose sum fits.
    fn plus(&self, other: &Self) -> (res: Self)
        requires
            Self::fits(self.value() + other.value()),
        ensures
            res.value() == self.value() + other.value(),
    ;

    /// The greater of the two operands.
    fn larger(&self, other: &Self) -> (res: Self)
        ensures
            res.value() == spec_max(self.value(), other.value()),
            res == *self || res == *other,
    ;
}

/// The greater of two integers.
pub open spec fn spec_max(a: int, b: int) -> int {
    if a >= b {
        a
    } else {
        b
    }
}

impl Numeric for i32 {
    open spec fn value(self) -> int {
        self as int
    }

    open spec fn fits(v: int) -> bool {
        i32::MIN <= v <= i32::MAX
    }

    open spec fn from_int(v: int) -> Self {
        v as i32
    }

    proof fn value_fits(self) {
    }

    proof fn from_int_value(v: int) {
    }

    proof fn value_injective(a: Self, b: Self) {
    }

    proof fn fits_between(low: int, v: int, high: int) {
    }

    fn zero() -> (res: Self) {
        0
    }

    fn plus(&self, other: &Self) -> (res: Self) {
        *self + *other
    }

    fn larger(&self, other: &Self) -> (res: Self) {
        if *self >= *other {
            *self
        } else {
            *other
        }
    }
}

impl Numeric for i64 {
    open spec fn value(self) -> int {
        self as int
    }

    open spec fn fits(v: int) -> bool {
        i64::MIN <= v <= i64::MAX
    }

    open spec fn from_int(v: int) -> Self {
        v as i64
    }

    proof fn value_fits(self) {
    }

    proof fn from_int_value(v: int) {
    }

    proof fn value_injective(a: Self, b: Self) {
    }

    proof fn fits_between(low: int, v: int, high: int) {
    }

    fn zero() -> (res: Self) {
        0
    }

    fn plus(&self, other: &Self) -> (res: Self) {
        *self + *other
    }

    fn larger(&self, other: &Self) -> (res: Self) {
        if *self >= *other {
            *self
        } else {
            *other
        }
    }
}

impl Numeric for isize {
    open spec fn value(self) -> int {
        self as int
    }

    open spec fn fits(v: int) -> bool {
        isize::MIN <= v <= isize::MAX
    }

    open spec fn from_int(v: int) -> Self {
        v as isize
    }

    proof fn value_fits(self) {
    }

    proof fn from_int_value(v: int) {
    }

    proof fn value_injective(a: Self, b: Self) {
    }

    proof fn fits_between(low: int, v: int, high: int) {
    }

    fn zero() -> (res: Self) {
        0
    }

    fn plus(&self, other: &Self) -> (res: Self) {
        *self + *other
    }

    fn larger(&self, other: &Self) -> (res: Self) {
        if *self >= *other {
            *self
        } else {
            *other
        }
    }
}

impl Numeric for u32 {
    open spec fn value(self) -> int {
        self as int
    }

    open spec fn fits(v: int) -> bool {
        u32::MIN <= v <= u32::MAX
    }

    open spec fn from_int(v: int) -> Self {
        v as u32
    }

    proof fn value_fits(self) {
    }

    proof fn from_int_value(v: int) {
    }

    proof fn value_injective(a: Self, b: Self) {
    }

    proof fn fits_between(low: int, v: int, high: int) {
    }

    fn zero() -> (res: Self) {
        0
    }

    fn plus(&self, other: &Self) -> (res: Self) {
        *self + *other
    }

    fn larger(&self, other: &Self) -> (res: Self) {
        if *self >= *other {
            *self
        } else {
            *other
        }
    }
}

impl Numeric for u64 {
    open spec fn value(self) -> int {
        self as int
    }

    open spec fn fits(v: int) -> bool {
        u64::MIN <= v <= u64::MAX
    }

    open spec fn from_int(v: int) -> Self {
        v as u64
    }

    proof fn value_fits(self) {
    }

    proof fn from_int_value(v: int) {
    }

    proof fn value_injective(a: Self, b: Self) {
    }

    proof fn fits_between(low: int, v: int, high: int) {
    }

    fn zero() -> (res: Self) {
        0
    }

    fn plus(&self, other: &Self) -> (res: Self) {
        *self + *other
    }

    fn larger(&self, other: &Self) -> (res: Self) {
        if *self >= *other {
            *self
        } else {
            *other
        }
    }
}

impl Numeric for usize {
    open spec fn value(self) -> int {
        self as int
    }

    open spec fn fits(v: int) -> bool {
        usize::MIN <= v <= usize::MAX
    }

    open spec fn from_int(v: int) -> Self {
        v as usize
    }

    proof fn value_fits(self) {
    }

    proof fn from_int_value(v: int) {
    }

    proof fn value_injective(a: Self, b: Self) {
    }

    proof fn fits_between(low: int, v: int, high: int) {
    }

    fn zero() -> (res: Self) {
        0
    }

    fn plus(&self, other: &Self) -> (res: Self) {
        *self + *other
    }

    fn larger(&self, other: &Self) -> (res: Self) {
        if *self >= *other {
            *self
        } else {
            *other
        }
    }
}

} // verus!
