//! Coefficients: the integer types that polynomials are built over.
//!
//! Every coefficient stands for a mathematical integer, its `value`. The
//! contracts of this module speak of that integer only, so the same
//! statements hold for unsigned and signed coefficient types alike.

use crate::order::{is_greater, is_less, order_is_specified};
use core::ops::{Add, Div, Mul, Sub};
use vstd::prelude::*;
use vstd::std_specs::cmp::PartialEqSpec;
use vstd::std_specs::ops::{AddSpec, DivSpec, MulSpec, SubSpec};

verus! {

/// Remainder of the division that rounds towards zero: it has the sign of `a`.
pub open spec fn trunc_rem(a: int, n: int) -> int {
    if a >= 0 {
        a % n
    } else {
        -((-a) % n)
    }
}

/// Quotient of the division that rounds towards zero.
pub open spec fn trunc_div(a: int, n: int) -> int {
    if a >= 0 {
        a / n
    } else {
        -((-a) / n)
    }
}

/// The representative of `a` modulo `n`; modulus zero stands for the plain
/// ring of integers, where nothing is reduced.
pub open spec fn reduce(a: int, n: int) -> int {
    if n == 0 {
        a
    } else {
        a % n
    }
}

/// `a + b` in the ring with modulus `n`.
pub open spec fn spec_add_mod(a: int, b: int, n: int) -> int {
    reduce(a + b, n)
}

/// `a - b` in the ring with modulus `n`.
pub open spec fn spec_sub_mod(a: int, b: int, n: int) -> int {
    reduce(a - b, n)
}

/// The product `p`, as `mul_mod` returns it for the modulus `n`: cut down by
/// the remainder that keeps its sign, so that it lies strictly between `-|n|`
/// and `|n|`.
pub open spec fn spec_mul_mod_of(p: int, n: int) -> int {
    if n == 0 {
        p
    } else {
        trunc_rem(p, n)
    }
}

/// `a * b` in the ring with modulus `n`.
pub open spec fn spec_mul_mod(a: int, b: int, n: int) -> int {
    spec_mul_mod_of(a * b, n)
}

/// `a - b`, lifted by a multiple of `n` only where the type has no negative
/// values and the difference is negative.
pub open spec fn spec_sub_lift(a: int, b: int, n: int, signed: bool) -> int {
    if signed || a >= b {
        a - b
    } else {
        (a - b) % n
    }
}

/// What a cast to an integer type with the range `lo..=hi` makes of `x`.
pub open spec fn wrapped(x: int, lo: int, hi: int) -> int {
    lo + (x - lo) % (hi - lo + 1)
}

/// The absolute value.
pub open spec fn spec_abs(a: int) -> int {
    if a < 0 {
        -a
    } else {
        a
    }
}

/// Whether the non-negative remainder of `v` by `n` can be had from the
/// remainder that keeps the sign by adding `n`.
pub open spec fn lift_defined(v: int, n: int, lo: int) -> bool {
    &&& n != 0
    &&& n < 0 ==> v >= 0 || v % n == 0
    &&& !(v == lo && n == -1)
}

/// Whether `v` lies in the range `lo..=hi` of an integer type.
pub open spec fn in_range(v: int, lo: int, hi: int) -> bool {
    lo <= v <= hi
}

/// The inputs on which `add_mod` is defined, for a type with the range
/// `lo..=hi`.
pub open spec fn add_mod_fits(a: int, b: int, n: int, lo: int, hi: int) -> bool {
    &&& in_range(a + b, lo, hi)
    &&& n != 0 ==> lift_defined(a + b, n, lo)
}

/// The inputs on which `sub_mod` is defined, for a type with the range
/// `lo..=hi`.
pub open spec fn sub_mod_fits(a: int, b: int, n: int, lo: int, hi: int) -> bool {
    &&& n == 0 || lo < 0 ==> in_range(a - b, lo, hi)
    &&& n != 0 ==> lift_defined(a - b, n, lo)
}

/// The inputs on which `mul_mod` is defined, for a type with the range
/// `lo..=hi`.
pub open spec fn mul_mod_fits(a: int, b: int, n: int, lo: int, hi: int) -> bool {
    &&& in_range(a * b, lo, hi)
    &&& !(a * b == lo && n == -1)
}

/// The inputs on which `sub_lift` is defined, for a type with the range
/// `lo..=hi`.
pub open spec fn sub_lift_fits(a: int, b: int, n: int, lo: int, hi: int) -> bool {
    if lo < 0 {
        in_range(a - b, lo, hi)
    } else {
        a >= b || n != 0
    }
}

/// The inputs on which a division that rounds towards zero is defined, for a
/// type whose least value is `lo`.
pub open spec fn div_fits(a: int, b: int, lo: int) -> bool {
    b != 0 && !(a == lo && b == -1)
}

/// An integer type that can serve as the coefficient of a polynomial.
///
/// The type says which integer each of its values stands for, and that its
/// operators compute with those integers as long as the result is a value of
/// the type. On top of that it offers the modular operations; there the
/// modulus zero asks for the plain operation.
pub trait Integer: Sized + Copy + Default + PartialEq + PartialOrd + Add<Output = Self> + Sub<
    Output = Self,
> + Mul<Output = Self> + Div<Output = Self> {
    /// The integer that `self` stands for.
    spec fn value(self) -> int;

    /// The least integer that the type can hold.
    spec fn lowest() -> int;

    /// The greatest integer that the type can hold.
    spec fn highest() -> int;

    /// The values of the type are the integers of a range that holds 0 and 1,
    /// each of them once.
    proof fn lemma_value(a: Self, b: Self)
        ensures
            Self::lowest() <= a.value() <= Self::highest(),
            Self::lowest() <= 0,
            1 <= Self::highest(),
            a.value() == b.value() ==> a == b,
    ;

    /// The default value is zero.
    proof fn lemma_default(z: Self)
        requires
            call_ensures(Self::default, (), z),
        ensures
            z.value() == 0,
    ;

    /// `==` compares the values, and `<` and `>` order by them.
    proof fn lemma_compare(a: Self, b: Self)
        ensures
            Self::obeys_eq_spec(),
            a.eq_spec(&b) <==> a.value() == b.value(),
            order_is_specified::<Self>(),
            is_less(a, b) <==> a.value() < b.value(),
            is_greater(a, b) <==> a.value() > b.value(),
    ;

    /// `+` adds the values where the sum is in range.
    proof fn lemma_add(a: Self, b: Self)
        requires
            in_range(a.value() + b.value(), Self::lowest(), Self::highest()),
        ensures
            Self::obeys_add_spec(),
            a.add_req(b),
            a.add_spec(b).value() == a.value() + b.value(),
    ;

    /// `-` subtracts the values where the difference is in range.
    proof fn lemma_sub(a: Self, b: Self)
        requires
            in_range(a.value() - b.value(), Self::lowest(), Self::highest()),
        ensures
            Self::obeys_sub_spec(),
            a.sub_req(b),
            a.sub_spec(b).value() == a.value() - b.value(),
    ;

    /// `*` multiplies the values where the product is in range.
    proof fn lemma_mul(a: Self, b: Self)
        requires
            in_range(a.value() * b.value(), Self::lowest(), Self::highest()),
        ensures
            Self::obeys_mul_spec(),
            a.mul_req(b),
            a.mul_spec(b).value() == a.value() * b.value(),
    ;

    /// `/` divides the values, rounding towards zero.
    proof fn lemma_div(a: Self, b: Self)
        requires
            div_fits(a.value(), b.value(), Self::lowest()),
        ensures
            Self::obeys_div_spec(),
            a.div_req(b),
            a.div_spec(b).value() == trunc_div(a.value(), b.value()),
    ;

    /// The value that a cast of `x` to this type gives.
    fn from_literal(x: u128) -> (r: Self)
        ensures
            r.value() == wrapped(x as int, Self::lowest(), Self::highest()),
    ;

    /// The value that a cast of `x` to this type gives.
    fn from_signed_literal(x: i128) -> (r: Self)
        ensures
            r.value() == wrapped(x as int, Self::lowest(), Self::highest()),
    ;

    /// The greatest value of the type.
    fn max() -> (r: Self)
        ensures
            r.value() == Self::highest(),
    ;

    /// `self - rhs`, lifted by a multiple of `n` where it would be negative
    /// and the type has no negative values.
    fn sub_lift(self, rhs: Self, n: Self) -> (r: Self)
        requires
            sub_lift_fits(
                self.value(),
                rhs.value(),
                n.value(),
                Self::lowest(),
                Self::highest(),
            ),
        ensures
            r.value() == spec_sub_lift(self.value(), rhs.value(), n.value(), Self::lowest() < 0),
    ;

    /// `(self - rhs) % n`, or `self - rhs` where `n` is zero.
    fn sub_mod(self, rhs: Self, n: Self) -> (r: Self)
        requires
            sub_mod_fits(
                self.value(),
                rhs.value(),
                n.value(),
                Self::lowest(),
                Self::highest(),
            ),
        ensures
            r.value() == spec_sub_mod(self.value(), rhs.value(), n.value()),
    ;

    /// `(self + rhs) % n`, or `self + rhs` where `n` is zero.
    fn add_mod(self, rhs: Self, n: Self) -> (r: Self)
        requires
            add_mod_fits(
                self.value(),
                rhs.value(),
                n.value(),
                Self::lowest(),
                Self::highest(),
            ),
        ensures
            r.value() == spec_add_mod(self.value(), rhs.value(), n.value()),
    ;

    /// `(self * rhs) % n`, or `self * rhs` where `n` is zero.
    fn mul_mod(self, rhs: Self, n: Self) -> (r: Self)
        requires
            mul_mod_fits(
                self.value(),
                rhs.value(),
                n.value(),
                Self::lowest(),
                Self::highest(),
            ),
        ensures
            r.value() == spec_mul_mod(self.value(), rhs.value(), n.value()),
    ;

    /// `self % n`, with the sign of `self`.
    fn rem(self, n: Self) -> (r: Self)
        requires
            div_fits(self.value(), n.value(), Self::lowest()),
        ensures
            r.value() == trunc_rem(self.value(), n.value()),
    ;

    /// The absolute value.
    fn abs(self) -> (r: Self)
        requires
            self.value() >= 0 || in_range(-self.value(), Self::lowest(), Self::highest()),
        ensures
            r.value() == spec_abs(self.value()),
    ;
}

} // verus!
