//! The operators of a coefficient type, each with the integers it computes.

use crate::integer::{div_fits, in_range, trunc_div, Integer};
use vstd::prelude::*;

verus! {

/// The zero of the coefficient type.
pub fn zero<T: Integer>() -> (z: T)
    ensures
        z.value() == 0,
{
    let z = T::default();
    proof {
        T::lemma_default(z);
    }
    z
}

/// The one of the coefficient type.
pub fn one<T: Integer>() -> (u: T)
    ensures
        u.value() == 1,
{
    let u = T::from_literal(1);
    proof {
        T::lemma_value(u, u);
        vstd::arithmetic::div_mod::lemma_small_mod(
            (1 - T::lowest()) as nat,
            (T::highest() - T::lowest() + 1) as nat,
        );
    }
    u
}

/// Whether two coefficients stand for the same integer.
pub fn same<T: Integer>(a: T, b: T) -> (e: bool)
    ensures
        e <==> a.value() == b.value(),
        e <==> a == b,
{
    proof {
        T::lemma_compare(a, b);
        T::lemma_value(a, b);
    }
    a == b
}

/// Whether a coefficient is zero.
pub fn is_zero_coefficient<T: Integer>(a: T) -> (e: bool)
    ensures
        e <==> a.value() == 0,
{
    let z = zero::<T>();
    same(a, z)
}

/// Whether `a` is below `b`.
pub fn less<T: Integer>(a: T, b: T) -> (e: bool)
    ensures
        e <==> a.value() < b.value(),
{
    proof {
        T::lemma_compare(a, b);
    }
    a < b
}

/// Whether `a` is above `b`.
pub fn greater<T: Integer>(a: T, b: T) -> (e: bool)
    ensures
        e <==> a.value() > b.value(),
{
    proof {
        T::lemma_compare(a, b);
    }
    a > b
}

/// The sum of two coefficients that the type can hold.
pub fn plain_sum<T: Integer>(a: T, b: T) -> (r: T)
    requires
        in_range(a.value() + b.value(), T::lowest(), T::highest()),
    ensures
        r.value() == a.value() + b.value(),
{
    proof {
        T::lemma_add(a, b);
    }
    a + b
}

/// The difference of two coefficients that the type can hold.
pub fn plain_difference<T: Integer>(a: T, b: T) -> (r: T)
    requires
        in_range(a.value() - b.value(), T::lowest(), T::highest()),
    ensures
        r.value() == a.value() - b.value(),
{
    proof {
        T::lemma_sub(a, b);
    }
    a - b
}

/// The product of two coefficients that the type can hold.
pub fn plain_product<T: Integer>(a: T, b: T) -> (r: T)
    requires
        in_range(a.value() * b.value(), T::lowest(), T::highest()),
    ensures
        r.value() == a.value() * b.value(),
{
    proof {
        T::lemma_mul(a, b);
    }
    a * b
}

/// The quotient of two coefficients, rounded towards zero.
pub fn plain_quotient<T: Integer>(a: T, b: T) -> (r: T)
    requires
        div_fits(a.value(), b.value(), T::lowest()),
    ensures
        r.value() == trunc_div(a.value(), b.value()),
{
    proof {
        T::lemma_div(a, b);
    }
    a / b
}

} // verus!
