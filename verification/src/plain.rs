//! Polynomials over the integers: the operators of sequences of
//! coefficients.
//!
//! A sequence has `+`, `*` and `/`. Its `sub` is the part of a sequence, so
//! the difference of two polynomials is had from `poly_sub` of the kernel.

use crate::division::{divisible, euclid_div, euclid_div_fits, is_division};
use crate::integer::Integer;
use crate::inverse::TRestrictions;
use crate::kernel::{poly_add, poly_mul};
use crate::ops::zero;
use crate::ring::{
    division_holds, longer, poly_add_fits, poly_mul_fits, spec_poly_add, spec_poly_mul, values,
};
use crate::sequence::{SeqTrait, Sequence};
use core::ops::{Add, Div, Mul};
use vstd::prelude::*;
use vstd::std_specs::ops::{AddSpecImpl, DivSpecImpl, MulSpecImpl};

verus! {

impl<T: TRestrictions> MulSpecImpl for Sequence<T> {
    open spec fn obeys_mul_spec() -> bool {
        false
    }

    open spec fn mul_req(self, rhs: Self) -> bool {
        &&& self@.len() + rhs@.len() <= usize::MAX
        &&& poly_mul_fits(values(self@), values(rhs@), 0, T::lowest(), T::highest())
    }

    open spec fn mul_spec(self, rhs: Self) -> Self {
        self
    }
}

/// Polynomial multiplication over the integers.
impl<T: TRestrictions> Mul for Sequence<T> {
    type Output = Self;

    fn mul(self, rhs: Self) -> (out: Self)
        ensures
            values(out@) == spec_poly_mul(values(self@), values(rhs@), 0),
    {
        Sequence::from_vec(poly_mul(self.raw(), rhs.raw(), zero::<T>()))
    }
}

impl<T: TRestrictions> AddSpecImpl for Sequence<T> {
    open spec fn obeys_add_spec() -> bool {
        false
    }

    open spec fn add_req(self, rhs: Self) -> bool {
        poly_add_fits(values(self@), values(rhs@), 0, T::lowest(), T::highest())
    }

    open spec fn add_spec(self, rhs: Self) -> Self {
        self
    }
}

/// Polynomial addition over the integers.
impl<T: TRestrictions> Add for Sequence<T> {
    type Output = Self;

    fn add(self, rhs: Self) -> (out: Self)
        ensures
            values(out@) == spec_poly_add(values(self@), values(rhs@), 0),
    {
        Sequence::from_vec(poly_add(self.raw(), rhs.raw(), zero::<T>()))
    }
}

impl<T: TRestrictions> DivSpecImpl for Sequence<T> {
    open spec fn obeys_div_spec() -> bool {
        false
    }

    open spec fn div_req(self, rhs: Self) -> bool {
        euclid_div_fits(values(self@), values(rhs@), 0, T::lowest(), T::highest())
    }

    open spec fn div_spec(self, rhs: Self) -> (Self, Self) {
        (self, rhs)
    }
}

/// Polynomial division over the integers: the quotient and the remainder.
impl<T: TRestrictions> Div for Sequence<T> {
    type Output = (Self, Self);

    fn div(self, rhs: Self) -> (out: (Self, Self))
        ensures
            division_holds(values(out.0@), values(out.1@), values(rhs@), values(self@), 0),
            !divisible(values(out.1@), values(rhs@)),
            out.0@.len() == longer(self@.len() as int, rhs@.len() as int),
            is_division(values(out.0@), values(out.1@), values(self@), values(rhs@), 0),
    {
        let r = euclid_div(self.raw(), rhs.raw(), zero::<T>());
        (Sequence::from_vec(r.0), Sequence::from_vec(r.1))
    }
}

} // verus!
