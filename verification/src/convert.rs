//! Polynomials from slices of machine integers.
//!
//! A slice alone gives a polynomial over the integers that is reduced by the
//! constant polynomial zero. A pair gives the polynomial to reduce by first
//! and the coefficients second; a triple adds the modulus of the coefficients.

use crate::inverse::TRestrictions;
use crate::integer::{wrapped, Integer};
use crate::poly::{literals, signed_literals, Poly};
use vstd::pervasive::arbitrary;
use vstd::prelude::*;
use vstd::std_specs::convert::FromSpecImpl;

verus! {

/// The items of the slice as `u128`.
pub fn widen_u8(v: &[u8]) -> (out: Vec<u128>)
    ensures
        out@ == v@.map_values(|x: u8| x as u128),
{
    let mut out: Vec<u128> = Vec::new();
    let mut i: usize = 0;
    while i < v.len()
        invariant
            i <= v@.len(),
            out@.len() == i,
            forall|j: int| 0 <= j < i ==> out@[j] == v@[j] as u128,
        decreases v.len() - i,
    {
        out.push(v[i] as u128);
        i += 1;
    }
    assert(out@ =~= v@.map_values(|x: u8| x as u128));
    out
}

impl<T: TRestrictions> FromSpecImpl<&[u8]> for Poly<T> {
    open spec fn obeys_from_spec() -> bool {
        false
    }

    open spec fn from_spec(v: &[u8]) -> Self {
        arbitrary()
    }
}

impl<T: TRestrictions> From<&[u8]> for Poly<T> {
    fn from(v: &[u8]) -> (out: Poly<T>)
        ensures
            out@.poly == literals(v@.map_values(|x: u8| x as u128), T::lowest(), T::highest()),
            out@.irr == literals(seq![0u128], T::lowest(), T::highest()),
            out@.n == 0,
    {
        let mut irr: Vec<u128> = Vec::new();
        irr.push(0);
        assert(irr@ =~= seq![0u128]);
        Poly::new(irr.as_slice(), widen_u8(v).as_slice())
    }
}

impl<T: TRestrictions> FromSpecImpl<(&[u8], &[u8])> for Poly<T> {
    open spec fn obeys_from_spec() -> bool {
        false
    }

    open spec fn from_spec(v: (&[u8], &[u8])) -> Self {
        arbitrary()
    }
}

impl<T: TRestrictions> From<(&[u8], &[u8])> for Poly<T> {
    fn from(v: (&[u8], &[u8])) -> (out: Poly<T>)
        ensures
            out@.poly == literals(v.1@.map_values(|x: u8| x as u128), T::lowest(), T::highest()),
            out@.irr == literals(v.0@.map_values(|x: u8| x as u128), T::lowest(), T::highest()),
            out@.n == 0,
    {
        Poly::new(widen_u8(v.0).as_slice(), widen_u8(v.1).as_slice())
    }
}

impl<T: TRestrictions> FromSpecImpl<(&[u8], &[u8], u8)> for Poly<T> {
    open spec fn obeys_from_spec() -> bool {
        false
    }

    open spec fn from_spec(v: (&[u8], &[u8], u8)) -> Self {
        arbitrary()
    }
}

impl<T: TRestrictions> From<(&[u8], &[u8], u8)> for Poly<T> {
    fn from(v: (&[u8], &[u8], u8)) -> (out: Poly<T>)
        ensures
            out@.poly == literals(v.1@.map_values(|x: u8| x as u128), T::lowest(), T::highest()),
            out@.irr == literals(v.0@.map_values(|x: u8| x as u128), T::lowest(), T::highest()),
            out@.n == wrapped(v.2 as int, T::lowest(), T::highest()),
    {
        Poly::new_full(widen_u8(v.0).as_slice(), widen_u8(v.1).as_slice(), v.2 as u128)
    }
}

/// The items of the slice as `u128`.
pub fn widen_u16(v: &[u16]) -> (out: Vec<u128>)
    ensures
        out@ == v@.map_values(|x: u16| x as u128),
{
    let mut out: Vec<u128> = Vec::new();
    let mut i: usize = 0;
    while i < v.len()
        invariant
            i <= v@.len(),
            out@.len() == i,
            forall|j: int| 0 <= j < i ==> out@[j] == v@[j] as u128,
        decreases v.len() - i,
    {
        out.push(v[i] as u128);
        i += 1;
    }
    assert(out@ =~= v@.map_values(|x: u16| x as u128));
    out
}

impl<T: TRestrictions> FromSpecImpl<&[u16]> for Poly<T> {
    open spec fn obeys_from_spec() -> bool {
        false
    }

    open spec fn from_spec(v: &[u16]) -> Self {
        arbitrary()
    }
}

impl<T: TRestrictions> From<&[u16]> for Poly<T> {
    fn from(v: &[u16]) -> (out: Poly<T>)
        ensures
            out@.poly == literals(v@.map_values(|x: u16| x as u128), T::lowest(), T::highest()),
            out@.irr == literals(seq![0u128], T::lowest(), T::highest()),
            out@.n == 0,
    {
        let mut irr: Vec<u128> = Vec::new();
        irr.push(0);
        assert(irr@ =~= seq![0u128]);
        Poly::new(irr.as_slice(), widen_u16(v).as_slice())
    }
}

impl<T: TRestrictions> FromSpecImpl<(&[u16], &[u16])> for Poly<T> {
    open spec fn obeys_from_spec() -> bool {
        false
    }

    open spec fn from_spec(v: (&[u16], &[u16])) -> Self {
        arbitrary()
    }
}

impl<T: TRestrictions> From<(&[u16], &[u16])> for Poly<T> {
    fn from(v: (&[u16], &[u16])) -> (out: Poly<T>)
        ensures
            out@.poly == literals(v.1@.map_values(|x: u16| x as u128), T::lowest(), T::highest()),
            out@.irr == literals(v.0@.map_values(|x: u16| x as u128), T::lowest(), T::highest()),
            out@.n == 0,
    {
        Poly::new(widen_u16(v.0).as_slice(), widen_u16(v.1).as_slice())
    }
}

impl<T: TRestrictions> FromSpecImpl<(&[u16], &[u16], u16)> for Poly<T> {
    open spec fn obeys_from_spec() -> bool {
        false
    }

    open spec fn from_spec(v: (&[u16], &[u16], u16)) -> Self {
        arbitrary()
    }
}

impl<T: TRestrictions> From<(&[u16], &[u16], u16)> for Poly<T> {
    fn from(v: (&[u16], &[u16], u16)) -> (out: Poly<T>)
        ensures
            out@.poly == literals(v.1@.map_values(|x: u16| x as u128), T::lowest(), T::highest()),
            out@.irr == literals(v.0@.map_values(|x: u16| x as u128), T::lowest(), T::highest()),
            out@.n == wrapped(v.2 as int, T::lowest(), T::highest()),
    {
        Poly::new_full(widen_u16(v.0).as_slice(), widen_u16(v.1).as_slice(), v.2 as u128)
    }
}

/// The items of the slice as `u128`.
pub fn widen_u32(v: &[u32]) -> (out: Vec<u128>)
    ensures
        out@ == v@.map_values(|x: u32| x as u128),
{
    let mut out: Vec<u128> = Vec::new();
    let mut i: usize = 0;
    while i < v.len()
        invariant
            i <= v@.len(),
            out@.len() == i,
            forall|j: int| 0 <= j < i ==> out@[j] == v@[j] as u128,
        decreases v.len() - i,
    {
        out.push(v[i] as u128);
        i += 1;
    }
    assert(out@ =~= v@.map_values(|x: u32| x as u128));
    out
}

impl<T: TRestrictions> FromSpecImpl<&[u32]> for Poly<T> {
    open spec fn obeys_from_spec() -> bool {
        false
    }

    open spec fn from_spec(v: &[u32]) -> Self {
        arbitrary()
    }
}

impl<T: TRestrictions> From<&[u32]> for Poly<T> {
    fn from(v: &[u32]) -> (out: Poly<T>)
        ensures
            out@.poly == literals(v@.map_values(|x: u32| x as u128), T::lowest(), T::highest()),
            out@.irr == literals(seq![0u128], T::lowest(), T::highest()),
            out@.n == 0,
    {
        let mut irr: Vec<u128> = Vec::new();
        irr.push(0);
        assert(irr@ =~= seq![0u128]);
        Poly::new(irr.as_slice(), widen_u32(v).as_slice())
    }
}

impl<T: TRestrictions> FromSpecImpl<(&[u32], &[u32])> for Poly<T> {
    open spec fn obeys_from_spec() -> bool {
        false
    }

    open spec fn from_spec(v: (&[u32], &[u32])) -> Self {
        arbitrary()
    }
}

impl<T: TRestrictions> From<(&[u32], &[u32])> for Poly<T> {
    fn from(v: (&[u32], &[u32])) -> (out: Poly<T>)
        ensures
            out@.poly == literals(v.1@.map_values(|x: u32| x as u128), T::lowest(), T::highest()),
            out@.irr == literals(v.0@.map_values(|x: u32| x as u128), T::lowest(), T::highest()),
            out@.n == 0,
    {
        Poly::new(widen_u32(v.0).as_slice(), widen_u32(v.1).as_slice())
    }
}

impl<T: TRestrictions> FromSpecImpl<(&[u32], &[u32], u32)> for Poly<T> {
    open spec fn obeys_from_spec() -> bool {
        false
    }

    open spec fn from_spec(v: (&[u32], &[u32], u32)) -> Self {
        arbitrary()
    }
}

impl<T: TRestrictions> From<(&[u32], &[u32], u32)> for Poly<T> {
    fn from(v: (&[u32], &[u32], u32)) -> (out: Poly<T>)
        ensures
            out@.poly == literals(v.1@.map_values(|x: u32| x as u128), T::lowest(), T::highest()),
            out@.irr == literals(v.0@.map_values(|x: u32| x as u128), T::lowest(), T::highest()),
            out@.n == wrapped(v.2 as int, T::lowest(), T::highest()),
    {
        Poly::new_full(widen_u32(v.0).as_slice(), widen_u32(v.1).as_slice(), v.2 as u128)
    }
}

/// The items of the slice as `u128`.
pub fn widen_u64(v: &[u64]) -> (out: Vec<u128>)
    ensures
        out@ == v@.map_values(|x: u64| x as u128),
{
    let mut out: Vec<u128> = Vec::new();
    let mut i: usize = 0;
    while i < v.len()
        invariant
            i <= v@.len(),
            out@.len() == i,
            forall|j: int| 0 <= j < i ==> out@[j] == v@[j] as u128,
        decreases v.len() - i,
    {
        out.push(v[i] as u128);
        i += 1;
    }
    assert(out@ =~= v@.map_values(|x: u64| x as u128));
    out
}

impl<T: TRestrictions> FromSpecImpl<&[u64]> for Poly<T> {
    open spec fn obeys_from_spec() -> bool {
        false
    }

    open spec fn from_spec(v: &[u64]) -> Self {
        arbitrary()
    }
}

impl<T: TRestrictions> From<&[u64]> for Poly<T> {
    fn from(v: &[u64]) -> (out: Poly<T>)
        ensures
            out@.poly == literals(v@.map_values(|x: u64| x as u128), T::lowest(), T::highest()),
            out@.irr == literals(seq![0u128], T::lowest(), T::highest()),
            out@.n == 0,
    {
        let mut irr: Vec<u128> = Vec::new();
        irr.push(0);
        assert(irr@ =~= seq![0u128]);
        Poly::new(irr.as_slice(), widen_u64(v).as_slice())
    }
}

impl<T: TRestrictions> FromSpecImpl<(&[u64], &[u64])> for Poly<T> {
    open spec fn obeys_from_spec() -> bool {
        false
    }

    open spec fn from_spec(v: (&[u64], &[u64])) -> Self {
        arbitrary()
    }
}

impl<T: TRestrictions> From<(&[u64], &[u64])> for Poly<T> {
    fn from(v: (&[u64], &[u64])) -> (out: Poly<T>)
        ensures
            out@.poly == literals(v.1@.map_values(|x: u64| x as u128), T::lowest(), T::highest()),
            out@.irr == literals(v.0@.map_values(|x: u64| x as u128), T::lowest(), T::highest()),
            out@.n == 0,
    {
        Poly::new(widen_u64(v.0).as_slice(), widen_u64(v.1).as_slice())
    }
}

impl<T: TRestrictions> FromSpecImpl<(&[u64], &[u64], u64)> for Poly<T> {
    open spec fn obeys_from_spec() -> bool {
        false
    }

    open spec fn from_spec(v: (&[u64], &[u64], u64)) -> Self {
        arbitrary()
    }
}

impl<T: TRestrictions> From<(&[u64], &[u64], u64)> for Poly<T> {
    fn from(v: (&[u64], &[u64], u64)) -> (out: Poly<T>)
        ensures
            out@.poly == literals(v.1@.map_values(|x: u64| x as u128), T::lowest(), T::highest()),
            out@.irr == literals(v.0@.map_values(|x: u64| x as u128), T::lowest(), T::highest()),
            out@.n == wrapped(v.2 as int, T::lowest(), T::highest()),
    {
        Poly::new_full(widen_u64(v.0).as_slice(), widen_u64(v.1).as_slice(), v.2 as u128)
    }
}

/// The items of the slice as `u128`.
pub fn widen_u128(v: &[u128]) -> (out: Vec<u128>)
    ensures
        out@ == v@.map_values(|x: u128| x as u128),
{
    let mut out: Vec<u128> = Vec::new();
    let mut i: usize = 0;
    while i < v.len()
        invariant
            i <= v@.len(),
            out@.len() == i,
            forall|j: int| 0 <= j < i ==> out@[j] == v@[j] as u128,
        decreases v.len() - i,
    {
        out.push(v[i] as u128);
        i += 1;
    }
    assert(out@ =~= v@.map_values(|x: u128| x as u128));
    out
}

impl<T: TRestrictions> FromSpecImpl<&[u128]> for Poly<T> {
    open spec fn obeys_from_spec() -> bool {
        false
    }

    open spec fn from_spec(v: &[u128]) -> Self {
        arbitrary()
    }
}

impl<T: TRestrictions> From<&[u128]> for Poly<T> {
    fn from(v: &[u128]) -> (out: Poly<T>)
        ensures
            out@.poly == literals(v@.map_values(|x: u128| x as u128), T::lowest(), T::highest()),
            out@.irr == literals(seq![0u128], T::lowest(), T::highest()),
            out@.n == 0,
    {
        let mut irr: Vec<u128> = Vec::new();
        irr.push(0);
        assert(irr@ =~= seq![0u128]);
        Poly::new(irr.as_slice(), widen_u128(v).as_slice())
    }
}

impl<T: TRestrictions> FromSpecImpl<(&[u128], &[u128])> for Poly<T> {
    open spec fn obeys_from_spec() -> bool {
        false
    }

    open spec fn from_spec(v: (&[u128], &[u128])) -> Self {
        arbitrary()
    }
}

impl<T: TRestrictions> From<(&[u128], &[u128])> for Poly<T> {
    fn from(v: (&[u128], &[u128])) -> (out: Poly<T>)
        ensures
            out@.poly == literals(v.1@.map_values(|x: u128| x as u128), T::lowest(), T::highest()),
            out@.irr == literals(v.0@.map_values(|x: u128| x as u128), T::lowest(), T::highest()),
            out@.n == 0,
    {
        Poly::new(widen_u128(v.0).as_slice(), widen_u128(v.1).as_slice())
    }
}

impl<T: TRestrictions> FromSpecImpl<(&[u128], &[u128], u128)> for Poly<T> {
    open spec fn obeys_from_spec() -> bool {
        false
    }

    open spec fn from_spec(v: (&[u128], &[u128], u128)) -> Self {
        arbitrary()
    }
}

impl<T: TRestrictions> From<(&[u128], &[u128], u128)> for Poly<T> {
    fn from(v: (&[u128], &[u128], u128)) -> (out: Poly<T>)
        ensures
            out@.poly == literals(v.1@.map_values(|x: u128| x as u128), T::lowest(), T::highest()),
            out@.irr == literals(v.0@.map_values(|x: u128| x as u128), T::lowest(), T::highest()),
            out@.n == wrapped(v.2 as int, T::lowest(), T::highest()),
    {
        Poly::new_full(widen_u128(v.0).as_slice(), widen_u128(v.1).as_slice(), v.2 as u128)
    }
}

/// The items of the slice as `i128`.
pub fn widen_i8(v: &[i8]) -> (out: Vec<i128>)
    ensures
        out@ == v@.map_values(|x: i8| x as i128),
{
    let mut out: Vec<i128> = Vec::new();
    let mut i: usize = 0;
    while i < v.len()
        invariant
            i <= v@.len(),
            out@.len() == i,
            forall|j: int| 0 <= j < i ==> out@[j] == v@[j] as i128,
        decreases v.len() - i,
    {
        out.push(v[i] as i128);
        i += 1;
    }
    assert(out@ =~= v@.map_values(|x: i8| x as i128));
    out
}

impl<T: TRestrictions> FromSpecImpl<&[i8]> for Poly<T> {
    open spec fn obeys_from_spec() -> bool {
        false
    }

    open spec fn from_spec(v: &[i8]) -> Self {
        arbitrary()
    }
}

impl<T: TRestrictions> From<&[i8]> for Poly<T> {
    fn from(v: &[i8]) -> (out: Poly<T>)
        ensures
            out@.poly == signed_literals(v@.map_values(|x: i8| x as i128), T::lowest(), T::highest()),
            out@.irr == signed_literals(seq![0i128], T::lowest(), T::highest()),
            out@.n == 0,
    {
        let mut irr: Vec<i128> = Vec::new();
        irr.push(0);
        assert(irr@ =~= seq![0i128]);
        Poly::new_signed(irr.as_slice(), widen_i8(v).as_slice())
    }
}

impl<T: TRestrictions> FromSpecImpl<(&[i8], &[i8])> for Poly<T> {
    open spec fn obeys_from_spec() -> bool {
        false
    }

    open spec fn from_spec(v: (&[i8], &[i8])) -> Self {
        arbitrary()
    }
}

impl<T: TRestrictions> From<(&[i8], &[i8])> for Poly<T> {
    fn from(v: (&[i8], &[i8])) -> (out: Poly<T>)
        ensures
            out@.poly == signed_literals(v.1@.map_values(|x: i8| x as i128), T::lowest(), T::highest()),
            out@.irr == signed_literals(v.0@.map_values(|x: i8| x as i128), T::lowest(), T::highest()),
            out@.n == 0,
    {
        Poly::new_signed(widen_i8(v.0).as_slice(), widen_i8(v.1).as_slice())
    }
}

impl<T: TRestrictions> FromSpecImpl<(&[i8], &[i8], i8)> for Poly<T> {
    open spec fn obeys_from_spec() -> bool {
        false
    }

    open spec fn from_spec(v: (&[i8], &[i8], i8)) -> Self {
        arbitrary()
    }
}

impl<T: TRestrictions> From<(&[i8], &[i8], i8)> for Poly<T> {
    fn from(v: (&[i8], &[i8], i8)) -> (out: Poly<T>)
        ensures
            out@.poly == signed_literals(v.1@.map_values(|x: i8| x as i128), T::lowest(), T::highest()),
            out@.irr == signed_literals(v.0@.map_values(|x: i8| x as i128), T::lowest(), T::highest()),
            out@.n == wrapped(v.2 as int, T::lowest(), T::highest()),
    {
        Poly::new_signed_full(widen_i8(v.0).as_slice(), widen_i8(v.1).as_slice(), v.2 as i128)
    }
}

/// The items of the slice as `i128`.
pub fn widen_i16(v: &[i16]) -> (out: Vec<i128>)
    ensures
        out@ == v@.map_values(|x: i16| x as i128),
{
    let mut out: Vec<i128> = Vec::new();
    let mut i: usize = 0;
    while i < v.len()
        invariant
            i <= v@.len(),
            out@.len() == i,
            forall|j: int| 0 <= j < i ==> out@[j] == v@[j] as i128,
        decreases v.len() - i,
    {
        out.push(v[i] as i128);
        i += 1;
    }
    assert(out@ =~= v@.map_values(|x: i16| x as i128));
    out
}

impl<T: TRestrictions> FromSpecImpl<&[i16]> for Poly<T> {
    open spec fn obeys_from_spec() -> bool {
        false
    }

    open spec fn from_spec(v: &[i16]) -> Self {
        arbitrary()
    }
}

impl<T: TRestrictions> From<&[i16]> for Poly<T> {
    fn from(v: &[i16]) -> (out: Poly<T>)
        ensures
            out@.poly == signed_literals(v@.map_values(|x: i16| x as i128), T::lowest(), T::highest()),
            out@.irr == signed_literals(seq![0i128], T::lowest(), T::highest()),
            out@.n == 0,
    {
        let mut irr: Vec<i128> = Vec::new();
        irr.push(0);
        assert(irr@ =~= seq![0i128]);
        Poly::new_signed(irr.as_slice(), widen_i16(v).as_slice())
    }
}

impl<T: TRestrictions> FromSpecImpl<(&[i16], &[i16])> for Poly<T> {
    open spec fn obeys_from_spec() -> bool {
        false
    }

    open spec fn from_spec(v: (&[i16], &[i16])) -> Self {
        arbitrary()
    }
}

impl<T: TRestrictions> From<(&[i16], &[i16])> for Poly<T> {
    fn from(v: (&[i16], &[i16])) -> (out: Poly<T>)
        ensures
            out@.poly == signed_literals(v.1@.map_values(|x: i16| x as i128), T::lowest(), T::highest()),
            out@.irr == signed_literals(v.0@.map_values(|x: i16| x as i128), T::lowest(), T::highest()),
            out@.n == 0,
    {
        Poly::new_signed(widen_i16(v.0).as_slice(), widen_i16(v.1).as_slice())
    }
}

impl<T: TRestrictions> FromSpecImpl<(&[i16], &[i16], i16)> for Poly<T> {
    open spec fn obeys_from_spec() -> bool {
        false
    }

    open spec fn from_spec(v: (&[i16], &[i16], i16)) -> Self {
        arbitrary()
    }
}

impl<T: TRestrictions> From<(&[i16], &[i16], i16)> for Poly<T> {
    fn from(v: (&[i16], &[i16], i16)) -> (out: Poly<T>)
        ensures
            out@.poly == signed_literals(v.1@.map_values(|x: i16| x as i128), T::lowest(), T::highest()),
            out@.irr == signed_literals(v.0@.map_values(|x: i16| x as i128), T::lowest(), T::highest()),
            out@.n == wrapped(v.2 as int, T::lowest(), T::highest()),
    {
        Poly::new_signed_full(widen_i16(v.0).as_slice(), widen_i16(v.1).as_slice(), v.2 as i128)
    }
}

/// The items of the slice as `i128`.
pub fn widen_i32(v: &[i32]) -> (out: Vec<i128>)
    ensures
        out@ == v@.map_values(|x: i32| x as i128),
{
    let mut out: Vec<i128> = Vec::new();
    let mut i: usize = 0;
    while i < v.len()
        invariant
            i <= v@.len(),
            out@.len() == i,
            forall|j: int| 0 <= j < i ==> out@[j] == v@[j] as i128,
        decreases v.len() - i,
    {
        out.push(v[i] as i128);
        i += 1;
    }
    assert(out@ =~= v@.map_values(|x: i32| x as i128));
    out
}

impl<T: TRestrictions> FromSpecImpl<&[i32]> for Poly<T> {
    open spec fn obeys_from_spec() -> bool {
        false
    }

    open spec fn from_spec(v: &[i32]) -> Self {
        arbitrary()
    }
}

impl<T: TRestrictions> From<&[i32]> for Poly<T> {
    fn from(v: &[i32]) -> (out: Poly<T>)
        ensures
            out@.poly == signed_literals(v@.map_values(|x: i32| x as i128), T::lowest(), T::highest()),
            out@.irr == signed_literals(seq![0i128], T::lowest(), T::highest()),
            out@.n == 0,
    {
        let mut irr: Vec<i128> = Vec::new();
        irr.push(0);
        assert(irr@ =~= seq![0i128]);
        Poly::new_signed(irr.as_slice(), widen_i32(v).as_slice())
    }
}

impl<T: TRestrictions> FromSpecImpl<(&[i32], &[i32])> for Poly<T> {
    open spec fn obeys_from_spec() -> bool {
        false
    }

    open spec fn from_spec(v: (&[i32], &[i32])) -> Self {
        arbitrary()
    }
}

impl<T: TRestrictions> From<(&[i32], &[i32])> for Poly<T> {
    fn from(v: (&[i32], &[i32])) -> (out: Poly<T>)
        ensures
            out@.poly == signed_literals(v.1@.map_values(|x: i32| x as i128), T::lowest(), T::highest()),
            out@.irr == signed_literals(v.0@.map_values(|x: i32| x as i128), T::lowest(), T::highest()),
            out@.n == 0,
    {
        Poly::new_signed(widen_i32(v.0).as_slice(), widen_i32(v.1).as_slice())
    }
}

impl<T: TRestrictions> FromSpecImpl<(&[i32], &[i32], i32)> for Poly<T> {
    open spec fn obeys_from_spec() -> bool {
        false
    }

    open spec fn from_spec(v: (&[i32], &[i32], i32)) -> Self {
        arbitrary()
    }
}

impl<T: TRestrictions> From<(&[i32], &[i32], i32)> for Poly<T> {
    fn from(v: (&[i32], &[i32], i32)) -> (out: Poly<T>)
        ensures
            out@.poly == signed_literals(v.1@.map_values(|x: i32| x as i128), T::lowest(), T::highest()),
            out@.irr == signed_literals(v.0@.map_values(|x: i32| x as i128), T::lowest(), T::highest()),
            out@.n == wrapped(v.2 as int, T::lowest(), T::highest()),
    {
        Poly::new_signed_full(widen_i32(v.0).as_slice(), widen_i32(v.1).as_slice(), v.2 as i128)
    }
}

/// The items of the slice as `i128`.
pub fn widen_i64(v: &[i64]) -> (out: Vec<i128>)
    ensures
        out@ == v@.map_values(|x: i64| x as i128),
{
    let mut out: Vec<i128> = Vec::new();
    let mut i: usize = 0;
    while i < v.len()
        invariant
            i <= v@.len(),
            out@.len() == i,
            forall|j: int| 0 <= j < i ==> out@[j] == v@[j] as i128,
        decreases v.len() - i,
    {
        out.push(v[i] as i128);
        i += 1;
    }
    assert(out@ =~= v@.map_values(|x: i64| x as i128));
    out
}

impl<T: TRestrictions> FromSpecImpl<&[i64]> for Poly<T> {
    open spec fn obeys_from_spec() -> bool {
        false
    }

    open spec fn from_spec(v: &[i64]) -> Self {
        arbitrary()
    }
}

impl<T: TRestrictions> From<&[i64]> for Poly<T> {
    fn from(v: &[i64]) -> (out: Poly<T>)
        ensures
            out@.poly == signed_literals(v@.map_values(|x: i64| x as i128), T::lowest(), T::highest()),
            out@.irr == signed_literals(seq![0i128], T::lowest(), T::highest()),
            out@.n == 0,
    {
        let mut irr: Vec<i128> = Vec::new();
        irr.push(0);
        assert(irr@ =~= seq![0i128]);
        Poly::new_signed(irr.as_slice(), widen_i64(v).as_slice())
    }
}

impl<T: TRestrictions> FromSpecImpl<(&[i64], &[i64])> for Poly<T> {
    open spec fn obeys_from_spec() -> bool {
        false
    }

    open spec fn from_spec(v: (&[i64], &[i64])) -> Self {
        arbitrary()
    }
}

impl<T: TRestrictions> From<(&[i64], &[i64])> for Poly<T> {
    fn from(v: (&[i64], &[i64])) -> (out: Poly<T>)
        ensures
            out@.poly == signed_literals(v.1@.map_values(|x: i64| x as i128), T::lowest(), T::highest()),
            out@.irr == signed_literals(v.0@.map_values(|x: i64| x as i128), T::lowest(), T::highest()),
            out@.n == 0,
    {
        Poly::new_signed(widen_i64(v.0).as_slice(), widen_i64(v.1).as_slice())
    }
}

impl<T: TRestrictions> FromSpecImpl<(&[i64], &[i64], i64)> for Poly<T> {
    open spec fn obeys_from_spec() -> bool {
        false
    }

    open spec fn from_spec(v: (&[i64], &[i64], i64)) -> Self {
        arbitrary()
    }
}

impl<T: TRestrictions> From<(&[i64], &[i64], i64)> for Poly<T> {
    fn from(v: (&[i64], &[i64], i64)) -> (out: Poly<T>)
        ensures
            out@.poly == signed_literals(v.1@.map_values(|x: i64| x as i128), T::lowest(), T::highest()),
            out@.irr == signed_literals(v.0@.map_values(|x: i64| x as i128), T::lowest(), T::highest()),
            out@.n == wrapped(v.2 as int, T::lowest(), T::highest()),
    {
        Poly::new_signed_full(widen_i64(v.0).as_slice(), widen_i64(v.1).as_slice(), v.2 as i128)
    }
}

/// The items of the slice as `i128`.
pub fn widen_i128(v: &[i128]) -> (out: Vec<i128>)
    ensures
        out@ == v@.map_values(|x: i128| x as i128),
{
    let mut out: Vec<i128> = Vec::new();
    let mut i: usize = 0;
    while i < v.len()
        invariant
            i <= v@.len(),
            out@.len() == i,
            forall|j: int| 0 <= j < i ==> out@[j] == v@[j] as i128,
        decreases v.len() - i,
    {
        out.push(v[i] as i128);
        i += 1;
    }
    assert(out@ =~= v@.map_values(|x: i128| x as i128));
    out
}

impl<T: TRestrictions> FromSpecImpl<&[i128]> for Poly<T> {
    open spec fn obeys_from_spec() -> bool {
        false
    }

    open spec fn from_spec(v: &[i128]) -> Self {
        arbitrary()
    }
}

impl<T: TRestrictions> From<&[i128]> for Poly<T> {
    fn from(v: &[i128]) -> (out: Poly<T>)
        ensures
            out@.poly == signed_literals(v@.map_values(|x: i128| x as i128), T::lowest(), T::highest()),
            out@.irr == signed_literals(seq![0i128], T::lowest(), T::highest()),
            out@.n == 0,
    {
        let mut irr: Vec<i128> = Vec::new();
        irr.push(0);
        assert(irr@ =~= seq![0i128]);
        Poly::new_signed(irr.as_slice(), widen_i128(v).as_slice())
    }
}

impl<T: TRestrictions> FromSpecImpl<(&[i128], &[i128])> for Poly<T> {
    open spec fn obeys_from_spec() -> bool {
        false
    }

    open spec fn from_spec(v: (&[i128], &[i128])) -> Self {
        arbitrary()
    }
}

impl<T: TRestrictions> From<(&[i128], &[i128])> for Poly<T> {
    fn from(v: (&[i128], &[i128])) -> (out: Poly<T>)
        ensures
            out@.poly == signed_literals(v.1@.map_values(|x: i128| x as i128), T::lowest(), T::highest()),
            out@.irr == signed_literals(v.0@.map_values(|x: i128| x as i128), T::lowest(), T::highest()),
            out@.n == 0,
    {
        Poly::new_signed(widen_i128(v.0).as_slice(), widen_i128(v.1).as_slice())
    }
}

impl<T: TRestrictions> FromSpecImpl<(&[i128], &[i128], i128)> for Poly<T> {
    open spec fn obeys_from_spec() -> bool {
        false
    }

    open spec fn from_spec(v: (&[i128], &[i128], i128)) -> Self {
        arbitrary()
    }
}

impl<T: TRestrictions> From<(&[i128], &[i128], i128)> for Poly<T> {
    fn from(v: (&[i128], &[i128], i128)) -> (out: Poly<T>)
        ensures
            out@.poly == signed_literals(v.1@.map_values(|x: i128| x as i128), T::lowest(), T::highest()),
            out@.irr == signed_literals(v.0@.map_values(|x: i128| x as i128), T::lowest(), T::highest()),
            out@.n == wrapped(v.2 as int, T::lowest(), T::highest()),
    {
        Poly::new_signed_full(widen_i128(v.0).as_slice(), widen_i128(v.1).as_slice(), v.2 as i128)
    }
}

} // verus!
