//! Polynomials over the integers, over a quotient ring of the integers, or
//! over such a ring modulo a polynomial.
//!
//! A `Poly` holds its coefficients together with the ring it lives in: the
//! modulus `n` of the coefficients, where zero stands for none, and the
//! coefficients of the polynomial `irr` that products are reduced by, where an
//! empty sequence stands for none. Every operation returns a new value.

use crate::division::{divisible, euclid_div, euclid_div_fits, is_division};
use crate::integer::{wrapped, Integer};
use crate::inverse::TRestrictions;
use crate::inversion::{extended_euclid, extended_euclid_fits, inverts, InversionError};
use crate::kernel::{
    is_zero, leading_coefficient, monomial, pad, poly_add, poly_mul, poly_sub, truncate, zeros,
};
use crate::ops::zero;
use crate::randomness::random_in_range;
use crate::sequence::Sequence;
use core::ops::Range;
use crate::algebra::{lemma_canonical_fits, lemma_truncate};
use crate::ring::{
    canonical, coef, degree, division_holds, is_zero_poly, leading, longer, poly_add_fits,
    poly_mul_fits, poly_sub_fits, product_coef, spec_monomial, spec_pad, spec_poly_add,
    spec_poly_mul, spec_poly_sub, spec_truncate, values,
};
use core::ops::{Add, Div, Mul, Sub};
use vstd::prelude::*;
use vstd::std_specs::ops::{AddSpecImpl, DivSpecImpl, MulSpecImpl, SubSpecImpl};

verus! {

/// A polynomial, not necessarily reduced by `irr`: call `reduce` for that.
#[derive(Default, Debug, PartialEq, Clone)]
pub struct Poly<T: TRestrictions> {
    poly: Vec<T>,
    irr: Vec<T>,
    /// Zero where the coefficients have no modulus.
    n: T,
}

/// What a `Poly` stands for: the integers of its coefficients, of the
/// polynomial it is reduced by, and of the modulus of its coefficients.
pub struct PolyView {
    pub poly: Seq<int>,
    pub irr: Seq<int>,
    pub n: int,
}

/// The integers that `u128` literals stand for in a coefficient type with the
/// range `lo..=hi`.
pub open spec fn literals(v: Seq<u128>, lo: int, hi: int) -> Seq<int> {
    Seq::new(v.len(), |i: int| wrapped(v[i] as int, lo, hi))
}

/// The integers that `i128` literals stand for in a coefficient type with the
/// range `lo..=hi`.
pub open spec fn signed_literals(v: Seq<i128>, lo: int, hi: int) -> Seq<int> {
    Seq::new(v.len(), |i: int| wrapped(v[i] as int, lo, hi))
}

/// `r` is `x` reduced by `y`: the difference of `x` and `r` is a multiple of
/// `y` modulo `n`, `r` is zero or of a degree below that of `y`, its
/// coefficients are reduced modulo `n`, and it has no zeros above its degree.
pub open spec fn reduced(r: Seq<int>, x: Seq<int>, y: Seq<int>, n: int) -> bool {
    &&& exists|q: Seq<int>| division_holds(q, r, y, x, n)
    &&& !divisible(r, y)
    &&& n > 0 ==> canonical(r, n)
    &&& r.len() == degree(r) + 1
}

/// The remainder of a division, cut off above its degree, is the dividend
/// reduced by the divisor.
pub proof fn lemma_reduced(q: Seq<int>, r: Seq<int>, x: Seq<int>, y: Seq<int>, n: int)
    requires
        division_holds(q, r, y, x, n),
        !divisible(r, y),
        n > 0 ==> canonical(r, n),
    ensures
        reduced(spec_truncate(r), x, y, n),
{
    let cut = spec_truncate(r);
    lemma_truncate(r);
    assert forall|k: int|
        crate::inverse::congruent(
            #[trigger] product_coef(q, y, k) + coef(cut, k),
            coef(x, k),
            n,
        ) by {
        assert(crate::inverse::congruent(product_coef(q, y, k) + coef(r, k), coef(x, k), n));
    }
    assert(division_holds(q, cut, y, x, n));
    if n > 0 {
        crate::ring::lemma_degree(r);
        assert forall|i: int| 0 <= i < cut.len() implies 0 <= #[trigger] cut[i] < n by {
            if i < r.len() {
                assert(0 <= r[i] < n);
            }
        }
    }
}

/// The polynomial of the length `len` that is zero but for the entries, each
/// an index and the literal of the coefficient there. A later entry for an
/// index replaces an earlier one.
pub open spec fn sparse_values(len: int, entries: Seq<(usize, u128)>, lo: int, hi: int) -> Seq<
    int,
>
    decreases entries.len(),
{
    if entries.len() == 0 {
        Seq::new(len as nat, |i: int| 0int)
    } else {
        sparse_values(len, entries.drop_last(), lo, hi).update(
            entries.last().0 as int,
            wrapped(entries.last().1 as int, lo, hi),
        )
    }
}

/// Whether every entry has its index below `len`.
pub open spec fn entries_within(entries: Seq<(usize, u128)>, len: int) -> bool {
    forall|i: int| 0 <= i < entries.len() ==> (#[trigger] entries[i]).0 < len
}

/// Whether `c` is what a number from `min` up to, but not including, `max`
/// stands for in a coefficient type with the range `lo..=hi`.
pub open spec fn is_drawn(c: int, min: int, max: int, lo: int, hi: int) -> bool {
    exists|s: int| min <= s < max && c == #[trigger] wrapped(s, lo, hi)
}

/// Whether every coefficient is drawn from `min..max`.
pub open spec fn all_drawn(v: Seq<int>, min: int, max: int, lo: int, hi: int) -> bool {
    forall|i: int| 0 <= i < v.len() ==> is_drawn(#[trigger] v[i], min, max, lo, hi)
}

/// A sparse polynomial keeps its length.
pub proof fn lemma_sparse_len(len: int, entries: Seq<(usize, u128)>, lo: int, hi: int)
    requires
        0 <= len,
        entries_within(entries, len),
    ensures
        sparse_values(len, entries, lo, hi).len() == len,
    decreases entries.len(),
{
    if entries.len() > 0 {
        let before = entries.drop_last();
        assert forall|i: int| 0 <= i < before.len() implies (#[trigger] before[i]).0 < len by {
            assert(entries[i].0 < len);
        }
        lemma_sparse_len(len, before, lo, hi);
        assert(entries[entries.len() - 1].0 < len);
    }
}

/// The polynomial of the length `l` that is zero but for the entries.
pub fn scatter<T: TRestrictions>(l: usize, entries: &[(usize, u128)]) -> (out: Vec<T>)
    requires
        entries_within(entries@, l as int),
    ensures
        values(out@) == sparse_values(l as int, entries@, T::lowest(), T::highest()),
{
    let mut out = zeros::<T>(l);
    let ghost lo = T::lowest();
    let ghost hi = T::highest();
    proof {
        assert(entries@.subrange(0, 0) =~= Seq::<(usize, u128)>::empty());
        assert(values(out@) =~= sparse_values(l as int, entries@.subrange(0, 0), lo, hi));
    }
    let mut i: usize = 0;
    while i < entries.len()
        invariant
            i <= entries@.len(),
            lo == T::lowest(),
            hi == T::highest(),
            entries_within(entries@, l as int),
            out@.len() == l,
            values(out@) == sparse_values(l as int, entries@.subrange(0, i as int), lo, hi),
        decreases entries.len() - i,
    {
        let c = entries[i];
        let ghost before = values(out@);
        assert(c.0 < l);
        out[c.0] = T::from_literal(c.1);
        proof {
            let next = entries@.subrange(0, i + 1);
            assert(next.drop_last() =~= entries@.subrange(0, i as int));
            assert(next.last() == c);
            assert(values(out@) =~= before.update(c.0 as int, wrapped(c.1 as int, lo, hi)));
        }
        i += 1;
    }
    assert(entries@.subrange(0, i as int) =~= entries@);
    out
}

/// Whether every number lies in the range from `min` up to, but not
/// including, `max`.
pub open spec fn all_within(draws: Seq<i128>, min: int, max: int) -> bool {
    forall|i: int| 0 <= i < draws.len() ==> min <= #[trigger] draws[i] < max
}

/// `l` numbers, each drawn at random from `min` up to, but not including,
/// `max`.
pub fn random_numbers(l: usize, min: i128, max: i128) -> (out: Vec<i128>)
    requires
        l > 0 ==> min < max,
    ensures
        out@.len() == l,
        all_within(out@, min as int, max as int),
{
    let mut out: Vec<i128> = Vec::new();
    while out.len() < l
        invariant
            out@.len() <= l,
            l > 0 ==> min < max,
            all_within(out@, min as int, max as int),
        decreases l - out.len(),
    {
        out.push(random_in_range(min, max));
    }
    out
}

/// Coefficients that are signed literals from `min..max` are drawn from that
/// range.
pub proof fn lemma_drawn(draws: Seq<i128>, min: int, max: int, lo: int, hi: int)
    requires
        all_within(draws, min, max),
    ensures
        all_drawn(signed_literals(draws, lo, hi), min, max, lo, hi),
{
    let v = signed_literals(draws, lo, hi);
    assert forall|i: int| 0 <= i < v.len() implies is_drawn(#[trigger] v[i], min, max, lo, hi) by {
        assert(min <= draws[i] < max);
        assert(v[i] == wrapped(draws[i] as int, lo, hi));
    }
}

/// `l` coefficients, each drawn at random from `min` up to, but not
/// including, `max`.
pub fn random_poly<T: TRestrictions>(l: usize, min: i128, max: i128) -> (out: Sequence<T>)
    requires
        l > 0 ==> min < max,
    ensures
        out@.len() == l,
        all_drawn(values(out@), min as int, max as int, T::lowest(), T::highest()),
{
    let draws = random_numbers(l, min, max);
    let b = Poly::<T>::i128_to_t(draws.as_slice());
    proof {
        lemma_drawn(draws@, min as int, max as int, T::lowest(), T::highest());
        assert(values(b@).len() == b@.len());
    }
    Sequence::from_vec(b)
}

/// A copy of the coefficients.
pub fn copy_of<T: TRestrictions>(v: &[T]) -> (out: Vec<T>)
    ensures
        out@ == v@,
{
    let out = pad(v, 0);
    assert(out@ =~= out@.subrange(0, v@.len() as int));
    out
}

impl<T: TRestrictions> View for Poly<T> {
    type V = PolyView;

    closed spec fn view(&self) -> PolyView {
        PolyView { poly: values(self.poly@), irr: values(self.irr@), n: self.n.value() }
    }
}

impl<T: TRestrictions> Poly<T> {
    /// The coefficients that the literals stand for.
    pub fn u128_to_t(v: &[u128]) -> (out: Vec<T>)
        ensures
            values(out@) == literals(v@, T::lowest(), T::highest()),
    {
        let mut out: Vec<T> = Vec::new();
        let mut i: usize = 0;
        while i < v.len()
            invariant
                i <= v@.len(),
                out@.len() == i,
                forall|j: int|
                    0 <= j < i ==> (#[trigger] out@[j]).value() == wrapped(
                        v@[j] as int,
                        T::lowest(),
                        T::highest(),
                    ),
            decreases v.len() - i,
        {
            out.push(T::from_literal(v[i]));
            i += 1;
        }
        assert(values(out@) =~= literals(v@, T::lowest(), T::highest()));
        out
    }

    /// The coefficients that the signed literals stand for.
    pub fn i128_to_t(v: &[i128]) -> (out: Vec<T>)
        ensures
            values(out@) == signed_literals(v@, T::lowest(), T::highest()),
    {
        let mut out: Vec<T> = Vec::new();
        let mut i: usize = 0;
        while i < v.len()
            invariant
                i <= v@.len(),
                out@.len() == i,
                forall|j: int|
                    0 <= j < i ==> (#[trigger] out@[j]).value() == wrapped(
                        v@[j] as int,
                        T::lowest(),
                        T::highest(),
                    ),
            decreases v.len() - i,
        {
            out.push(T::from_signed_literal(v[i]));
            i += 1;
        }
        assert(values(out@) =~= signed_literals(v@, T::lowest(), T::highest()));
        out
    }

    /// The polynomial of the length `l` that is zero but for the entries of
    /// `p`, with coefficients modulo `n` and no polynomial to reduce by.
    pub fn sparse(l: usize, p: &[(usize, u128)], n: u128) -> (out: Self)
        requires
            entries_within(p@, l as int),
        ensures
            out@.poly == sparse_values(l as int, p@, T::lowest(), T::highest()),
            out@.irr == Seq::<int>::empty(),
            out@.n == wrapped(n as int, T::lowest(), T::highest()),
    {
        let irr: Vec<T> = Vec::new();
        let out = Self { poly: scatter(l, p), irr, n: T::from_literal(n) };
        assert(out@.irr =~= Seq::<int>::empty());
        out
    }

    /// The polynomial of the length `l` that is zero but for the entries of
    /// `p`, with coefficients modulo `n`, reduced by the polynomial of the
    /// length `l + 1` that is zero but for the entries of `irr_in`.
    pub fn sparse_full(
        l: usize,
        p: &[(usize, u128)],
        n: u128,
        irr_in: &[(usize, u128)],
    ) -> (out: Self)
        requires
            l < usize::MAX,
            entries_within(p@, l as int),
            entries_within(irr_in@, l + 1),
        ensures
            out@.poly == sparse_values(l as int, p@, T::lowest(), T::highest()),
            out@.irr == sparse_values(l + 1, irr_in@, T::lowest(), T::highest()),
            out@.n == wrapped(n as int, T::lowest(), T::highest()),
    {
        Self { poly: scatter(l, p), irr: scatter(l + 1, irr_in), n: T::from_literal(n) }
    }

    /// A polynomial of `l` coefficients drawn at random from the range `r`,
    /// with coefficients modulo `n`, reduced by the polynomial of the length
    /// `l + 1` that is zero but for the entries of `irr_in`.
    pub fn sparse_random(l: usize, r: Range<i128>, n: u128, irr_in: &[(usize, u128)]) -> (out:
        Self)
        requires
            l < usize::MAX,
            l > 0 ==> r.start < r.end,
            entries_within(irr_in@, l + 1),
        ensures
            out@.poly.len() == l,
            all_drawn(out@.poly, r.start as int, r.end as int, T::lowest(), T::highest()),
            out@.irr == sparse_values(l + 1, irr_in@, T::lowest(), T::highest()),
            out@.n == wrapped(n as int, T::lowest(), T::highest()),
    {
        Self {
            poly: random_poly(l, r.start, r.end).into_vec(),
            irr: scatter(l + 1, irr_in),
            n: T::from_literal(n),
        }
    }

    /// A polynomial of coefficients drawn at random from the range `r`, one
    /// fewer than `irr_in` has, in the ring with the modulus `n_in` and the
    /// polynomial `irr_in` to reduce by.
    pub fn random(irr_in: Sequence<T>, r: Range<i128>, n_in: T) -> (out: Self)
        requires
            irr_in@.len() > 0,
            irr_in@.len() > 1 ==> r.start < r.end,
        ensures
            out@.poly.len() == irr_in@.len() - 1,
            all_drawn(out@.poly, r.start as int, r.end as int, T::lowest(), T::highest()),
            out@.irr == values(irr_in@),
            out@.n == n_in.value(),
    {
        Self {
            poly: random_poly(irr_in.len() - 1, r.start, r.end).into_vec(),
            irr: irr_in.into_vec(),
            n: n_in,
        }
    }

    /// The polynomial `p` over the integers modulo `n`, with no polynomial to
    /// reduce by.
    pub fn from_array(p: &[u128], n: u128) -> (out: Self)
        ensures
            out@.poly == literals(p@, T::lowest(), T::highest()),
            out@.irr == Seq::<int>::empty(),
            out@.n == wrapped(n as int, T::lowest(), T::highest()),
    {
        let none: Vec<u128> = Vec::new();
        let out = Self {
            poly: Self::u128_to_t(p),
            irr: Self::u128_to_t(none.as_slice()),
            n: T::from_literal(n),
        };
        assert(out@.irr =~= Seq::<int>::empty());
        out
    }

    /// The polynomial with the coefficients `p` over the integers, with the
    /// polynomial `irr_in` to reduce by.
    pub fn build_from_irr_poly(irr_in: &[T], p: &[T]) -> (out: Self)
        ensures
            out@.poly == values(p@),
            out@.irr == values(irr_in@),
            out@.n == 0,
    {
        Self { poly: copy_of(p), irr: copy_of(irr_in), n: zero::<T>() }
    }

    /// The polynomial with the coefficients `p` in the ring with the modulus
    /// `n_in` and the polynomial `irr_in` to reduce by.
    pub fn build(irr_in: &[T], p: &[T], n_in: &T) -> (out: Self)
        ensures
            out@.poly == values(p@),
            out@.irr == values(irr_in@),
            out@.n == n_in.value(),
    {
        Self { poly: copy_of(p), irr: copy_of(irr_in), n: *n_in }
    }

    /// The polynomial `p` in the ring with the modulus `n_in` and the
    /// polynomial `irr_in` to reduce by. Nothing is reduced yet.
    pub fn new_full(irr_in: &[u128], p: &[u128], n_in: u128) -> (out: Self)
        ensures
            out@.poly == literals(p@, T::lowest(), T::highest()),
            out@.irr == literals(irr_in@, T::lowest(), T::highest()),
            out@.n == wrapped(n_in as int, T::lowest(), T::highest()),
    {
        Self {
            poly: Self::u128_to_t(p),
            irr: Self::u128_to_t(irr_in),
            n: T::from_literal(n_in),
        }
    }

    /// The polynomial `p` over the integers, with the polynomial `irr_in` to
    /// reduce by.
    pub fn new(irr_in: &[u128], p: &[u128]) -> (out: Self)
        ensures
            out@.poly == literals(p@, T::lowest(), T::highest()),
            out@.irr == literals(irr_in@, T::lowest(), T::highest()),
            out@.n == 0,
    {
        Self { poly: Self::u128_to_t(p), irr: Self::u128_to_t(irr_in), n: zero::<T>() }
    }

    /// The polynomial `p` over the integers, from signed literals.
    pub fn new_signed(irr_in: &[i128], p: &[i128]) -> (out: Self)
        ensures
            out@.poly == signed_literals(p@, T::lowest(), T::highest()),
            out@.irr == signed_literals(irr_in@, T::lowest(), T::highest()),
            out@.n == 0,
    {
        Self { poly: Self::i128_to_t(p), irr: Self::i128_to_t(irr_in), n: zero::<T>() }
    }

    /// The polynomial `p` in the ring with the modulus `n_in` and the
    /// polynomial `irr_in` to reduce by, from signed literals.
    pub fn new_signed_full(irr_in: &[i128], p: &[i128], n_in: i128) -> (out: Self)
        ensures
            out@.poly == signed_literals(p@, T::lowest(), T::highest()),
            out@.irr == signed_literals(irr_in@, T::lowest(), T::highest()),
            out@.n == wrapped(n_in as int, T::lowest(), T::highest()),
    {
        Self {
            poly: Self::i128_to_t(p),
            irr: Self::i128_to_t(irr_in),
            n: T::from_signed_literal(n_in),
        }
    }

    /// The monomial `c * x^d` over the integers.
    pub fn new_monomial(irr_in: &[u128], c: T, d: usize) -> (out: Self)
        requires
            d < usize::MAX,
        ensures
            out@.poly == spec_monomial(c.value(), d as int),
            out@.irr == literals(irr_in@, T::lowest(), T::highest()),
            out@.n == 0,
    {
        Self { poly: monomial(c, d), irr: Self::u128_to_t(irr_in), n: zero::<T>() }
    }

    /// The polynomial `p` in the ring of `self`.
    pub fn new_poly(self, p: &[u128]) -> (out: Self)
        ensures
            out@.poly == literals(p@, T::lowest(), T::highest()),
            out@.irr == self@.irr,
            out@.n == self@.n,
    {
        Self { poly: Self::u128_to_t(p), irr: copy_of(self.irr.as_slice()), n: self.n }
    }

    /// The coefficients.
    pub fn coefficients(&self) -> (out: &[T])
        ensures
            values(out@) == self@.poly,
    {
        self.poly.as_slice()
    }

    /// The coefficients of the polynomial to reduce by; none where there is
    /// none.
    pub fn irreducible(&self) -> (out: &[T])
        ensures
            values(out@) == self@.irr,
    {
        self.irr.as_slice()
    }

    /// The modulus of the coefficients; zero where there is none.
    pub fn modulus(&self) -> (out: T)
        ensures
            out.value() == self@.n,
    {
        self.n
    }

    /// The degree of this polynomial and the coefficient there.
    pub fn leading_coefficient(self) -> (out: (usize, T))
        ensures
            out.0 == degree(self@.poly),
            out.1.value() == leading(self@.poly),
    {
        leading_coefficient(self.poly.as_slice())
    }

    /// The polynomial with zeros appended up to the length `l`.
    pub fn pad(self, l: usize) -> (out: Self)
        ensures
            out@.poly == spec_pad(self@.poly, l as int),
            out@.irr == self@.irr,
            out@.n == self@.n,
    {
        Self { poly: pad(self.poly.as_slice(), l), irr: copy_of(self.irr.as_slice()), n: self.n }
    }

    /// The polynomial without the zeros above its degree.
    pub fn truncate(&self) -> (out: Self)
        ensures
            out@.poly == spec_truncate(self@.poly),
            out@.irr == self@.irr,
            out@.n == self@.n,
    {
        Self {
            poly: truncate(self.poly.as_slice()),
            irr: copy_of(self.irr.as_slice()),
            n: self.n,
        }
    }

    /// The remainder of this polynomial by `irr`, without the zeros above
    /// its degree.
    pub fn reduce(self) -> (out: Self)
        requires
            euclid_div_fits(self@.poly, self@.irr, self@.n, T::lowest(), T::highest()),
        ensures
            reduced(out@.poly, self@.poly, self@.irr, self@.n),
            !divisible(self@.poly, self@.irr) ==> out@.poly == spec_truncate(self@.poly),
            out@.irr == self@.irr,
            out@.n == self@.n,
    {
        let (q, r) = euclid_div(self.poly.as_slice(), self.irr.as_slice(), self.n);
        let cut = truncate(r.as_slice());
        proof {
            lemma_reduced(values(q@), values(r@), self@.poly, self@.irr, self@.n);
            lemma_truncate(self@.poly);
            crate::ring::lemma_pad(self@.poly, self.irr@.len() as int);
            if !divisible(self@.poly, self@.irr) {
                crate::algebra::lemma_same_coefficients(values(r@), self@.poly);
                assert(spec_truncate(values(r@)) =~= spec_truncate(self@.poly));
            }
        }
        Self { poly: cut, irr: self.irr, n: self.n }
    }

    /// Euclidean division of this polynomial by `rhs`: the quotient and the
    /// remainder, as the kernel returns them.
    pub fn euclid_div(self, rhs: Poly<T>) -> (out: (Poly<T>, Poly<T>))
        requires
            same_ring(self@, rhs@),
            euclid_div_fits(self@.poly, rhs@.poly, self@.n, T::lowest(), T::highest()),
        ensures
            division_holds(out.0@.poly, out.1@.poly, rhs@.poly, self@.poly, self@.n),
            !divisible(out.1@.poly, rhs@.poly),
            out.0@.poly.len() == longer(self@.poly.len() as int, rhs@.poly.len() as int),
            out.1@.poly.len() == longer(self@.poly.len() as int, rhs@.poly.len() as int)
                + if divisible(self@.poly, rhs@.poly) {
                degree(self@.poly) - degree(rhs@.poly) + 1
            } else {
                0
            },
            !divisible(self@.poly, rhs@.poly) ==> is_zero_poly(out.0@.poly) && out.1@.poly
                == spec_pad(self@.poly, rhs@.poly.len() as int),
            self@.n > 0 ==> canonical(out.0@.poly, self@.n) && canonical(out.1@.poly, self@.n),
            is_division(out.0@.poly, out.1@.poly, self@.poly, rhs@.poly, self@.n),
            same_ring(out.0@, self@),
            same_ring(out.1@, self@),
    {
        let (q, r) = euclid_div(self.poly.as_slice(), rhs.poly.as_slice(), self.n);
        (
            Self { poly: q, irr: copy_of(self.irr.as_slice()), n: self.n },
            Self { poly: r, irr: copy_of(self.irr.as_slice()), n: self.n },
        )
    }

    /// The inverse of this polynomial modulo `irr`, or the error that says
    /// that it has none.
    pub fn inv(self) -> (out: Result<Self, InversionError>)
        requires
            extended_euclid_fits(self@.poly, self@.irr, self@.n, T::lowest(), T::highest()),
        ensures
            match out {
                Ok(p) => {
                    &&& inverts(p@.poly, self@.poly, self@.irr, self@.n)
                    &&& canonical(p@.poly, self@.n)
                    &&& p@.poly.len() == degree(p@.poly) + 1
                    &&& p@.poly.len() <= longer(self@.poly.len() as int, self@.irr.len() as int)
                    &&& degree(self@.irr) >= 1 ==> degree(p@.poly) < degree(self@.irr)
                    &&& same_ring(p@, self@)
                },
                Err(e) => {
                    &&& e == InversionError::NotInvertible
                    &&& forall|v: Seq<int>| !inverts(v, self@.poly, self@.irr, self@.n)
                },
            },
    {
        match extended_euclid(self.poly.as_slice(), self.irr.as_slice(), self.n) {
            Ok(v) => Ok(Self { poly: v, irr: self.irr, n: self.n }),
            Err(e) => Err(e),
        }
    }

    /// Whether every coefficient is zero.
    pub fn is_zero(self) -> (b: bool)
        ensures
            b == is_zero_poly(self@.poly),
    {
        is_zero(self.poly.as_slice())
    }
}

/// Whether two polynomials live in the same ring.
pub open spec fn same_ring(a: PolyView, b: PolyView) -> bool {
    a.irr == b.irr && a.n == b.n
}

/// The inputs on which two polynomials can be added, for a coefficient type
/// with the range `lo..=hi`.
pub open spec fn add_defined(a: PolyView, b: PolyView, lo: int, hi: int) -> bool {
    same_ring(a, b) && poly_add_fits(a.poly, b.poly, a.n, lo, hi)
}

impl<T: TRestrictions> AddSpecImpl for Poly<T> {
    open spec fn obeys_add_spec() -> bool {
        false
    }

    open spec fn add_req(self, rhs: Self) -> bool {
        add_defined(self@, rhs@, T::lowest(), T::highest())
    }

    open spec fn add_spec(self, rhs: Self) -> Self {
        self
    }
}

/// Polynomial addition.
impl<T: TRestrictions> Add for Poly<T> {
    type Output = Self;

    fn add(self, rhs: Self) -> (out: Self)
        ensures
            out@.poly == spec_poly_add(self@.poly, rhs@.poly, self@.n),
            out@.irr == self@.irr,
            out@.n == self@.n,
    {
        Self {
            poly: poly_add(self.poly.as_slice(), rhs.poly.as_slice(), self.n),
            irr: self.irr,
            n: self.n,
        }
    }
}

/// The inputs on which two polynomials can be subtracted, for a coefficient
/// type with the range `lo..=hi`.
pub open spec fn sub_defined(a: PolyView, b: PolyView, lo: int, hi: int) -> bool {
    same_ring(a, b) && poly_sub_fits(a.poly, b.poly, a.n, lo, hi)
}

impl<T: TRestrictions> SubSpecImpl for Poly<T> {
    open spec fn obeys_sub_spec() -> bool {
        false
    }

    open spec fn sub_req(self, rhs: Self) -> bool {
        sub_defined(self@, rhs@, T::lowest(), T::highest())
    }

    open spec fn sub_spec(self, rhs: Self) -> Self {
        self
    }
}

/// Polynomial subtraction.
impl<T: TRestrictions> Sub for Poly<T> {
    type Output = Self;

    fn sub(self, rhs: Self) -> (out: Self)
        ensures
            out@.poly == spec_poly_sub(self@.poly, rhs@.poly, self@.n),
            out@.irr == self@.irr,
            out@.n == self@.n,
    {
        Self {
            poly: poly_sub(self.poly.as_slice(), rhs.poly.as_slice(), self.n),
            irr: self.irr,
            n: self.n,
        }
    }
}

/// The inputs on which two polynomials can be multiplied, for a coefficient
/// type with the range `lo..=hi`: the product can be computed, and where there
/// is a polynomial to reduce by, it can be divided by that.
pub open spec fn mul_defined(a: PolyView, b: PolyView, lo: int, hi: int) -> bool {
    &&& same_ring(a, b)
    &&& a.poly.len() + b.poly.len() <= usize::MAX
    &&& poly_mul_fits(a.poly, b.poly, a.n, lo, hi)
    &&& a.irr.len() > 0 ==> euclid_div_fits(spec_poly_mul(a.poly, b.poly, a.n), a.irr, a.n, lo, hi)
}

/// A polynomial that can be inverted can be multiplied with its inverse, and
/// with every reduced polynomial of its ring that is no longer than the longer
/// of the polynomial and the one it is reduced by.
pub proof fn lemma_inverse_multiplies(a: PolyView, v: PolyView, lo: int, hi: int)
    requires
        extended_euclid_fits(a.poly, a.irr, a.n, lo, hi),
        lo <= 0,
        same_ring(a, v),
        canonical(v.poly, a.n),
        v.poly.len() <= longer(a.poly.len() as int, a.irr.len() as int),
    ensures
        mul_defined(a, v, lo, hi),
{
    lemma_canonical_fits(a.poly, v.poly, a.n, lo, hi);
    crate::ring::lemma_degree(a.irr);
    assert(0 < a.irr[degree(a.irr)] < a.n);
    assert(crate::division::leading_unit(leading(a.irr), a.n, lo < 0));
}

impl<T: TRestrictions> MulSpecImpl for Poly<T> {
    open spec fn obeys_mul_spec() -> bool {
        false
    }

    open spec fn mul_req(self, rhs: Self) -> bool {
        mul_defined(self@, rhs@, T::lowest(), T::highest())
    }

    open spec fn mul_spec(self, rhs: Self) -> Self {
        self
    }
}

/// Polynomial multiplication: the product, reduced by `irr` where there is
/// one.
impl<T: TRestrictions> Mul for Poly<T> {
    type Output = Self;

    fn mul(self, rhs: Self) -> (out: Self)
        ensures
            self@.irr.len() == 0 ==> out@.poly == spec_poly_mul(self@.poly, rhs@.poly, self@.n),
            self@.irr.len() > 0 ==> reduced(
                out@.poly,
                spec_poly_mul(self@.poly, rhs@.poly, self@.n),
                self@.irr,
                self@.n,
            ),
            self@.irr.len() > 0 && !divisible(
                spec_poly_mul(self@.poly, rhs@.poly, self@.n),
                self@.irr,
            ) ==> out@.poly == spec_truncate(spec_poly_mul(self@.poly, rhs@.poly, self@.n)),
            out@.irr == self@.irr,
            out@.n == self@.n,
    {
        let tmp = poly_mul(self.poly.as_slice(), rhs.poly.as_slice(), self.n);
        let r = Self { poly: tmp, irr: self.irr, n: self.n };
        if r.irr.is_empty() {
            r
        } else {
            r.reduce()
        }
    }
}

/// The inputs on which two polynomials can be divided, for a coefficient type
/// with the range `lo..=hi`: the division is defined, and where there is a
/// polynomial to reduce by, the coefficients have a modulus and quotient and
/// remainder can be divided by that polynomial.
pub open spec fn div_defined(a: PolyView, b: PolyView, lo: int, hi: int) -> bool {
    &&& same_ring(a, b)
    &&& euclid_div_fits(a.poly, b.poly, a.n, lo, hi)
    &&& a.irr.len() > 0 ==> reduction_defined(
        a.irr,
        a.n,
        2 * longer(a.poly.len() as int, b.poly.len() as int),
        lo,
        hi,
    )
}

/// Whether every reduced polynomial of a length up to `l` can be divided by
/// `irr` with coefficients modulo `n`, in a coefficient type with the range
/// `lo..=hi`.
pub open spec fn reduction_defined(irr: Seq<int>, n: int, l: int, lo: int, hi: int) -> bool {
    &&& n > 0
    &&& 2 * longer(l, irr.len() as int) <= usize::MAX
    &&& !is_zero_poly(irr)
    &&& crate::division::leading_unit(leading(irr), n, lo < 0)
    &&& canonical(irr, n)
    &&& n * n <= hi
    &&& lo < 0 ==> lo <= -n
}

impl<T: TRestrictions> DivSpecImpl for Poly<T> {
    open spec fn obeys_div_spec() -> bool {
        false
    }

    open spec fn div_req(self, rhs: Self) -> bool {
        div_defined(self@, rhs@, T::lowest(), T::highest())
    }

    open spec fn div_spec(self, rhs: Self) -> (Self, Self) {
        (self, rhs)
    }
}

/// Polynomial division: quotient and remainder, each reduced by `irr` where
/// there is one.
impl<T: TRestrictions> Div for Poly<T> {
    type Output = (Self, Self);

    fn div(self, rhs: Self) -> (out: (Self, Self))
        ensures
            self@.irr.len() == 0 ==> is_division(
                out.0@.poly,
                out.1@.poly,
                self@.poly,
                rhs@.poly,
                self@.n,
            ),
            self@.irr.len() > 0 ==> exists|q: Seq<int>, r: Seq<int>|
                {
                    &&& #[trigger] is_division(q, r, self@.poly, rhs@.poly, self@.n)
                    &&& remainder_of(out.0@.poly, q, self@.irr, self@.n)
                    &&& remainder_of(out.1@.poly, r, self@.irr, self@.n)
                },
            same_ring(out.0@, self@),
            same_ring(out.1@, self@),
    {
        let ghost a = self@;
        let ghost b = rhs@;
        let r = euclid_div(self.poly.as_slice(), rhs.poly.as_slice(), self.n);
        let ghost q0 = values(r.0@);
        let ghost r0 = values(r.1@);
        let r = if self.irr.is_empty() {
            r
        } else {
            proof {
                crate::ring::lemma_degree(a.poly);
                crate::ring::lemma_degree(b.poly);
                assert(r0.len() <= 2 * longer(a.poly.len() as int, b.poly.len() as int));
                assert(euclid_div_fits(q0, a.irr, a.n, T::lowest(), T::highest()));
                assert(euclid_div_fits(r0, a.irr, a.n, T::lowest(), T::highest()));
            }
            let first = euclid_div(r.0.as_slice(), self.irr.as_slice(), self.n);
            let second = euclid_div(r.1.as_slice(), self.irr.as_slice(), self.n);
            proof {
                assert(is_division(values(first.0@), values(first.1@), q0, a.irr, a.n));
                assert(is_division(values(second.0@), values(second.1@), r0, a.irr, a.n));
            }
            (first.1, second.1)
        };
        let out = (
            Self { poly: r.0, irr: copy_of(self.irr.as_slice()), n: self.n },
            Self { poly: r.1, irr: self.irr, n: self.n },
        );
        proof {
            assert(is_division(q0, r0, a.poly, b.poly, a.n));
        }
        out
    }
}

/// `r` is the remainder of `x` by `y`, as `euclid_div` returns it with some
/// quotient.
pub open spec fn remainder_of(r: Seq<int>, x: Seq<int>, y: Seq<int>, n: int) -> bool {
    exists|q: Seq<int>| is_division(q, r, x, y, n)
}

} // verus!
