//! Polynomials of a fixed length in a fixed ring.
//!
//! A `FixedPoly` holds `l` coefficients modulo `n` and the `l + 1`
//! coefficients of the polynomial that products are reduced by. Its operators
//! stay in the ring: every result has `l` coefficients again.

use crate::division::{divisible, euclid_div, euclid_div_fits, is_division};
use crate::integer::{wrapped, Integer};
use crate::inverse::TRestrictions;
use crate::kernel::{poly_add, poly_mul, poly_sub, zeros};
use crate::ops::same;
use crate::poly::{all_drawn, copy_of, random_poly, remainder_of, PolyView};
use crate::ring::{
    canonical, coef, degree, division_holds, lemma_degree, poly_add_fits, poly_mul_fits,
    poly_sub_fits, spec_poly_add, spec_poly_mul, spec_poly_sub, values,
};
use core::ops::{Add, Div, Mul, Sub};
use vstd::prelude::*;
use vstd::std_specs::ops::{AddSpecImpl, DivSpecImpl, MulSpecImpl, SubSpecImpl};

verus! {

/// The first `l` coefficients of `v`, with zeros where `v` has none.
pub open spec fn fitted(v: Seq<int>, l: int) -> Seq<int> {
    Seq::new(l as nat, |i: int| coef(v, i))
}

/// The polynomial of the length `len` that is zero but for the entries, each
/// an index and the coefficient there. A later entry for an index replaces an
/// earlier one.
pub open spec fn placed<T: Integer>(len: int, entries: Seq<(usize, T)>) -> Seq<int>
    decreases entries.len(),
{
    if entries.len() == 0 {
        Seq::new(len as nat, |i: int| 0int)
    } else {
        placed(len, entries.drop_last()).update(
            entries.last().0 as int,
            entries.last().1.value(),
        )
    }
}

/// Whether every entry has its index below `len`.
pub open spec fn placed_within<T>(entries: Seq<(usize, T)>, len: int) -> bool {
    forall|i: int| 0 <= i < entries.len() ==> (#[trigger] entries[i]).0 < len
}

/// The polynomial of the length `l` that is zero but for the entries.
pub fn place<T: TRestrictions>(l: usize, entries: &[(usize, T)]) -> (out: Vec<T>)
    requires
        placed_within(entries@, l as int),
    ensures
        values(out@) == placed(l as int, entries@),
        out@.len() == l,
{
    let mut out = zeros::<T>(l);
    proof {
        assert(entries@.subrange(0, 0) =~= Seq::<(usize, T)>::empty());
        assert(values(out@) =~= placed(l as int, entries@.subrange(0, 0)));
    }
    let mut i: usize = 0;
    while i < entries.len()
        invariant
            i <= entries@.len(),
            placed_within(entries@, l as int),
            out@.len() == l,
            values(out@) == placed(l as int, entries@.subrange(0, i as int)),
        decreases entries.len() - i,
    {
        let c = entries[i];
        let ghost before = values(out@);
        assert(c.0 < l);
        out[c.0] = c.1;
        proof {
            let next = entries@.subrange(0, i + 1);
            assert(next.drop_last() =~= entries@.subrange(0, i as int));
            assert(next.last() == c);
            assert(values(out@) =~= before.update(c.0 as int, c.1.value()));
        }
        i += 1;
    }
    assert(entries@.subrange(0, i as int) =~= entries@);
    out
}

/// The first `l` coefficients of `v`, with zeros where `v` has none. The
/// degree of `v` is at most `l`.
pub fn fit<T: TRestrictions>(v: &[T], l: usize) -> (out: Vec<T>)
    requires
        degree(values(v@)) <= l,
    ensures
        values(out@) == fitted(values(v@), l as int),
        out@.len() == l,
{
    let mut out: Vec<T> = Vec::new();
    let mut i: usize = 0;
    while i < l
        invariant
            i <= l,
            out@.len() == i,
            forall|j: int| 0 <= j < i ==> (#[trigger] out@[j]).value() == coef(values(v@), j),
        decreases l - i,
    {
        if i < v.len() {
            out.push(v[i]);
        } else {
            out.push(crate::ops::zero::<T>());
        }
        i += 1;
    }
    assert(values(out@) =~= fitted(values(v@), l as int));
    out
}

/// A polynomial of a fixed length in a fixed ring.
#[derive(Clone, Debug, PartialEq)]
pub struct FixedPoly<T: TRestrictions> {
    poly: Vec<T>,
    irr: Vec<T>,
    n: T,
}

impl<T: TRestrictions> View for FixedPoly<T> {
    type V = PolyView;

    closed spec fn view(&self) -> PolyView {
        PolyView { poly: values(self.poly@), irr: values(self.irr@), n: self.n.value() }
    }
}

/// Whether two polynomials of a fixed length live in the same ring and have
/// the same length.
pub open spec fn compatible_views(a: PolyView, b: PolyView) -> bool {
    a.n == b.n && a.irr == b.irr && a.poly.len() == b.poly.len()
}

impl<T: TRestrictions> FixedPoly<T> {
    /// Whether the polynomial to reduce by has one coefficient more than the
    /// polynomial itself.
    pub open spec fn wf(&self) -> bool {
        self@.irr.len() == self@.poly.len() + 1
    }

    /// The polynomial of the length `l` that is zero but for the entries of
    /// `p`, with coefficients modulo `n`, reduced by the polynomial of the
    /// length `l + 1` that is zero but for the entries of `m`.
    pub fn new(l: usize, n: T, m: &[(usize, T)], p: &[(usize, T)]) -> (out: Self)
        requires
            l < usize::MAX,
            placed_within(p@, l as int),
            placed_within(m@, l + 1),
        ensures
            out.wf(),
            out@.poly == placed(l as int, p@),
            out@.irr == placed(l + 1, m@),
            out@.n == n.value(),
    {
        Self { poly: place(l, p), irr: place(l + 1, m), n }
    }

    /// The polynomial with the coefficients `p`, modulo `n`, reduced by the
    /// polynomial that has one coefficient more and is zero but for the entries
    /// of `m`.
    pub fn new_full(n: T, m: &[(usize, T)], p: &[T]) -> (out: Self)
        requires
            p@.len() < usize::MAX,
            placed_within(m@, p@.len() as int + 1),
        ensures
            out.wf(),
            out@.poly == values(p@),
            out@.irr == placed(p@.len() as int + 1, m@),
            out@.n == n.value(),
    {
        Self { poly: copy_of(p), irr: place(p.len() + 1, m), n }
    }

    /// A polynomial of `l` coefficients drawn at random from zero up to, but
    /// not including, `n`.
    pub fn random(l: usize, n: u128, m: &[(usize, T)]) -> (out: Self)
        requires
            l < usize::MAX,
            l > 0 ==> 0 < n <= i128::MAX,
            placed_within(m@, l + 1),
        ensures
            out.wf(),
            out@.poly.len() == l,
            all_drawn(out@.poly, 0, n as int, T::lowest(), T::highest()),
            out@.irr == placed(l + 1, m@),
            out@.n == wrapped(n as int, T::lowest(), T::highest()),
    {
        let upper: i128 = if n <= 0x7fff_ffff_ffff_ffff_ffff_ffff_ffff_ffffu128 {
            n as i128
        } else {
            0
        };
        Self {
            poly: random_poly(l, 0, upper).into_vec(),
            irr: place(l + 1, m),
            n: T::from_literal(n),
        }
    }

    /// The number of coefficients.
    pub fn len(&self) -> (l: usize)
        ensures
            l == self@.poly.len(),
    {
        self.poly.len()
    }

    /// The coefficients.
    pub fn coefficients(&self) -> (out: &[T])
        ensures
            values(out@) == self@.poly,
    {
        self.poly.as_slice()
    }

    /// Whether the two polynomials are defined over the same ring.
    pub fn compatible(&self, other: &Self) -> (b: bool)
        ensures
            b == compatible_views(self@, other@),
    {
        if !same(self.n, other.n) {
            return false;
        }
        if self.irr.len() != other.irr.len() {
            assert(self@.irr.len() != other@.irr.len());
            return false;
        }
        if self.poly.len() != other.poly.len() {
            assert(self@.poly.len() != other@.poly.len());
            return false;
        }
        let mut i: usize = 0;
        while i < self.irr.len()
            invariant
                i <= self.irr@.len(),
                self.irr@.len() == other.irr@.len(),
                forall|j: int| 0 <= j < i ==> self@.irr[j] == other@.irr[j],
            decreases self.irr.len() - i,
        {
            if !same(self.irr[i], other.irr[i]) {
                assert(self@.irr[i as int] != other@.irr[i as int]);
                return false;
            }
            i += 1;
        }
        assert(self@.irr =~= other@.irr);
        true
    }
}

/// The inputs on which two polynomials of a fixed length can be added, for a
/// coefficient type with the range `lo..=hi`.
pub open spec fn fixed_add_defined(a: PolyView, b: PolyView, lo: int, hi: int) -> bool {
    compatible_views(a, b) && poly_add_fits(a.poly, b.poly, a.n, lo, hi)
}

impl<T: TRestrictions> AddSpecImpl for FixedPoly<T> {
    open spec fn obeys_add_spec() -> bool {
        false
    }

    open spec fn add_req(self, rhs: Self) -> bool {
        fixed_add_defined(self@, rhs@, T::lowest(), T::highest())
    }

    open spec fn add_spec(self, rhs: Self) -> Self {
        self
    }
}

/// Polynomial addition.
impl<T: TRestrictions> Add for FixedPoly<T> {
    type Output = Self;

    fn add(self, rhs: Self) -> (out: Self)
        ensures
            out@.poly == spec_poly_add(self@.poly, rhs@.poly, self@.n),
            out@.irr == self@.irr,
            out@.n == self@.n,
    {
        let r = poly_add(self.poly.as_slice(), rhs.poly.as_slice(), self.n);
        Self { poly: r, irr: self.irr, n: self.n }
    }
}

/// The inputs on which two polynomials of a fixed length can be subtracted,
/// for a coefficient type with the range `lo..=hi`.
pub open spec fn fixed_sub_defined(a: PolyView, b: PolyView, lo: int, hi: int) -> bool {
    compatible_views(a, b) && poly_sub_fits(a.poly, b.poly, a.n, lo, hi)
}

impl<T: TRestrictions> SubSpecImpl for FixedPoly<T> {
    open spec fn obeys_sub_spec() -> bool {
        false
    }

    open spec fn sub_req(self, rhs: Self) -> bool {
        fixed_sub_defined(self@, rhs@, T::lowest(), T::highest())
    }

    open spec fn sub_spec(self, rhs: Self) -> Self {
        self
    }
}

/// Polynomial subtraction.
impl<T: TRestrictions> Sub for FixedPoly<T> {
    type Output = Self;

    fn sub(self, rhs: Self) -> (out: Self)
        ensures
            out@.poly == spec_poly_sub(self@.poly, rhs@.poly, self@.n),
            out@.irr == self@.irr,
            out@.n == self@.n,
    {
        let r = poly_sub(self.poly.as_slice(), rhs.poly.as_slice(), self.n);
        Self { poly: r, irr: self.irr, n: self.n }
    }
}

/// The inputs on which two polynomials of a fixed length can be multiplied,
/// for a coefficient type with the range `lo..=hi`: the product can be
/// computed and divided by the polynomial to reduce by.
pub open spec fn fixed_mul_defined(a: PolyView, b: PolyView, lo: int, hi: int) -> bool {
    &&& compatible_views(a, b)
    &&& a.irr.len() == a.poly.len() + 1
    &&& a.poly.len() + b.poly.len() <= usize::MAX
    &&& poly_mul_fits(a.poly, b.poly, a.n, lo, hi)
    &&& euclid_div_fits(spec_poly_mul(a.poly, b.poly, a.n), a.irr, a.n, lo, hi)
}

impl<T: TRestrictions> MulSpecImpl for FixedPoly<T> {
    open spec fn obeys_mul_spec() -> bool {
        false
    }

    open spec fn mul_req(self, rhs: Self) -> bool {
        fixed_mul_defined(self@, rhs@, T::lowest(), T::highest())
    }

    open spec fn mul_spec(self, rhs: Self) -> Self {
        self
    }
}

/// Polynomial multiplication: the product, reduced by `irr` and brought back
/// to the length of the factors.
impl<T: TRestrictions> Mul for FixedPoly<T> {
    type Output = Self;

    fn mul(self, rhs: Self) -> (out: Self)
        ensures
            exists|r: Seq<int>|
                #[trigger] remainder_of(
                    r,
                    spec_poly_mul(self@.poly, rhs@.poly, self@.n),
                    self@.irr,
                    self@.n,
                ) && out@.poly == fitted(r, self@.poly.len() as int),
            out@.irr == self@.irr,
            out@.n == self@.n,
    {
        let tmp = poly_mul(self.poly.as_slice(), rhs.poly.as_slice(), self.n);
        let (q, r) = euclid_div(tmp.as_slice(), self.irr.as_slice(), self.n);
        proof {
            lemma_degree(values(r@));
            lemma_degree(self@.irr);
            assert(division_holds(
                values(q@),
                values(r@),
                self@.irr,
                spec_poly_mul(self@.poly, rhs@.poly, self@.n),
                self@.n,
            ));
        }
        let poly = fit(r.as_slice(), self.poly.len());
        proof {
            assert(is_division(
                values(q@),
                values(r@),
                spec_poly_mul(self@.poly, rhs@.poly, self@.n),
                self@.irr,
                self@.n,
            ));
            assert(remainder_of(
                values(r@),
                spec_poly_mul(self@.poly, rhs@.poly, self@.n),
                self@.irr,
                self@.n,
            ));
        }
        Self { poly, irr: self.irr, n: self.n }
    }
}

/// The inputs on which two polynomials of a fixed length can be divided, for
/// a coefficient type with the range `lo..=hi`.
pub open spec fn fixed_div_defined(a: PolyView, b: PolyView, lo: int, hi: int) -> bool {
    &&& compatible_views(a, b)
    &&& euclid_div_fits(a.poly, b.poly, a.n, lo, hi)
}

impl<T: TRestrictions> DivSpecImpl for FixedPoly<T> {
    open spec fn obeys_div_spec() -> bool {
        false
    }

    open spec fn div_req(self, rhs: Self) -> bool {
        fixed_div_defined(self@, rhs@, T::lowest(), T::highest())
    }

    open spec fn div_spec(self, rhs: Self) -> (Self, Self) {
        (self, rhs)
    }
}

/// Polynomial division: quotient and remainder, each brought back to the
/// length of the operands.
impl<T: TRestrictions> Div for FixedPoly<T> {
    type Output = (Self, Self);

    fn div(self, rhs: Self) -> (out: (Self, Self))
        ensures
            exists|q: Seq<int>, r: Seq<int>|
                {
                    &&& #[trigger] division_holds(q, r, rhs@.poly, self@.poly, self@.n)
                    &&& !divisible(r, rhs@.poly)
                    &&& self@.n > 0 ==> canonical(q, self@.n) && canonical(r, self@.n)
                    &&& out.0@.poly == fitted(q, self@.poly.len() as int)
                    &&& out.1@.poly == fitted(r, self@.poly.len() as int)
                },
            out.0@.irr == self@.irr && out.0@.n == self@.n,
            out.1@.irr == self@.irr && out.1@.n == self@.n,
    {
        let (q, r) = euclid_div(self.poly.as_slice(), rhs.poly.as_slice(), self.n);
        proof {
            lemma_degree(values(q@));
            lemma_degree(values(r@));
            lemma_degree(rhs@.poly);
            lemma_degree(self@.poly);
            if divisible(self@.poly, rhs@.poly) {
                crate::ring::lemma_degree_below(
                    values(q@),
                    degree(self@.poly) - degree(rhs@.poly) + 1,
                );
            }
        }
        let l = self.poly.len();
        let quotient = fit(q.as_slice(), l);
        let remainder = fit(r.as_slice(), l);
        proof {
            assert(division_holds(values(q@), values(r@), rhs@.poly, self@.poly, self@.n));
        }
        (
            Self { poly: quotient, irr: copy_of(self.irr.as_slice()), n: self.n },
            Self { poly: remainder, irr: self.irr, n: self.n },
        )
    }
}

} // verus!
