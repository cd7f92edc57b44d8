//! The polynomial kernel: arithmetic on slices of coefficients.
//!
//! A slice holds the coefficients of a polynomial, the constant term first.
//! Two operands of different lengths are padded with zeros to the longer one.

use crate::integer::{reduce, Integer};
use crate::inverse::TRestrictions;
use crate::ops::{is_zero_coefficient, plain_product, plain_sum, zero};
use crate::ring::{
    coef, conv, degree, is_zero_poly, leading, lemma_conv_step, lemma_degree, lemma_degree_push,
    lemma_term_fits, longer, poly_add_fits, poly_mul_fits, poly_mul_plain_fits, poly_sub_fits,
    row_partial, spec_monomial, spec_pad, spec_poly_add, spec_poly_mul, spec_poly_mul_plain,
    spec_poly_sub, spec_truncate, values,
};
use vstd::prelude::*;

verus! {

/// `v` with zeros appended up to the length `l`; `v` itself where it is at
/// least that long.
pub fn pad<T: TRestrictions>(v: &[T], l: usize) -> (out: Vec<T>)
    ensures
        values(out@) == spec_pad(values(v@), l as int),
        out@.len() == longer(v@.len() as int, l as int),
        out@.subrange(0, v@.len() as int) == v@,
{
    let mut out: Vec<T> = Vec::new();
    let mut i: usize = 0;
    while i < v.len()
        invariant
            i <= v.len(),
            out@ == v@.subrange(0, i as int),
        decreases v.len() - i,
    {
        out.push(v[i]);
        i += 1;
        assert(out@ =~= v@.subrange(0, i as int));
    }
    assert(out@ =~= v@);
    while out.len() < l
        invariant
            out@.len() >= v@.len(),
            out@.len() <= longer(v@.len() as int, l as int),
            out@.subrange(0, v@.len() as int) == v@,
            forall|j: int| v@.len() <= j < out@.len() ==> (#[trigger] out@[j]).value() == 0,
        decreases l - out.len(),
    {
        let ghost before = out@;
        out.push(zero::<T>());
        assert(out@.subrange(0, v@.len() as int) =~= before.subrange(0, v@.len() as int));
    }
    proof {
        assert forall|j: int| 0 <= j < out@.len() implies values(out@)[j] == coef(
            values(v@),
            j,
        ) by {
            if j < v@.len() {
                assert(out@.subrange(0, v@.len() as int)[j] == out@[j]);
            }
        }
        assert(values(out@) =~= spec_pad(values(v@), l as int));
    }
    out
}

/// Both operands, padded with zeros to the length of the longer one.
pub fn normalize<T: TRestrictions>(x: &[T], y: &[T]) -> (out: (Vec<T>, Vec<T>))
    ensures
        values(out.0@) == spec_pad(values(x@), y@.len() as int),
        values(out.1@) == spec_pad(values(y@), x@.len() as int),
        out.0@.len() == longer(x@.len() as int, y@.len() as int),
        out.1@.len() == out.0@.len(),
        out.0@.subrange(0, x@.len() as int) == x@,
        out.1@.subrange(0, y@.len() as int) == y@,
{
    let max_len = if x.len() >= y.len() {
        x.len()
    } else {
        y.len()
    };
    let a = pad(x, max_len);
    let b = pad(y, max_len);
    proof {
        assert(spec_pad(values(x@), max_len as int) =~= spec_pad(values(x@), y@.len() as int));
        assert(spec_pad(values(y@), max_len as int) =~= spec_pad(values(y@), x@.len() as int));
    }
    (a, b)
}

/// The degree of the polynomial and the coefficient there: the greatest
/// index of a coefficient that is not zero. The zero polynomial has the degree
/// 0 and the leading coefficient zero.
pub fn leading_coefficient<T: TRestrictions>(x: &[T]) -> (out: (usize, T))
    ensures
        out.0 == degree(values(x@)),
        out.1.value() == leading(values(x@)),
{
    let mut degree: usize = 0;
    let mut coefficient = zero::<T>();
    let mut i: usize = 0;
    while i < x.len()
        invariant
            i <= x.len(),
            degree == crate::ring::degree(values(x@.subrange(0, i as int))),
            coefficient.value() == leading(values(x@.subrange(0, i as int))),
        decreases x.len() - i,
    {
        let c = x[i];
        proof {
            let before = values(x@.subrange(0, i as int));
            assert(values(x@.subrange(0, i + 1)) =~= before.push(c.value()));
            lemma_degree_push(before, c.value());
            lemma_degree(before);
        }
        if !is_zero_coefficient(c) {
            degree = i;
            coefficient = c;
        }
        i += 1;
    }
    assert(x@.subrange(0, i as int) =~= x@);
    (degree, coefficient)
}

/// Whether every coefficient is zero.
pub fn is_zero<T: TRestrictions>(v: &[T]) -> (b: bool)
    ensures
        b == is_zero_poly(values(v@)),
{
    let mut i: usize = 0;
    while i < v.len()
        invariant
            i <= v.len(),
            forall|j: int| 0 <= j < i ==> (#[trigger] v@[j]).value() == 0,
        decreases v.len() - i,
    {
        if !is_zero_coefficient(v[i]) {
            assert(values(v@)[i as int] != 0);
            return false;
        }
        i += 1;
    }
    assert forall|j: int| 0 <= j < values(v@).len() implies values(v@)[j] == 0 by {
        assert(v@[j].value() == 0);
    }
    true
}

/// `v` without the zeros above its degree: a polynomial of the length
/// `degree + 1`.
pub fn truncate<T: TRestrictions>(v: &[T]) -> (out: Vec<T>)
    ensures
        values(out@) == spec_truncate(values(v@)),
{
    let (d, _c) = leading_coefficient(v);
    proof {
        lemma_degree(values(v@));
    }
    let mut out: Vec<T> = Vec::new();
    let mut i: usize = 0;
    while i <= d
        invariant
            i <= d + 1,
            d < v@.len() || (d == 0 && v@.len() == 0),
            out@.len() == i,
            forall|j: int| 0 <= j < i ==> (#[trigger] out@[j]).value() == coef(values(v@), j),
        decreases d + 1 - i,
    {
        if i < v.len() {
            out.push(v[i]);
        } else {
            out.push(zero::<T>());
        }
        i += 1;
    }
    assert(values(out@) =~= spec_truncate(values(v@)));
    out
}

/// The polynomial `c * x^d`.
pub fn monomial<T: TRestrictions>(c: T, d: usize) -> (p: Vec<T>)
    requires
        d < usize::MAX,
    ensures
        values(p@) == spec_monomial(c.value(), d as int),
{
    let mut p: Vec<T> = Vec::new();
    let mut i: usize = 0;
    while i < d
        invariant
            i <= d,
            p@.len() == i,
            forall|j: int| 0 <= j < i ==> (#[trigger] p@[j]).value() == 0,
        decreases d - i,
    {
        p.push(zero::<T>());
        i += 1;
    }
    p.push(c);
    assert(values(p@) =~= spec_monomial(c.value(), d as int));
    p
}

/// `x - y` with coefficients modulo `n`; with `n` zero, over the integers.
pub fn poly_sub<T: TRestrictions>(x: &[T], y: &[T], n: T) -> (out: Vec<T>)
    requires
        poly_sub_fits(values(x@), values(y@), n.value(), T::lowest(), T::highest()),
    ensures
        values(out@) == spec_poly_sub(values(x@), values(y@), n.value()),
{
    let (a, b) = normalize(x, y);
    let mut out: Vec<T> = Vec::new();
    let mut i: usize = 0;
    while i < a.len()
        invariant
            i <= a.len(),
            a@.len() == b@.len(),
            a@.len() == longer(x@.len() as int, y@.len() as int),
            values(a@) == spec_pad(values(x@), y@.len() as int),
            values(b@) == spec_pad(values(y@), x@.len() as int),
            poly_sub_fits(values(x@), values(y@), n.value(), T::lowest(), T::highest()),
            out@.len() == i,
            forall|j: int|
                0 <= j < i ==> (#[trigger] out@[j]).value() == spec_poly_sub(
                    values(x@),
                    values(y@),
                    n.value(),
                )[j],
        decreases a.len() - i,
    {
        proof {
            assert(values(a@)[i as int] == coef(values(x@), i as int));
            assert(values(b@)[i as int] == coef(values(y@), i as int));
        }
        out.push(a[i].sub_mod(b[i], n));
        i += 1;
    }
    assert(values(out@) =~= spec_poly_sub(values(x@), values(y@), n.value()));
    out
}

/// `x + y` with coefficients modulo `n`; with `n` zero, over the integers.
pub fn poly_add<T: TRestrictions>(x: &[T], y: &[T], n: T) -> (out: Vec<T>)
    requires
        poly_add_fits(values(x@), values(y@), n.value(), T::lowest(), T::highest()),
    ensures
        values(out@) == spec_poly_add(values(x@), values(y@), n.value()),
{
    let (a, b) = normalize(x, y);
    let mut out: Vec<T> = Vec::new();
    let mut i: usize = 0;
    while i < a.len()
        invariant
            i <= a.len(),
            a@.len() == b@.len(),
            a@.len() == longer(x@.len() as int, y@.len() as int),
            values(a@) == spec_pad(values(x@), y@.len() as int),
            values(b@) == spec_pad(values(y@), x@.len() as int),
            poly_add_fits(values(x@), values(y@), n.value(), T::lowest(), T::highest()),
            out@.len() == i,
            forall|j: int|
                0 <= j < i ==> (#[trigger] out@[j]).value() == spec_poly_add(
                    values(x@),
                    values(y@),
                    n.value(),
                )[j],
        decreases a.len() - i,
    {
        proof {
            assert(values(a@)[i as int] == coef(values(x@), i as int));
            assert(values(b@)[i as int] == coef(values(y@), i as int));
        }
        out.push(a[i].add_mod(b[i], n));
        i += 1;
    }
    assert(values(out@) =~= spec_poly_add(values(x@), values(y@), n.value()));
    out
}

/// The zero polynomial of the length `l`.
pub fn zeros<T: TRestrictions>(l: usize) -> (out: Vec<T>)
    ensures
        out@.len() == l,
        forall|j: int| 0 <= j < l ==> (#[trigger] out@[j]).value() == 0,
{
    let mut out: Vec<T> = Vec::new();
    while out.len() < l
        invariant
            out@.len() <= l,
            forall|j: int| 0 <= j < out@.len() ==> (#[trigger] out@[j]).value() == 0,
        decreases l - out.len(),
    {
        out.push(zero::<T>());
    }
    out
}

/// Polynomial multiplication by operand scanning, over the integers: no
/// coefficient is reduced, whatever `n` is.
pub fn poly_mul_plain<T: TRestrictions>(x: &[T], y: &[T], n: T) -> (out: Vec<T>)
    requires
        x@.len() + y@.len() <= usize::MAX,
        poly_mul_plain_fits(values(x@), values(y@), T::lowest(), T::highest()),
    ensures
        values(out@) == spec_poly_mul_plain(values(x@), values(y@)),
{
    let ghost xv = values(x@);
    let ghost yv = values(y@);
    let mut out = zeros::<T>(x.len() + y.len());
    let mut i: usize = 0;
    while i < x.len()
        invariant
            i <= x@.len(),
            xv == values(x@),
            yv == values(y@),
            x@.len() + y@.len() <= usize::MAX,
            out@.len() == x@.len() + y@.len(),
            poly_mul_plain_fits(xv, yv, T::lowest(), T::highest()),
            forall|k: int|
                0 <= k < out@.len() ==> (#[trigger] out@[k]).value() == conv(xv, yv, k, i as int),
        decreases x.len() - i,
    {
        let mut j: usize = 0;
        proof {
            assert forall|k: int| 0 <= k < out@.len() implies (#[trigger] out@[k]).value()
                == row_partial(xv, yv, k, i as int, 0) by {
                lemma_conv_step(xv, yv, k, i as int);
            }
        }
        while j < y.len()
            invariant
                i < x@.len(),
                j <= y@.len(),
                xv == values(x@),
                yv == values(y@),
                x@.len() + y@.len() <= usize::MAX,
                out@.len() == x@.len() + y@.len(),
                poly_mul_plain_fits(xv, yv, T::lowest(), T::highest()),
                forall|k: int|
                    0 <= k < out@.len() ==> (#[trigger] out@[k]).value() == row_partial(
                        xv,
                        yv,
                        k,
                        i as int,
                        j as int,
                    ),
            decreases y.len() - j,
        {
            proof {
                assert(crate::integer::in_range(xv[i as int] * yv[j as int], T::lowest(), T::highest()));
                lemma_conv_step(xv, yv, i + j, i as int);
                assert(crate::integer::in_range(
                    conv(xv, yv, i + j, i + 1),
                    T::lowest(),
                    T::highest(),
                ));
            }
            let p = plain_product(x[i], y[j]);
            let s = plain_sum(out[i + j], p);
            out.set(i + j, s);
            j += 1;
        }
        proof {
            assert forall|k: int| 0 <= k < out@.len() implies (#[trigger] out@[k]).value() == conv(
                xv,
                yv,
                k,
                i + 1,
            ) by {
                lemma_conv_step(xv, yv, k, i as int);
            }
        }
        i += 1;
    }
    assert(values(out@) =~= spec_poly_mul_plain(xv, yv));
    out
}

/// Polynomial multiplication by operand scanning, with coefficients modulo
/// `n`: every pair of coefficients is multiplied and added up, zero or not.
pub fn poly_mul_op_scanning<T: TRestrictions>(x: &[T], y: &[T], n: T) -> (out: Vec<T>)
    requires
        x@.len() + y@.len() <= usize::MAX,
        poly_mul_fits(values(x@), values(y@), n.value(), T::lowest(), T::highest()),
    ensures
        values(out@) == spec_poly_mul(values(x@), values(y@), n.value()),
{
    let ghost xv = values(x@);
    let ghost yv = values(y@);
    let ghost nv = n.value();
    let mut out = zeros::<T>(x.len() + y.len());
    proof {
        if nv > 0 {
            vstd::arithmetic::div_mod::lemma_small_mod(0, nv as nat);
        }
    }
    let mut i: usize = 0;
    while i < x.len()
        invariant
            i <= x@.len(),
            xv == values(x@),
            yv == values(y@),
            nv == n.value(),
            x@.len() + y@.len() <= usize::MAX,
            out@.len() == x@.len() + y@.len(),
            poly_mul_fits(xv, yv, nv, T::lowest(), T::highest()),
            forall|k: int|
                0 <= k < out@.len() ==> (#[trigger] out@[k]).value() == reduce(
                    conv(xv, yv, k, i as int),
                    nv,
                ),
        decreases x.len() - i,
    {
        let mut j: usize = 0;
        proof {
            assert forall|k: int| 0 <= k < out@.len() implies (#[trigger] out@[k]).value()
                == reduce(row_partial(xv, yv, k, i as int, 0), nv) by {
                lemma_conv_step(xv, yv, k, i as int);
            }
        }
        while j < y.len()
            invariant
                i < x@.len(),
                j <= y@.len(),
                xv == values(x@),
                yv == values(y@),
                nv == n.value(),
                x@.len() + y@.len() <= usize::MAX,
                out@.len() == x@.len() + y@.len(),
                poly_mul_fits(xv, yv, nv, T::lowest(), T::highest()),
                forall|k: int|
                    0 <= k < out@.len() ==> (#[trigger] out@[k]).value() == reduce(
                        row_partial(xv, yv, k, i as int, j as int),
                        nv,
                    ),
            decreases y.len() - j,
        {
            proof {
                lemma_term_fits::<T>(xv, yv, nv, i as int, j as int, x[i as int], y[j as int]);
            }
            let p = x[i].mul_mod(y[j], n);
            let s = out[i + j].add_mod(p, n);
            out.set(i + j, s);
            j += 1;
        }
        proof {
            assert forall|k: int| 0 <= k < out@.len() implies (#[trigger] out@[k]).value()
                == reduce(conv(xv, yv, k, i + 1), nv) by {
                lemma_conv_step(xv, yv, k, i as int);
            }
        }
        i += 1;
    }
    assert(values(out@) =~= spec_poly_mul(xv, yv, nv));
    out
}

/// Polynomial multiplication with coefficients modulo `n`, over the
/// coefficients that are not zero. It computes what operand scanning computes.
pub fn poly_mul<T: TRestrictions>(x: &[T], y: &[T], n: T) -> (out: Vec<T>)
    requires
        x@.len() + y@.len() <= usize::MAX,
        poly_mul_fits(values(x@), values(y@), n.value(), T::lowest(), T::highest()),
    ensures
        values(out@) == spec_poly_mul(values(x@), values(y@), n.value()),
{
    let ghost xv = values(x@);
    let ghost yv = values(y@);
    let ghost nv = n.value();
    let mut out = zeros::<T>(x.len() + y.len());
    proof {
        if nv > 0 {
            vstd::arithmetic::div_mod::lemma_small_mod(0, nv as nat);
        }
    }
    let mut i: usize = 0;
    while i < x.len()
        invariant
            i <= x@.len(),
            xv == values(x@),
            yv == values(y@),
            nv == n.value(),
            x@.len() + y@.len() <= usize::MAX,
            out@.len() == x@.len() + y@.len(),
            poly_mul_fits(xv, yv, nv, T::lowest(), T::highest()),
            forall|k: int|
                0 <= k < out@.len() ==> (#[trigger] out@[k]).value() == reduce(
                    conv(xv, yv, k, i as int),
                    nv,
                ),
        decreases x.len() - i,
    {
        if !is_zero_coefficient(x[i]) {
            let mut j: usize = 0;
            proof {
                assert forall|k: int| 0 <= k < out@.len() implies (#[trigger] out@[k]).value()
                    == reduce(row_partial(xv, yv, k, i as int, 0), nv) by {
                    lemma_conv_step(xv, yv, k, i as int);
                }
            }
            while j < y.len()
                invariant
                    i < x@.len(),
                    j <= y@.len(),
                    xv == values(x@),
                    yv == values(y@),
                    nv == n.value(),
                    x@.len() + y@.len() <= usize::MAX,
                    out@.len() == x@.len() + y@.len(),
                    poly_mul_fits(xv, yv, nv, T::lowest(), T::highest()),
                    forall|k: int|
                        0 <= k < out@.len() ==> (#[trigger] out@[k]).value() == reduce(
                            row_partial(xv, yv, k, i as int, j as int),
                            nv,
                        ),
                decreases y.len() - j,
            {
                if !is_zero_coefficient(y[j]) {
                    proof {
                        lemma_term_fits::<T>(
                            xv,
                            yv,
                            nv,
                            i as int,
                            j as int,
                            x[i as int],
                            y[j as int],
                        );
                    }
                    let p = x[i].mul_mod(y[j], n);
                    let s = out[i + j].add_mod(p, n);
                    out.set(i + j, s);
                } else {
                    proof {
                        assert(xv[i as int] * yv[j as int] == 0) by (nonlinear_arith)
                            requires
                                yv[j as int] == 0,
                        ;
                    }
                }
                j += 1;
            }
            proof {
                assert forall|k: int| 0 <= k < out@.len() implies (#[trigger] out@[k]).value()
                    == reduce(conv(xv, yv, k, i + 1), nv) by {
                    lemma_conv_step(xv, yv, k, i as int);
                }
            }
        } else {
            proof {
                assert forall|k: int| 0 <= k < out@.len() implies (#[trigger] out@[k]).value()
                    == reduce(conv(xv, yv, k, i + 1), nv) by {
                    lemma_conv_step(xv, yv, k, i as int);
                    assert(coef(xv, i as int) * coef(yv, k - i) == 0) by (nonlinear_arith)
                        requires
                            coef(xv, i as int) == 0,
                    ;
                }
            }
        }
        i += 1;
    }
    assert(values(out@) =~= spec_poly_mul(xv, yv, nv));
    out
}

} // verus!
