//! Laws of the product of polynomials: it is linear in each factor and
//! associative, and degrees add up at most.

use crate::integer::{add_mod_fits, mul_mod_fits, reduce, sub_mod_fits};
use crate::inverse::congruent;
use crate::ring::{
    canonical, coef, conv, degree, is_zero_poly, leading, lemma_congruent, lemma_congruent_chain,
    lemma_congruent_scale, lemma_congruent_self, lemma_conv_extend, lemma_conv_zero,
    lemma_degree, lemma_degree_below, longer, poly_add_fits, poly_mul_fits, poly_sub_fits,
    product_coef, spec_poly_add, spec_poly_mul, spec_poly_mul_plain, spec_poly_sub,
    spec_truncate,
};
use vstd::arithmetic::div_mod::{lemma_mod_bound, lemma_small_mod};
use vstd::prelude::*;

verus! {

/// Two polynomials with the same coefficients modulo `n`.
pub open spec fn same_poly(a: Seq<int>, b: Seq<int>, n: int) -> bool {
    forall|k: int| congruent(#[trigger] coef(a, k), coef(b, k), n)
}

/// Above the sum of the degrees every coefficient of the product is zero,
/// and so is every coefficient below the constant one.
pub proof fn lemma_product_outside(a: Seq<int>, x: Seq<int>, j: int, m: int)
    requires
        j < 0 || j > degree(a) + degree(x),
    ensures
        conv(a, x, j, m) == 0,
    decreases m,
{
    if m > 0 {
        lemma_product_outside(a, x, j, m - 1);
        lemma_degree(a);
        lemma_degree(x);
        let i = m - 1;
        if j < 0 || i > degree(a) {
            assert(coef(a, i) == 0 || coef(x, j - i) == 0);
        } else {
            assert(coef(x, j - i) == 0);
        }
        assert(coef(a, i) * coef(x, j - i) == 0) by (nonlinear_arith)
            requires
                coef(a, i) == 0 || coef(x, j - i) == 0,
        ;
    }
}

/// The coefficients of the product over the integers, at every index.
pub proof fn lemma_product_coef(a: Seq<int>, x: Seq<int>, j: int)
    ensures
        coef(spec_poly_mul_plain(a, x), j) == product_coef(a, x, j),
{
    lemma_degree(a);
    lemma_degree(x);
    if !(0 <= j < a.len() + x.len()) && a.len() > 0 {
        lemma_product_outside(a, x, j, a.len() as int);
    }
}

/// The coefficients of the product modulo `n`, at every index.
pub proof fn lemma_product_coef_mod(a: Seq<int>, x: Seq<int>, n: int, j: int)
    requires
        n >= 0,
    ensures
        coef(spec_poly_mul(a, x, n), j) == reduce(product_coef(a, x, j), n),
        congruent(coef(spec_poly_mul(a, x, n), j), product_coef(a, x, j), n),
{
    lemma_degree(a);
    lemma_degree(x);
    if !(0 <= j < a.len() + x.len()) {
        if a.len() > 0 {
            lemma_product_outside(a, x, j, a.len() as int);
        }
        if n > 0 {
            lemma_small_mod(0, n as nat);
        }
    }
    lemma_congruent_self(product_coef(a, x, j), n);
}

/// The product is additive in its second factor, modulo `n`.
pub proof fn lemma_conv_linear_right(
    sum: Seq<int>,
    a: Seq<int>,
    b: Seq<int>,
    q: Seq<int>,
    k: int,
    m: int,
    n: int,
)
    requires
        n >= 0,
        forall|j: int| congruent(#[trigger] coef(sum, j), coef(a, j) + coef(b, j), n),
    ensures
        congruent(conv(q, sum, k, m), conv(q, a, k, m) + conv(q, b, k, m), n),
    decreases m,
{
    if m > 0 {
        lemma_conv_linear_right(sum, a, b, q, k, m - 1, n);
        let c = coef(q, m - 1);
        let j = k - (m - 1);
        assert(congruent(coef(sum, j), coef(a, j) + coef(b, j), n));
        lemma_congruent_scale(coef(sum, j), coef(a, j) + coef(b, j), c, n);
        assert(c * (coef(a, j) + coef(b, j)) == c * coef(a, j) + c * coef(b, j)) by (nonlinear_arith);
        lemma_congruent(
            conv(q, sum, k, m - 1),
            conv(q, a, k, m - 1) + conv(q, b, k, m - 1),
            c * coef(sum, j),
            c * coef(a, j) + c * coef(b, j),
            n,
        );
    } else if n > 0 {
        lemma_small_mod(0, n as nat);
    }
}

/// The product is compatible with differences in its first factor, modulo
/// `n`.
pub proof fn lemma_conv_difference(
    diff: Seq<int>,
    a: Seq<int>,
    b: Seq<int>,
    y: Seq<int>,
    k: int,
    m: int,
    n: int,
)
    requires
        n >= 0,
        forall|i: int| 0 <= i < m ==> congruent(#[trigger] coef(diff, i), coef(a, i) - coef(b, i), n),
    ensures
        congruent(conv(diff, y, k, m), conv(a, y, k, m) - conv(b, y, k, m), n),
    decreases m,
{
    if m > 0 {
        lemma_conv_difference(diff, a, b, y, k, m - 1, n);
        let c = coef(y, k - (m - 1));
        assert(congruent(coef(diff, m - 1), coef(a, m - 1) - coef(b, m - 1), n));
        lemma_congruent_scale(coef(diff, m - 1), coef(a, m - 1) - coef(b, m - 1), c, n);
        assert((coef(a, m - 1) - coef(b, m - 1)) * c == coef(a, m - 1) * c - coef(b, m - 1) * c)
            by (nonlinear_arith);
        lemma_congruent(
            conv(diff, y, k, m - 1),
            conv(a, y, k, m - 1) - conv(b, y, k, m - 1),
            coef(diff, m - 1) * c,
            coef(a, m - 1) * c - coef(b, m - 1) * c,
            n,
        );
    } else if n > 0 {
        lemma_small_mod(0, n as nat);
    }
}

/// The coefficients of the difference modulo `n`, at every index.
pub proof fn lemma_difference_coef(a: Seq<int>, b: Seq<int>, n: int, k: int)
    requires
        n >= 0,
    ensures
        congruent(coef(spec_poly_sub(a, b, n), k), coef(a, k) - coef(b, k), n),
{
    lemma_congruent_self(coef(a, k) - coef(b, k), n);
    lemma_congruent_self(0, n);
}

/// With a modulus whose square is a value of the coefficient type, reduced
/// polynomials can be added, subtracted and multiplied, and the results are
/// reduced.
pub proof fn lemma_canonical_fits(a: Seq<int>, b: Seq<int>, n: int, lo: int, hi: int)
    requires
        n > 0,
        canonical(a, n),
        canonical(b, n),
        n * n <= hi,
        lo <= 0,
        lo < 0 ==> lo <= -n,
    ensures
        poly_add_fits(a, b, n, lo, hi),
        poly_sub_fits(a, b, n, lo, hi),
        poly_mul_fits(a, b, n, lo, hi),
        canonical(spec_poly_add(a, b, n), n),
        canonical(spec_poly_sub(a, b, n), n),
        canonical(spec_poly_mul(a, b, n), n),
        canonical(spec_truncate(a), n),
{
    assert(2 * (n - 1) <= n * n) by (nonlinear_arith)
        requires
            n >= 1,
    ;
    assert forall|i: int| 0 <= i < longer(a.len() as int, b.len() as int) implies add_mod_fits(
        #[trigger] coef(a, i),
        coef(b, i),
        n,
        lo,
        hi,
    ) && sub_mod_fits(coef(a, i), coef(b, i), n, lo, hi) by {
        assert(0 <= coef(a, i) < n);
        assert(0 <= coef(b, i) < n);
    }
    assert forall|i: int, j: int| 0 <= i < a.len() && 0 <= j < b.len() implies mul_mod_fits(
        #[trigger] a[i],
        #[trigger] b[j],
        n,
        lo,
        hi,
    ) by {
        assert(0 <= a[i] * b[j] <= n * n) by (nonlinear_arith)
            requires
                0 <= a[i] < n,
                0 <= b[j] < n,
        ;
    }
    let sum = spec_poly_add(a, b, n);
    assert forall|i: int| 0 <= i < sum.len() implies 0 <= #[trigger] sum[i] < n by {
        lemma_mod_bound(coef(a, i) + coef(b, i), n);
    }
    let diff = spec_poly_sub(a, b, n);
    assert forall|i: int| 0 <= i < diff.len() implies 0 <= #[trigger] diff[i] < n by {
        lemma_mod_bound(coef(a, i) - coef(b, i), n);
    }
    let prod = spec_poly_mul(a, b, n);
    assert forall|i: int| 0 <= i < prod.len() implies 0 <= #[trigger] prod[i] < n by {
        lemma_mod_bound(product_coef(a, b, i), n);
    }
    let cut = spec_truncate(a);
    lemma_degree(a);
    assert forall|i: int| 0 <= i < cut.len() implies 0 <= #[trigger] cut[i] < n by {
        if i < a.len() {
            assert(0 <= a[i] < n);
        }
    }
}

/// Polynomials that are the same modulo `n` have the same products.
pub proof fn lemma_conv_same(a: Seq<int>, b: Seq<int>, y: Seq<int>, k: int, m: int, n: int)
    requires
        n >= 0,
        forall|i: int| 0 <= i < m ==> congruent(#[trigger] coef(a, i), coef(b, i), n),
    ensures
        congruent(conv(a, y, k, m), conv(b, y, k, m), n),
{
    let none = Seq::<int>::empty();
    lemma_conv_difference(a, b, none, y, k, m, n);
    lemma_conv_zero(none, y, k, m);
}

/// The product with a constant scales each coefficient.
pub proof fn lemma_conv_constant(t: Seq<int>, c: int, k: int, m: int)
    requires
        0 <= m,
    ensures
        conv(t, seq![c], k, m) == if 0 <= k < m {
            coef(t, k) * c
        } else {
            0
        },
    decreases m,
{
    if m > 0 {
        lemma_conv_constant(t, c, k, m - 1);
        let i = m - 1;
        if k != i {
            assert(coef(seq![c], k - i) == 0);
            assert(coef(t, i) * coef(seq![c], k - i) == 0) by (nonlinear_arith)
                requires
                    coef(seq![c], k - i) == 0,
            ;
        } else {
            assert(coef(seq![c], k - i) == c);
        }
    }
}

/// The product with the zero polynomial as the second factor is zero.
pub proof fn lemma_conv_zero_right(q: Seq<int>, z: Seq<int>, k: int, m: int)
    requires
        forall|j: int| coef(z, j) == 0,
    ensures
        conv(q, z, k, m) == 0,
    decreases m,
{
    if m > 0 {
        lemma_conv_zero_right(q, z, k, m - 1);
        assert(coef(q, m - 1) * coef(z, k - (m - 1)) == 0) by (nonlinear_arith)
            requires
                coef(z, k - (m - 1)) == 0,
        ;
    }
}

/// The sum over the first `m` coefficients depends on those coefficients
/// only.
pub proof fn lemma_conv_prefix(a: Seq<int>, b: Seq<int>, y: Seq<int>, k: int, m: int)
    requires
        forall|i: int| 0 <= i < m ==> coef(a, i) == coef(b, i),
    ensures
        conv(a, y, k, m) == conv(b, y, k, m),
    decreases m,
{
    if m > 0 {
        lemma_conv_prefix(a, b, y, k, m - 1);
        assert(coef(a, m - 1) == coef(b, m - 1));
    }
}

/// The product with a monomial as the second factor shifts and scales the
/// first factor.
pub proof fn lemma_conv_monomial_right(b: Seq<int>, c: int, d: int, k: int, m: int)
    requires
        0 <= d,
        0 <= m,
    ensures
        conv(b, crate::ring::spec_monomial(c, d), k, m) == if 0 <= k - d < m {
            coef(b, k - d) * c
        } else {
            0
        },
    decreases m,
{
    if m > 0 {
        lemma_conv_monomial_right(b, c, d, k, m - 1);
        let i = m - 1;
        let mono = crate::ring::spec_monomial(c, d);
        if k - i == d {
            assert(coef(mono, k - i) == c);
        } else {
            assert(coef(mono, k - i) == 0);
            assert(coef(b, i) * coef(mono, k - i) == 0) by (nonlinear_arith)
                requires
                    coef(mono, k - i) == 0,
            ;
        }
    }
}

/// The product is commutative: `a * b` and `b * a` have the same
/// coefficients.
pub proof fn lemma_conv_commutative(a: Seq<int>, b: Seq<int>, k: int)
    ensures
        product_coef(a, b, k) == product_coef(b, a, k),
    decreases a.len(),
{
    if a.len() == 0 {
        lemma_conv_zero_right(b, a, k, b.len() as int);
    } else {
        let m = a.len() - 1;
        let c = a[m];
        let before = a.drop_last();
        let mono = crate::ring::spec_monomial(c, m);
        lemma_conv_commutative(before, b, k);
        // a * b is before * b and the last coefficient times b, shifted
        lemma_conv_prefix(a, before, b, k, m);
        // b * a is b * before and b times the last coefficient, shifted
        assert forall|j: int| congruent(#[trigger] coef(a, j), coef(before, j) + coef(mono, j), 0) by {}
        lemma_conv_linear_right(a, before, mono, b, k, b.len() as int, 0);
        lemma_conv_monomial_right(b, c, m, k, b.len() as int);
        if !(0 <= k - m < b.len()) {
            assert(coef(b, k - m) == 0);
            assert(c * coef(b, k - m) == 0) by (nonlinear_arith)
                requires
                    coef(b, k - m) == 0,
            ;
        }
        assert(c * coef(b, k - m) == coef(b, k - m) * c) by (nonlinear_arith);
    }
}

/// Where the coefficients of `w` above `e` are zero modulo `n` and those of
/// `g` above `d` are zero, the coefficient of `x^(e + d)` in the product is
/// the product of the coefficients at `e` and `d`, modulo `n`.
pub proof fn lemma_top_coefficient(w: Seq<int>, g: Seq<int>, n: int, e: int, d: int, m: int)
    requires
        n >= 0,
        0 <= e,
        0 <= d,
        0 <= m,
        forall|i: int| e < i ==> congruent(#[trigger] coef(w, i), 0, n),
        forall|j: int| d < j ==> coef(g, j) == 0,
    ensures
        congruent(
            conv(w, g, e + d, m),
            if m > e {
                coef(w, e) * coef(g, d)
            } else {
                0
            },
            n,
        ),
    decreases m,
{
    lemma_congruent_self(0, n);
    if m > 0 {
        lemma_top_coefficient(w, g, n, e, d, m - 1);
        let i = m - 1;
        let term = coef(w, i) * coef(g, e + d - i);
        if i < e {
            assert(coef(g, e + d - i) == 0);
            assert(term == 0) by (nonlinear_arith)
                requires
                    term == coef(w, i) * coef(g, e + d - i),
                    coef(g, e + d - i) == 0,
            ;
        } else if i == e {
            lemma_congruent_self(term, n);
            lemma_congruent(conv(w, g, e + d, i), 0, term, term, n);
        } else {
            assert(congruent(coef(w, i), 0, n));
            lemma_congruent_scale(coef(w, i), 0, coef(g, e + d - i), n);
            assert(0 * coef(g, e + d - i) == 0) by (nonlinear_arith);
            lemma_congruent(conv(w, g, e + d, i), coef(w, e) * coef(g, d), term, 0, n);
        }
    }
}

/// A multiple of a unit is zero modulo `n` only where the other factor is.
pub proof fn lemma_unit_cancels(a: int, c: int, ci: int, n: int)
    requires
        n >= 0,
        congruent(c * ci, 1, n),
        congruent(a * c, 0, n),
    ensures
        congruent(a, 0, n),
{
    lemma_congruent_self(0, n);
    lemma_congruent_scale(c * ci, 1, a, n);
    lemma_congruent_scale(a * c, 0, ci, n);
    assert(a * (c * ci) == (a * c) * ci) by (nonlinear_arith);
    assert(a * 1 == a) by (nonlinear_arith);
    assert(0 * ci == 0) by (nonlinear_arith);
    lemma_congruent(a * (c * ci), a, 0, 0, n);
    lemma_congruent_chain(a, a * (c * ci), 0, n);
}

/// The coefficients of `w`, reduced modulo `n`; over the integers, `w`
/// itself.
pub open spec fn reduce_poly(w: Seq<int>, n: int) -> Seq<int> {
    Seq::new(w.len(), |i: int| reduce(w[i], n))
}

/// A polynomial that is not zero modulo `n` has a multiple of a polynomial
/// with a unit as its leading coefficient that is not zero either: the
/// coefficient of the product at the sum of the degrees is not zero.
pub proof fn lemma_product_not_zero(w: Seq<int>, g: Seq<int>, n: int, ci: int)
    requires
        n >= 0,
        !is_zero_poly(reduce_poly(w, n)),
        congruent(leading(g) * ci, 1, n),
    ensures
        !congruent(product_coef(w, g, degree(reduce_poly(w, n)) + degree(g)), 0, n),
        0 <= degree(reduce_poly(w, n)),
{
    let wr = reduce_poly(w, n);
    let e = degree(wr);
    let d = degree(g);
    lemma_degree(wr);
    lemma_degree(g);
    lemma_congruent_self(0, n);
    assert forall|i: int| e < i implies congruent(#[trigger] coef(w, i), 0, n) by {
        assert(coef(wr, i) == 0);
    }
    lemma_top_coefficient(w, g, n, e, d, longer(w.len() as int, e + 1));
    lemma_conv_extend(w, g, e + d, longer(w.len() as int, e + 1));
    assert(e < w.len());
    assert(wr[e] == reduce(w[e], n));
    if congruent(product_coef(w, g, e + d), 0, n) {
        lemma_congruent(
            product_coef(w, g, e + d),
            coef(w, e) * coef(g, d),
            0,
            0,
            n,
        );
        lemma_congruent_chain(coef(w, e) * coef(g, d), product_coef(w, g, e + d), 0, n);
        lemma_unit_cancels(coef(w, e), leading(g), ci, n);
    }
}

/// A polynomial that is `a`, scaled by `c` and shifted by `d`, has the
/// product of `a`, scaled and shifted alike.
pub proof fn lemma_conv_shift(
    s: Seq<int>,
    a: Seq<int>,
    x: Seq<int>,
    c: int,
    d: int,
    k: int,
    m: int,
)
    requires
        0 <= d <= m,
        forall|j: int| 0 <= j < m ==> #[trigger] coef(s, j) == c * coef(a, j - d),
    ensures
        conv(s, x, k, m) == c * conv(a, x, k - d, m - d),
    decreases m,
{
    if m > d {
        lemma_conv_shift(s, a, x, c, d, k, m - 1);
        let i = m - 1;
        assert(coef(s, i) == c * coef(a, i - d));
        assert(conv(a, x, k - d, m - d) == conv(a, x, k - d, m - d - 1) + coef(a, i - d) * coef(
            x,
            (k - d) - (i - d),
        ));
        assert(c * conv(a, x, k - d, m - d - 1) + (c * coef(a, i - d)) * coef(x, k - i) == c * (
        conv(a, x, k - d, m - d - 1) + coef(a, i - d) * coef(x, k - i))) by (nonlinear_arith);
    } else {
        assert(c * 0 == 0) by (nonlinear_arith);
        lemma_shifted_prefix_zero(s, a, x, c, d, k, m);
    }
}

/// Below the shift such a polynomial has no coefficients, so nothing is added
/// up there.
pub proof fn lemma_shifted_prefix_zero(
    s: Seq<int>,
    a: Seq<int>,
    x: Seq<int>,
    c: int,
    d: int,
    k: int,
    m: int,
)
    requires
        0 <= m <= d,
        forall|j: int| 0 <= j < m ==> #[trigger] coef(s, j) == c * coef(a, j - d),
    ensures
        conv(s, x, k, m) == 0,
    decreases m,
{
    if m > 0 {
        lemma_shifted_prefix_zero(s, a, x, c, d, k, m - 1);
        assert(coef(s, m - 1) == c * coef(a, m - 1 - d));
        assert(c * 0 == 0) by (nonlinear_arith);
        assert(coef(s, m - 1) * coef(x, k - (m - 1)) == 0) by (nonlinear_arith)
            requires
                coef(s, m - 1) == 0,
        ;
    }
}

/// The product of the first `m` coefficients of `q` with `a`.
pub open spec fn partial_product(q: Seq<int>, a: Seq<int>, m: int) -> Seq<int> {
    Seq::new(q.len() + a.len(), |j: int| conv(q, a, j, m))
}

/// The product is associative: step by step through the coefficients of `q`.
pub proof fn lemma_conv_assoc_prefix(q: Seq<int>, a: Seq<int>, x: Seq<int>, k: int, m: int)
    requires
        0 <= m <= q.len(),
    ensures
        conv(partial_product(q, a, m), x, k, (q.len() + a.len()) as int) == conv(
            q,
            spec_poly_mul_plain(a, x),
            k,
            m,
        ),
    decreases m,
{
    let total = (q.len() + a.len()) as int;
    if m > 0 {
        lemma_conv_assoc_prefix(q, a, x, k, m - 1);
        let before = partial_product(q, a, m - 1);
        let now = partial_product(q, a, m);
        let c = coef(q, m - 1);
        let d = m - 1;
        let shifted = Seq::new(total as nat, |j: int| c * coef(a, j - d));
        assert forall|i: int| 0 <= i < total implies congruent(
            #[trigger] coef(now, i),
            coef(before, i) + coef(shifted, i),
            0,
        ) by {}
        crate::ring::lemma_conv_linear(now, before, shifted, x, k, total, 0);
        lemma_conv_shift(shifted, a, x, c, d, k, total);
        lemma_conv_extend(a, x, k - d, total - d);
        lemma_product_coef(a, x, k - d);
    } else {
        crate::ring::lemma_conv_zero(partial_product(q, a, 0), x, k, total);
    }
}

/// The product is associative: `(q * a) * x` and `q * (a * x)` have the same
/// coefficients.
pub proof fn lemma_conv_assoc(q: Seq<int>, a: Seq<int>, x: Seq<int>, k: int)
    ensures
        product_coef(spec_poly_mul_plain(q, a), x, k) == product_coef(
            q,
            spec_poly_mul_plain(a, x),
            k,
        ),
{
    lemma_conv_assoc_prefix(q, a, x, k, q.len() as int);
    assert(partial_product(q, a, q.len() as int) =~= spec_poly_mul_plain(q, a));
}

/// Polynomials with the same coefficients have the same degree.
pub proof fn lemma_same_coefficients(a: Seq<int>, b: Seq<int>)
    requires
        forall|k: int| coef(a, k) == coef(b, k),
    ensures
        degree(a) == degree(b),
        leading(a) == leading(b),
        is_zero_poly(a) == is_zero_poly(b),
{
    lemma_degree(a);
    lemma_degree(b);
    assert(coef(a, degree(a)) == coef(b, degree(a)));
    assert(coef(a, degree(b)) == coef(b, degree(b)));
    if degree(a) < degree(b) {
        assert(coef(a, degree(b)) == 0);
    }
    if degree(b) < degree(a) {
        assert(coef(b, degree(a)) == 0);
    }
}

/// Reduced polynomials that are the same modulo `n` have the same
/// coefficients.
pub proof fn lemma_canonical_same(a: Seq<int>, b: Seq<int>, n: int)
    requires
        n > 0,
        canonical(a, n),
        canonical(b, n),
        same_poly(a, b, n),
    ensures
        forall|k: int| coef(a, k) == coef(b, k),
        degree(a) == degree(b),
        is_zero_poly(a) == is_zero_poly(b),
{
    assert forall|k: int| coef(a, k) == coef(b, k) by {
        assert(congruent(coef(a, k), coef(b, k), n));
        let u = coef(a, k);
        let v = coef(b, k);
        assert(0 <= u < n && 0 <= v < n) by {
            if 0 <= k < a.len() {
                assert(0 <= a[k] < n);
            }
            if 0 <= k < b.len() {
                assert(0 <= b[k] < n);
            }
        }
        if u >= v {
            lemma_small_mod((u - v) as nat, n as nat);
        } else {
            lemma_congruent_self(v, n);
            lemma_congruent(u, v, v, v, n);
            lemma_small_mod((v - u) as nat, n as nat);
        }
    }
    lemma_same_coefficients(a, b);
}

/// Truncation keeps the coefficients, and with them the degree.
pub proof fn lemma_truncate(p: Seq<int>)
    ensures
        forall|k: int| coef(spec_truncate(p), k) == coef(p, k),
        degree(spec_truncate(p)) == degree(p),
        leading(spec_truncate(p)) == leading(p),
        is_zero_poly(spec_truncate(p)) == is_zero_poly(p),
        spec_truncate(p).len() == degree(p) + 1,
{
    lemma_degree(p);
    assert forall|k: int| coef(spec_truncate(p), k) == coef(p, k) by {
        if k > degree(p) {
            assert(coef(p, k) == 0);
        }
    }
    lemma_same_coefficients(spec_truncate(p), p);
}

/// The degree of a product is at most the sum of the degrees.
pub proof fn lemma_degree_product(a: Seq<int>, b: Seq<int>, n: int)
    requires
        n >= 0,
    ensures
        degree(spec_poly_mul(a, b, n)) <= degree(a) + degree(b),
{
    lemma_degree(a);
    lemma_degree(b);
    let p = spec_poly_mul(a, b, n);
    let m = degree(a) + degree(b) + 1;
    assert forall|k: int| m <= k implies coef(p, k) == 0 by {
        lemma_product_coef_mod(a, b, n, k);
        lemma_product_outside(a, b, k, a.len() as int);
        if n > 0 {
            lemma_small_mod(0, n as nat);
        }
    }
    lemma_degree_below(p, m);
}

/// The degree of a difference is at most the greater of the degrees.
pub proof fn lemma_degree_difference(a: Seq<int>, b: Seq<int>, n: int)
    requires
        n >= 0,
    ensures
        degree(spec_poly_sub(a, b, n)) <= longer(degree(a), degree(b)),
{
    lemma_degree(a);
    lemma_degree(b);
    let p = spec_poly_sub(a, b, n);
    let m = longer(degree(a), degree(b)) + 1;
    assert forall|k: int| m <= k implies coef(p, k) == 0 by {
        assert(coef(a, k) == 0);
        assert(coef(b, k) == 0);
        if n > 0 {
            lemma_small_mod(0, n as nat);
        }
    }
    lemma_degree_below(p, m);
}

} // verus!
