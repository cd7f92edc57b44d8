//! Inversion of a polynomial modulo another one, by the extended Euclidean
//! algorithm.

use crate::algebra::{
    lemma_canonical_fits, lemma_canonical_same, lemma_conv_assoc, lemma_conv_constant,
    lemma_conv_difference, lemma_conv_linear_right, lemma_conv_same, lemma_conv_shift,
    lemma_conv_zero_right, lemma_degree_difference, lemma_degree_product, lemma_difference_coef,
    lemma_product_coef, lemma_product_coef_mod, lemma_product_not_zero, lemma_truncate,
    reduce_poly,
};
use crate::division::{divisible, euclid_div, leading_unit, remaining};
use crate::integer::Integer;
use crate::inverse::{congruent, inv_fits, lemma_inv_bound, spec_inv, TRestrictions};
use crate::kernel::{is_zero, leading_coefficient, poly_mul, poly_sub, truncate, zeros};
use crate::ops::{is_zero_coefficient, one, zero};
use crate::ring::{
    canonical, coef, degree, division_holds, is_zero_poly, leading, lemma_congruent,
    lemma_congruent_chain, lemma_congruent_scale, lemma_congruent_self, lemma_conv_extend,
    lemma_conv_linear, lemma_conv_monomial, lemma_conv_zero, lemma_degree, lemma_degree_below,
    longer, product_coef, spec_monomial, spec_poly_mul, spec_poly_mul_plain, spec_poly_sub,
    spec_truncate, values,
};
use vstd::arithmetic::div_mod::lemma_small_mod;
use vstd::prelude::*;
use vstd::string::StringExecFns;

verus! {

/// `t * x + u * y` is `r`, coefficient by coefficient modulo `n`.
pub open spec fn bezout_holds(
    t: Seq<int>,
    u: Seq<int>,
    r: Seq<int>,
    x: Seq<int>,
    y: Seq<int>,
    n: int,
) -> bool {
    forall|k: int|
        congruent(#[trigger] product_coef(t, x, k) + product_coef(u, y, k), coef(r, k), n)
}

/// `v` is an inverse of `x` modulo `y` and `n`: `v * x` is 1 up to a multiple
/// of `y`, coefficient by coefficient modulo `n`.
pub open spec fn inverts(v: Seq<int>, x: Seq<int>, y: Seq<int>, n: int) -> bool {
    exists|u: Seq<int>| bezout_holds(v, u, seq![1int], x, y, n)
}

/// The difference `u - q * w` over the integers.
pub open spec fn next_cofactor(u: Seq<int>, q: Seq<int>, w: Seq<int>) -> Seq<int> {
    Seq::new(
        longer(u.len() as int, (q.len() + w.len()) as int) as nat,
        |k: int| coef(u, k) - product_coef(q, w, k),
    )
}

/// Why a polynomial could not be inverted.
#[derive(Debug, Clone, Copy, PartialEq, Eq)]
pub enum InversionError {
    /// The polynomial has no inverse: the algorithm ended with a common
    /// divisor of positive degree.
    NotInvertible,
}

impl InversionError {
    /// What went wrong, in words.
    pub fn message(&self) -> (out: String)
        ensures
            out@ == "Could not invert the polynomial"@,
    {
        String::from_str("Could not invert the polynomial")
    }
}

/// Whether every residue modulo `n` but zero is a unit that `inv` inverts.
pub open spec fn all_units(n: int, type_signed: bool) -> bool {
    forall|c: int| 0 < c < n ==> #[trigger] leading_unit(c, n, type_signed)
}

/// The inverses of the coefficients, where zero stays zero.
pub open spec fn spec_poly_z_inv(p: Seq<int>, n: int, type_signed: bool) -> Seq<int> {
    Seq::new(
        p.len(),
        |i: int|
            if p[i] == 0 {
                0
            } else {
                spec_inv(p[i], n, type_signed)
            },
    )
}

/// The inputs on which `extended_euclid` is defined, for a coefficient type
/// with the range `lo..=hi`: the operands are reduced modulo `n`, the modulus
/// `y` is not zero, every residue but zero can be divided by, and the square of
/// `n` is a value of the type.
pub open spec fn extended_euclid_fits(x: Seq<int>, y: Seq<int>, n: int, lo: int, hi: int) -> bool {
    &&& 4 * longer(x.len() as int, y.len() as int) <= usize::MAX
    &&& 0 < n
    &&& canonical(x, n)
    &&& canonical(y, n)
    &&& !is_zero_poly(y)
    &&& all_units(n, lo < 0)
    &&& n * n <= hi
    &&& lo < 0 ==> lo <= -n
}

/// The remainder and the coefficient after one step of the algorithm.
pub open spec fn next_term(r: Seq<int>, q: Seq<int>, new_r: Seq<int>, n: int) -> Seq<int> {
    spec_truncate(spec_poly_sub(r, spec_poly_mul(q, new_r, n), n))
}

/// What a step of the algorithm computes is the difference it stands for,
/// coefficient by coefficient modulo `n`.
pub proof fn lemma_next_term(r: Seq<int>, q: Seq<int>, new_r: Seq<int>, n: int)
    requires
        n >= 0,
    ensures
        forall|k: int|
            congruent(
                #[trigger] coef(next_term(r, q, new_r, n), k),
                coef(r, k) - product_coef(q, new_r, k),
                n,
            ),
{
    let prod = spec_poly_mul(q, new_r, n);
    let diff = spec_poly_sub(r, prod, n);
    lemma_truncate(diff);
    assert forall|k: int|
        congruent(
            #[trigger] coef(next_term(r, q, new_r, n), k),
            coef(r, k) - product_coef(q, new_r, k),
            n,
        ) by {
        lemma_difference_coef(r, prod, n, k);
        lemma_product_coef_mod(q, new_r, n, k);
        lemma_congruent_self(coef(r, k), n);
        lemma_congruent(coef(r, k), coef(r, k), coef(prod, k), product_coef(q, new_r, k), n);
        lemma_congruent_chain(
            coef(diff, k),
            coef(r, k) - coef(prod, k),
            coef(r, k) - product_coef(q, new_r, k),
            n,
        );
    }
}

/// The new remainder of a step is the remainder of the division, so it is
/// zero or of a smaller degree than the divisor.
pub proof fn lemma_next_remainder(
    r: Seq<int>,
    q: Seq<int>,
    rem: Seq<int>,
    new_r: Seq<int>,
    n: int,
    lo: int,
    hi: int,
)
    requires
        n > 0,
        canonical(r, n),
        canonical(q, n),
        canonical(rem, n),
        canonical(new_r, n),
        n * n <= hi,
        lo <= 0,
        lo < 0 ==> lo <= -n,
        division_holds(q, rem, new_r, r, n),
        !divisible(rem, new_r),
    ensures
        canonical(next_term(r, q, new_r, n), n),
        degree(next_term(r, q, new_r, n)) < degree(new_r) || is_zero_poly(
            next_term(r, q, new_r, n),
        ),
        next_term(r, q, new_r, n).len() == degree(next_term(r, q, new_r, n)) + 1,
{
    let next = next_term(r, q, new_r, n);
    let prod = spec_poly_mul(q, new_r, n);
    let diff = spec_poly_sub(r, prod, n);
    lemma_canonical_fits(q, new_r, n, lo, hi);
    lemma_canonical_fits(r, prod, n, lo, hi);
    lemma_canonical_fits(diff, diff, n, lo, hi);
    lemma_truncate(diff);
    lemma_next_term(r, q, new_r, n);
    assert forall|k: int| congruent(#[trigger] coef(next, k), coef(rem, k), n) by {
        let pc = product_coef(q, new_r, k);
        assert(congruent(pc + coef(rem, k), coef(r, k), n));
        lemma_congruent_self(pc, n);
        lemma_congruent(pc + coef(rem, k), coef(r, k), pc, pc, n);
        assert(congruent(coef(rem, k), coef(r, k) - pc, n));
        lemma_congruent(coef(rem, k), coef(r, k) - pc, 0, 0, n);
        lemma_congruent_chain(coef(next, k), coef(r, k) - pc, coef(rem, k), n);
    }
    lemma_canonical_same(next, rem, n);
}

/// The degree of the new coefficient of a step is at most the greater of the
/// degree of the old one and the degrees of quotient and coefficient together.
/// Where the quotient or the coefficient is zero, the step leaves the old
/// coefficient as it is.
pub proof fn lemma_next_coefficient(
    t: Seq<int>,
    q: Seq<int>,
    new_t: Seq<int>,
    n: int,
    lo: int,
    hi: int,
)
    requires
        n > 0,
        canonical(t, n),
        canonical(q, n),
        canonical(new_t, n),
        n * n <= hi,
        lo <= 0,
        lo < 0 ==> lo <= -n,
    ensures
        canonical(next_term(t, q, new_t, n), n),
        degree(next_term(t, q, new_t, n)) <= longer(degree(t), degree(q) + degree(new_t)),
        is_zero_poly(q) || is_zero_poly(new_t) ==> degree(next_term(t, q, new_t, n)) == degree(t)
            && (is_zero_poly(t) <==> is_zero_poly(next_term(t, q, new_t, n))),
        next_term(t, q, new_t, n).len() == degree(next_term(t, q, new_t, n)) + 1,
{
    let next = next_term(t, q, new_t, n);
    let prod = spec_poly_mul(q, new_t, n);
    let diff = spec_poly_sub(t, prod, n);
    lemma_canonical_fits(q, new_t, n, lo, hi);
    lemma_canonical_fits(t, prod, n, lo, hi);
    lemma_canonical_fits(diff, diff, n, lo, hi);
    lemma_truncate(diff);
    lemma_degree_product(q, new_t, n);
    lemma_degree_difference(t, prod, n);
    if is_zero_poly(q) || is_zero_poly(new_t) {
        lemma_small_mod(0, n as nat);
        assert forall|k: int| coef(next, k) == coef(t, k) by {
            if is_zero_poly(q) {
                lemma_conv_zero(q, new_t, k, q.len() as int);
            } else {
                assert forall|j: int| coef(new_t, j) == 0 by {
                    if 0 <= j < new_t.len() {
                        assert(new_t[j] == 0);
                    }
                }
                lemma_conv_zero_right(q, new_t, k, q.len() as int);
            }
            lemma_product_coef_mod(q, new_t, n, k);
            assert(coef(prod, k) == 0);
            if 0 <= k < t.len() {
                assert(0 <= t[k] < n);
                lemma_small_mod(t[k] as nat, n as nat);
            }
            assert(coef(diff, k) == coef(t, k));
            assert(coef(spec_truncate(diff), k) == coef(diff, k));
        }
        crate::algebra::lemma_same_coefficients(next, t);
    }
}

/// A coefficient whose product with `x` is a constant unit up to a multiple
/// of `y` gives an inverse of `x` when it is scaled by the inverse of that
/// constant.
pub proof fn lemma_scaled_inverse(
    t: Seq<int>,
    u: Seq<int>,
    r: Seq<int>,
    x: Seq<int>,
    y: Seq<int>,
    n: int,
    ci: int,
)
    requires
        n > 0,
        bezout_holds(t, u, r, x, y, n),
        r.len() == 1,
        congruent(r[0] * ci, 1, n),
    ensures
        inverts(spec_truncate(spec_poly_mul(t, seq![ci], n)), x, y, n),
{
    let prod = spec_poly_mul(t, seq![ci], n);
    let v = spec_truncate(prod);
    let st = Seq::new(t.len(), |i: int| ci * t[i]);
    let su = Seq::new(u.len(), |i: int| ci * u[i]);
    lemma_truncate(prod);
    lemma_small_mod(0, n as nat);
    assert forall|k: int|
        congruent(
            #[trigger] product_coef(v, x, k) + product_coef(su, y, k),
            coef(seq![1int], k),
            n,
        ) by {
        let m = longer(v.len() as int, t.len() as int);
        assert forall|i: int| 0 <= i < m implies congruent(#[trigger] coef(v, i), coef(st, i), n) by {
            lemma_product_coef_mod(t, seq![ci], n, i);
            lemma_conv_constant(t, ci, i, t.len() as int);
            assert(coef(t, i) * ci == ci * coef(t, i)) by (nonlinear_arith);
            assert(ci * 0 == 0) by (nonlinear_arith);
        }
        lemma_conv_same(v, st, x, k, m, n);
        lemma_conv_extend(v, x, k, m);
        lemma_conv_extend(st, x, k, m);
        assert forall|j: int| 0 <= j < t.len() implies #[trigger] coef(st, j) == ci * coef(
            t,
            j - 0,
        ) by {}
        lemma_conv_shift(st, t, x, ci, 0, k, t.len() as int);
        assert forall|j: int| 0 <= j < u.len() implies #[trigger] coef(su, j) == ci * coef(
            u,
            j - 0,
        ) by {}
        lemma_conv_shift(su, u, y, ci, 0, k, u.len() as int);
        let a = product_coef(t, x, k);
        let b = product_coef(u, y, k);
        assert(product_coef(st, x, k) == ci * a);
        assert(product_coef(su, y, k) == ci * b);
        assert(ci * a + ci * b == ci * (a + b)) by (nonlinear_arith);
        lemma_congruent_self(ci * b, n);
        lemma_congruent(product_coef(v, x, k), ci * a, ci * b, ci * b, n);
        assert(congruent(a + b, coef(r, k), n));
        lemma_congruent_scale(a + b, coef(r, k), ci, n);
        lemma_congruent_chain(
            product_coef(v, x, k) + product_coef(su, y, k),
            ci * (a + b),
            ci * coef(r, k),
            n,
        );
        if k == 0 {
            assert(ci * r[0] == r[0] * ci) by (nonlinear_arith);
            lemma_congruent_chain(
                product_coef(v, x, k) + product_coef(su, y, k),
                ci * coef(r, k),
                1,
                n,
            );
        } else {
            assert(ci * 0 == 0) by (nonlinear_arith);
        }
    }
    assert(bezout_holds(v, su, seq![1int], x, y, n));
}

/// The algorithm starts with coefficients and remainders that belong
/// together: `1 * x` is `x`, and `0 * x + 1 * y` is `y`.
pub proof fn lemma_bezout_start(x: Seq<int>, y: Seq<int>, n: int)
    requires
        n >= 0,
    ensures
        bezout_holds(seq![1int], Seq::<int>::empty(), spec_truncate(x), x, y, n),
        bezout_holds(seq![0int], seq![1int], spec_truncate(y), x, y, n),
{
    lemma_truncate(x);
    lemma_truncate(y);
    let none = Seq::<int>::empty();
    assert(spec_monomial(1, 0) =~= seq![1int]);
    assert forall|k: int|
        congruent(
            #[trigger] product_coef(seq![1int], x, k) + product_coef(none, y, k),
            coef(spec_truncate(x), k),
            n,
        ) by {
        lemma_conv_monomial(1, 0, x, k, 1);
        assert(1 * coef(x, k) == coef(x, k)) by (nonlinear_arith);
        lemma_congruent_self(coef(x, k), n);
    }
    assert forall|k: int|
        congruent(
            #[trigger] product_coef(seq![0int], x, k) + product_coef(seq![1int], y, k),
            coef(spec_truncate(y), k),
            n,
        ) by {
        lemma_conv_zero(seq![0int], x, k, 1);
        lemma_conv_monomial(1, 0, y, k, 1);
        assert(1 * coef(y, k) == coef(y, k)) by (nonlinear_arith);
        lemma_congruent_self(coef(y, k), n);
    }
}

/// `target` is `a * r + b * new_r`, coefficient by coefficient modulo `n`.
pub open spec fn span_holds(
    a: Seq<int>,
    b: Seq<int>,
    r: Seq<int>,
    new_r: Seq<int>,
    target: Seq<int>,
    n: int,
) -> bool {
    forall|k: int|
        congruent(#[trigger] coef(target, k), product_coef(a, r, k) + product_coef(b, new_r, k), n)
}

/// The sum `a * q + b` over the integers.
pub open spec fn next_span(a: Seq<int>, q: Seq<int>, b: Seq<int>) -> Seq<int> {
    Seq::new(
        longer((a.len() + q.len()) as int, b.len() as int) as nat,
        |k: int| product_coef(a, q, k) + coef(b, k),
    )
}

/// The algorithm starts with remainders that `x` and `y` are made of: they
/// are `x` and `y` themselves.
pub proof fn lemma_span_start(x: Seq<int>, y: Seq<int>, n: int)
    requires
        n >= 0,
    ensures
        span_holds(Seq::<int>::empty(), seq![1int], spec_truncate(y), spec_truncate(x), x, n),
        span_holds(seq![1int], Seq::<int>::empty(), spec_truncate(y), spec_truncate(x), y, n),
{
    lemma_truncate(x);
    lemma_truncate(y);
    let none = Seq::<int>::empty();
    let tx = spec_truncate(x);
    let ty = spec_truncate(y);
    assert(spec_monomial(1, 0) =~= seq![1int]);
    assert forall|k: int|
        congruent(
            #[trigger] coef(x, k),
            product_coef(none, ty, k) + product_coef(seq![1int], tx, k),
            n,
        ) by {
        lemma_conv_monomial(1, 0, tx, k, 1);
        assert(1 * coef(tx, k) == coef(tx, k)) by (nonlinear_arith);
        lemma_congruent_self(coef(x, k), n);
    }
    assert forall|k: int|
        congruent(
            #[trigger] coef(y, k),
            product_coef(seq![1int], ty, k) + product_coef(none, tx, k),
            n,
        ) by {
        lemma_conv_monomial(1, 0, ty, k, 1);
        assert(1 * coef(ty, k) == coef(ty, k)) by (nonlinear_arith);
        lemma_congruent_self(coef(y, k), n);
    }
}

/// One step of the algorithm keeps the remainders such that `target` is made
/// of them.
pub proof fn lemma_span_step(
    a: Seq<int>,
    b: Seq<int>,
    r: Seq<int>,
    new_r: Seq<int>,
    q: Seq<int>,
    next_r: Seq<int>,
    target: Seq<int>,
    n: int,
)
    requires
        n >= 0,
        span_holds(a, b, r, new_r, target, n),
        forall|k: int|
            congruent(#[trigger] coef(next_r, k), coef(r, k) - product_coef(q, new_r, k), n),
    ensures
        span_holds(next_span(a, q, b), a, new_r, next_r, target, n),
{
    let qn = spec_poly_mul_plain(q, new_r);
    let aq = spec_poly_mul_plain(a, q);
    let next_a = next_span(a, q, b);
    assert forall|k: int|
        congruent(
            #[trigger] coef(target, k),
            product_coef(next_a, new_r, k) + product_coef(a, next_r, k),
            n,
        ) by {
        // r is q * new_r + next_r
        assert forall|j: int| congruent(#[trigger] coef(r, j), coef(qn, j) + coef(next_r, j), n) by {
            lemma_product_coef(q, new_r, j);
            let pc = product_coef(q, new_r, j);
            assert(congruent(coef(next_r, j), coef(r, j) - pc, n));
            lemma_congruent_self(pc, n);
            lemma_congruent(coef(next_r, j), coef(r, j) - pc, pc, pc, n);
            lemma_congruent(coef(next_r, j) + pc, coef(r, j), 0, 0, n);
        }
        lemma_conv_linear_right(r, qn, next_r, a, k, a.len() as int, n);
        lemma_conv_assoc(a, q, new_r, k);
        // the new cofactor is a * q + b
        let m = longer(longer(next_a.len() as int, aq.len() as int), b.len() as int);
        assert forall|i: int| 0 <= i < m implies congruent(
            #[trigger] coef(next_a, i),
            coef(aq, i) + coef(b, i),
            0,
        ) by {
            lemma_product_coef(a, q, i);
        }
        lemma_conv_linear(next_a, aq, b, new_r, k, m, 0);
        lemma_conv_extend(next_a, new_r, k, m);
        lemma_conv_extend(aq, new_r, k, m);
        lemma_conv_extend(b, new_r, k, m);
        let ar = product_coef(a, r, k);
        let bn = product_coef(b, new_r, k);
        let aqn = product_coef(aq, new_r, k);
        let an = product_coef(a, next_r, k);
        assert(congruent(coef(target, k), ar + bn, n));
        assert(congruent(ar, aqn + an, n));
        lemma_congruent_self(bn, n);
        lemma_congruent(ar, aqn + an, bn, bn, n);
        lemma_congruent_chain(coef(target, k), ar + bn, aqn + an + bn, n);
        assert(product_coef(next_a, new_r, k) == aqn + bn);
    }
}

/// Where the algorithm has ended, `target` is a multiple of the last
/// remainder.
pub proof fn lemma_span_end(
    a: Seq<int>,
    b: Seq<int>,
    r: Seq<int>,
    new_r: Seq<int>,
    target: Seq<int>,
    n: int,
)
    requires
        n >= 0,
        span_holds(a, b, r, new_r, target, n),
        is_zero_poly(new_r),
    ensures
        forall|k: int| congruent(#[trigger] coef(target, k), product_coef(a, r, k), n),
{
    assert forall|k: int| congruent(#[trigger] coef(target, k), product_coef(a, r, k), n) by {
        assert forall|j: int| coef(new_r, j) == 0 by {
            if 0 <= j < new_r.len() {
                assert(new_r[j] == 0);
            }
        }
        lemma_conv_zero_right(b, new_r, k, b.len() as int);
        assert(congruent(coef(target, k), product_coef(a, r, k) + product_coef(b, new_r, k), n));
    }
}

/// Polynomials with a common divisor of positive degree have no inverse of
/// one modulo the other: here `x` is `a * g` and `y` is `c * g`, and `g` has
/// a unit as its leading coefficient.
pub proof fn lemma_common_factor_blocks(
    x: Seq<int>,
    y: Seq<int>,
    g: Seq<int>,
    a: Seq<int>,
    c: Seq<int>,
    n: int,
    ci: int,
    v: Seq<int>,
)
    requires
        n >= 2,
        forall|k: int| congruent(#[trigger] coef(x, k), product_coef(a, g, k), n),
        forall|k: int| congruent(#[trigger] coef(y, k), product_coef(c, g, k), n),
        degree(g) > 0,
        congruent(leading(g) * ci, 1, n),
    ensures
        !inverts(v, x, y, n),
{
    if inverts(v, x, y, n) {
        let u = choose|u: Seq<int>| bezout_holds(v, u, seq![1int], x, y, n);
        let none = Seq::<int>::empty();
        let ag = spec_poly_mul_plain(a, g);
        let cg = spec_poly_mul_plain(c, g);
        let va = spec_poly_mul_plain(v, a);
        let uc = spec_poly_mul_plain(u, c);
        let w = Seq::new(
            longer(va.len() as int, uc.len() as int) as nat,
            |j: int| coef(va, j) + coef(uc, j),
        );
        lemma_small_mod(0, n as nat);
        lemma_small_mod(1, n as nat);
        assert forall|k: int| congruent(#[trigger] product_coef(w, g, k), coef(seq![1int], k), n) by {
            // v * x is (v * a) * g
            assert forall|j: int| congruent(#[trigger] coef(x, j), coef(ag, j) + coef(none, j), n) by {
                lemma_product_coef(a, g, j);
                assert(congruent(coef(x, j), product_coef(a, g, j), n));
            }
            lemma_conv_linear_right(x, ag, none, v, k, v.len() as int, n);
            lemma_conv_zero_right(v, none, k, v.len() as int);
            lemma_conv_assoc(v, a, g, k);
            // u * y is (u * c) * g
            assert forall|j: int| congruent(#[trigger] coef(y, j), coef(cg, j) + coef(none, j), n) by {
                lemma_product_coef(c, g, j);
                assert(congruent(coef(y, j), product_coef(c, g, j), n));
            }
            lemma_conv_linear_right(y, cg, none, u, k, u.len() as int, n);
            lemma_conv_zero_right(u, none, k, u.len() as int);
            lemma_conv_assoc(u, c, g, k);
            // w * g is the sum of the two
            let m = w.len() as int;
            assert forall|i: int| 0 <= i < m implies congruent(
                #[trigger] coef(w, i),
                coef(va, i) + coef(uc, i),
                0,
            ) by {}
            lemma_conv_linear(w, va, uc, g, k, m, 0);
            lemma_conv_extend(va, g, k, m);
            lemma_conv_extend(uc, g, k, m);
            let vx = product_coef(v, x, k);
            let uy = product_coef(u, y, k);
            let vag = product_coef(va, g, k);
            let ucg = product_coef(uc, g, k);
            assert(congruent(vx, vag, n));
            assert(congruent(uy, ucg, n));
            lemma_congruent(vx, vag, uy, ucg, n);
            lemma_congruent(vx + uy, vag + ucg, 0, 0, n);
            assert(congruent(vx + uy, coef(seq![1int], k), n));
            lemma_congruent_chain(vag + ucg, vx + uy, coef(seq![1int], k), n);
        }
        let wr = reduce_poly(w, n);
        if is_zero_poly(wr) {
            assert forall|i: int| 0 <= i < w.len() implies congruent(
                #[trigger] coef(w, i),
                coef(none, i),
                n,
            ) by {
                assert(wr[i] == 0);
            }
            lemma_conv_same(w, none, g, 0, w.len() as int, n);
            lemma_conv_zero(none, g, 0, w.len() as int);
            assert(congruent(product_coef(w, g, 0), 0, n));
            assert(congruent(product_coef(w, g, 0), coef(seq![1int], 0), n));
            lemma_congruent(product_coef(w, g, 0), 0, 0, 0, n);
            lemma_congruent_chain(0, product_coef(w, g, 0), 1, n);
            vstd::arithmetic::div_mod::lemma_fundamental_div_mod_converse(-1, n, -1, n - 1);
            assert(false);
        }
        lemma_product_not_zero(w, g, n, ci);
        let k = degree(wr) + degree(g);
        assert(congruent(product_coef(w, g, k), coef(seq![1int], k), n));
        assert(false);
    }
}

/// A difference of polynomials has the difference of the products.
pub proof fn lemma_product_of_difference(
    diff: Seq<int>,
    a: Seq<int>,
    q: Seq<int>,
    w: Seq<int>,
    x: Seq<int>,
    k: int,
    n: int,
)
    requires
        n >= 0,
        forall|i: int| congruent(#[trigger] coef(diff, i), coef(a, i) - product_coef(q, w, i), n),
    ensures
        congruent(
            product_coef(diff, x, k),
            product_coef(a, x, k) - product_coef(q, spec_poly_mul_plain(w, x), k),
            n,
        ),
{
    let qw = spec_poly_mul_plain(q, w);
    let m = longer(longer(diff.len() as int, a.len() as int), qw.len() as int);
    assert forall|i: int| 0 <= i < m implies congruent(
        #[trigger] coef(diff, i),
        coef(a, i) - coef(qw, i),
        n,
    ) by {
        lemma_product_coef(q, w, i);
    }
    lemma_conv_difference(diff, a, qw, x, k, m, n);
    lemma_conv_extend(diff, x, k, m);
    lemma_conv_extend(a, x, k, m);
    lemma_conv_extend(qw, x, k, m);
    lemma_conv_assoc(q, w, x, k);
}

/// One step of the extended Euclidean algorithm keeps the coefficients and the
/// remainders together: the new coefficient times `x` is the new remainder up
/// to a multiple of `y`.
pub proof fn lemma_bezout_step(
    t: Seq<int>,
    u: Seq<int>,
    r: Seq<int>,
    new_t: Seq<int>,
    new_u: Seq<int>,
    new_r: Seq<int>,
    q: Seq<int>,
    x: Seq<int>,
    y: Seq<int>,
    n: int,
    next_t: Seq<int>,
    next_r: Seq<int>,
)
    requires
        n >= 0,
        bezout_holds(t, u, r, x, y, n),
        bezout_holds(new_t, new_u, new_r, x, y, n),
        forall|k: int|
            congruent(#[trigger] coef(next_t, k), coef(t, k) - product_coef(q, new_t, k), n),
        forall|k: int|
            congruent(#[trigger] coef(next_r, k), coef(r, k) - product_coef(q, new_r, k), n),
    ensures
        bezout_holds(next_t, next_cofactor(u, q, new_u), next_r, x, y, n),
{
    let next_u = next_cofactor(u, q, new_u);
    let tx = spec_poly_mul_plain(new_t, x);
    let uy = spec_poly_mul_plain(new_u, y);
    assert forall|k: int|
        congruent(
            #[trigger] product_coef(next_t, x, k) + product_coef(next_u, y, k),
            coef(next_r, k),
            n,
        ) by {
        lemma_product_of_difference(next_t, t, q, new_t, x, k, n);
        assert forall|i: int|
            congruent(
                #[trigger] coef(next_u, i),
                coef(u, i) - product_coef(q, new_u, i),
                n,
            ) by {
            lemma_product_coef(q, new_u, i);
            if !(0 <= i < next_u.len()) {
                assert(coef(spec_poly_mul_plain(q, new_u), i) == 0);
            }
            lemma_congruent_self(coef(u, i) - product_coef(q, new_u, i), n);
        }
        lemma_product_of_difference(next_u, u, q, new_u, y, k, n);
        // q * new_r is q * (new_t * x) + q * (new_u * y)
        assert forall|j: int|
            congruent(#[trigger] coef(new_r, j), coef(tx, j) + coef(uy, j), n) by {
            lemma_product_coef(new_t, x, j);
            lemma_product_coef(new_u, y, j);
            assert(congruent(
                product_coef(new_t, x, j) + product_coef(new_u, y, j),
                coef(new_r, j),
                n,
            ));
            lemma_congruent(
                product_coef(new_t, x, j) + product_coef(new_u, y, j),
                coef(new_r, j),
                0,
                0,
                n,
            );
        }
        lemma_conv_linear_right(new_r, tx, uy, q, k, q.len() as int, n);
        let a1 = product_coef(next_t, x, k);
        let b1 = product_coef(t, x, k) - product_coef(q, tx, k);
        let a2 = product_coef(next_u, y, k);
        let b2 = product_coef(u, y, k) - product_coef(q, uy, k);
        lemma_congruent(a1, b1, a2, b2, n);
        // a1 + a2 is (t * x + u * y) - (q * tx + q * uy)
        let s = product_coef(t, x, k) + product_coef(u, y, k);
        let p = product_coef(q, tx, k) + product_coef(q, uy, k);
        assert(b1 + b2 == s - p);
        assert(congruent(s, coef(r, k), n));
        assert(congruent(product_coef(q, new_r, k), p, n));
        lemma_congruent(product_coef(q, new_r, k), p, 0, 0, n);
        lemma_congruent(s, coef(r, k), p, product_coef(q, new_r, k), n);
        lemma_congruent_chain(a1 + a2, s - p, coef(r, k) - product_coef(q, new_r, k), n);
        lemma_congruent(
            coef(next_r, k),
            coef(r, k) - product_coef(q, new_r, k),
            0,
            0,
            n,
        );
        lemma_congruent_chain(
            a1 + a2,
            coef(r, k) - product_coef(q, new_r, k),
            coef(next_r, k),
            n,
        );
    }
}

/// An inverse modulo `n` is not `n` itself.
pub proof fn lemma_unit_inverse_below(c: int, ci: int, n: int)
    requires
        n >= 2,
        0 <= ci <= n,
        congruent(c * ci, 1, n),
    ensures
        ci < n,
{
    if ci == n {
        vstd::arithmetic::div_mod::lemma_mod_multiples_vanish(c, -1, n);
        assert(c * ci - 1 == n * c + (-1)) by (nonlinear_arith)
            requires
                ci == n,
        ;
        vstd::arithmetic::div_mod::lemma_fundamental_div_mod_converse(-1, n, -1, n - 1);
    }
}

/// The inverse of each coefficient modulo `n`; zero stays zero.
pub fn poly_z_inv<T: TRestrictions>(v: &[T], n: T) -> (out: Vec<T>)
    requires
        forall|i: int|
            0 <= i < v@.len() && (#[trigger] v@[i]).value() != 0 ==> inv_fits(
                v@[i].value(),
                n.value(),
                T::lowest(),
                T::highest(),
            ),
    ensures
        values(out@) == spec_poly_z_inv(values(v@), n.value(), T::lowest() < 0),
{
    let mut out: Vec<T> = Vec::new();
    let mut i: usize = 0;
    while i < v.len()
        invariant
            i <= v@.len(),
            out@.len() == i,
            forall|j: int|
                0 <= j < v@.len() && (#[trigger] v@[j]).value() != 0 ==> inv_fits(
                    v@[j].value(),
                    n.value(),
                    T::lowest(),
                    T::highest(),
                ),
            forall|j: int|
                0 <= j < i ==> (#[trigger] out@[j]).value() == spec_poly_z_inv(
                    values(v@),
                    n.value(),
                    T::lowest() < 0,
                )[j],
        decreases v.len() - i,
    {
        let c = v[i];
        if is_zero_coefficient(c) {
            out.push(c);
        } else {
            out.push(T::inv(c, n));
        }
        i += 1;
    }
    assert(values(out@) =~= spec_poly_z_inv(values(v@), n.value(), T::lowest() < 0));
    out
}

/// Extended Euclidean algorithm on polynomials: the inverse of `x` modulo
/// `y`, with coefficients modulo `n`.
///
/// The algorithm ends with a common divisor of `x` and `y`. Where that is a
/// constant, the coefficient that belongs to it, scaled by the inverse of the
/// constant, is the inverse; it is returned reduced and without zeros above
/// its degree. Where it has a positive degree, there is no inverse to return.
pub fn extended_euclid<T: TRestrictions>(x: &[T], y: &[T], n: T) -> (res: Result<
    Vec<T>,
    InversionError,
>)
    requires
        extended_euclid_fits(values(x@), values(y@), n.value(), T::lowest(), T::highest()),
    ensures
        match res {
            Ok(v) => {
                &&& inverts(values(v@), values(x@), values(y@), n.value())
                &&& canonical(values(v@), n.value())
                &&& v@.len() == degree(values(v@)) + 1
                &&& v@.len() <= longer(x@.len() as int, y@.len() as int)
                &&& degree(values(y@)) >= 1 ==> degree(values(v@)) < degree(values(y@))
            },
            Err(e) => {
                &&& e == InversionError::NotInvertible
                &&& forall|v: Seq<int>| !inverts(v, values(x@), values(y@), n.value())
            },
        },
{
    let ghost xv = values(x@);
    let ghost yv = values(y@);
    let ghost nv = n.value();
    let ghost lo = T::lowest();
    let ghost hi = T::highest();
    let ghost l = longer(x@.len() as int, y@.len() as int);
    let ghost dmax = longer(degree(xv), degree(yv));
    let mut new_t: Vec<T> = Vec::new();
    new_t.push(one::<T>());
    let mut new_r = truncate(x);
    let mut t: Vec<T> = Vec::new();
    t.push(zero::<T>());
    let mut r = truncate(y);
    let ghost mut u: Seq<int> = seq![1int];
    let ghost mut new_u: Seq<int> = Seq::<int>::empty();
    let ghost mut xa: Seq<int> = Seq::<int>::empty();
    let ghost mut xb: Seq<int> = seq![1int];
    let ghost mut ya: Seq<int> = seq![1int];
    let ghost mut yb: Seq<int> = Seq::<int>::empty();
    proof {
        lemma_span_start(xv, yv, nv);
        T::lemma_value(n, n);
        lemma_degree(xv);
        lemma_degree(yv);
        lemma_truncate(xv);
        lemma_truncate(yv);
        lemma_bezout_start(xv, yv, nv);
        lemma_canonical_fits(xv, xv, nv, lo, hi);
        lemma_canonical_fits(yv, yv, nv, lo, hi);
        assert(yv[degree(yv)] != 0);
        assert(nv >= 2);
        assert(values(new_t@) =~= seq![1int]);
        assert(values(t@) =~= seq![0int]);
        assert(seq![1int] =~= Seq::<int>::empty().push(1));
        assert(seq![0int] =~= Seq::<int>::empty().push(0));
        crate::ring::lemma_degree_push(Seq::<int>::empty(), 1);
        crate::ring::lemma_degree_push(Seq::<int>::empty(), 0);
        assert(degree(seq![1int]) == 0);
        assert(degree(seq![0int]) == 0);
        assert(is_zero_poly(seq![0int]));
    }
    while !is_zero(new_r.as_slice())
        invariant
            xv == values(x@),
            yv == values(y@),
            nv == n.value(),
            lo == T::lowest(),
            hi == T::highest(),
            l == longer(x@.len() as int, y@.len() as int),
            dmax == longer(degree(xv), degree(yv)),
            extended_euclid_fits(xv, yv, nv, lo, hi),
            lo <= 0,
            2 <= nv <= hi,
            dmax < l,
            canonical(values(r@), nv),
            canonical(values(new_r@), nv),
            canonical(values(t@), nv),
            canonical(values(new_t@), nv),
            r@.len() == degree(values(r@)) + 1,
            new_r@.len() == degree(values(new_r@)) + 1,
            t@.len() == degree(values(t@)) + 1,
            new_t@.len() == degree(values(new_t@)) + 1,
            degree(values(r@)) <= dmax,
            degree(values(new_r@)) <= dmax,
            degree(values(new_t@)) + degree(values(r@)) <= dmax,
            degree(values(t@)) + degree(values(r@)) <= dmax,
            degree(values(new_r@)) <= degree(values(r@)) || (is_zero_poly(values(t@)) && degree(
                values(new_t@),
            ) == 0),
            !is_zero_poly(values(r@)),
            is_zero_poly(values(new_t@)) || degree(values(new_t@)) + degree(values(r@)) <= degree(
                yv,
            ),
            is_zero_poly(values(t@)) || degree(values(t@)) + degree(values(new_r@)) <= degree(yv),
            degree(values(r@)) < degree(yv) ==> is_zero_poly(values(t@)) || degree(values(t@))
                + degree(values(r@)) < degree(yv),
            is_zero_poly(values(new_r@)) || degree(values(new_r@)) < degree(values(r@)) || (
            is_zero_poly(values(t@)) && degree(values(new_t@)) == 0 && degree(values(r@))
                <= degree(yv)),
            bezout_holds(values(t@), u, values(r@), xv, yv, nv),
            bezout_holds(values(new_t@), new_u, values(new_r@), xv, yv, nv),
            span_holds(xa, xb, values(r@), values(new_r@), xv, nv),
            span_holds(ya, yb, values(r@), values(new_r@), yv, nv),
        decreases remaining(values(new_r@)),
    {
        let ghost rv = values(r@);
        let ghost new_rv = values(new_r@);
        let ghost tv = values(t@);
        let ghost new_tv = values(new_t@);
        proof {
            lemma_degree(new_rv);
            assert(0 < new_rv[degree(new_rv)] < nv);
            assert(leading_unit(leading(new_rv), nv, lo < 0));
        }
        let (q, rem) = euclid_div(r.as_slice(), new_r.as_slice(), n);
        let ghost qv = values(q@);
        let ghost remv = values(rem@);
        proof {
            lemma_canonical_fits(qv, new_rv, nv, lo, hi);
            lemma_canonical_fits(rv, spec_poly_mul(qv, new_rv, nv), nv, lo, hi);
            lemma_canonical_fits(qv, new_tv, nv, lo, hi);
            lemma_canonical_fits(tv, spec_poly_mul(qv, new_tv, nv), nv, lo, hi);
        }
        let qr = poly_mul(q.as_slice(), new_r.as_slice(), n);
        let dr = poly_sub(r.as_slice(), qr.as_slice(), n);
        let next_r = truncate(dr.as_slice());
        let qt = poly_mul(q.as_slice(), new_t.as_slice(), n);
        let dt = poly_sub(t.as_slice(), qt.as_slice(), n);
        let next_t = truncate(dt.as_slice());
        proof {
            assert(values(next_r@) == next_term(rv, qv, new_rv, nv));
            assert(values(next_t@) == next_term(tv, qv, new_tv, nv));
            lemma_next_remainder(rv, qv, remv, new_rv, nv, lo, hi);
            lemma_next_coefficient(tv, qv, new_tv, nv, lo, hi);
            lemma_next_term(rv, qv, new_rv, nv);
            lemma_next_term(tv, qv, new_tv, nv);
            lemma_bezout_step(
                tv,
                u,
                rv,
                new_tv,
                new_u,
                new_rv,
                qv,
                xv,
                yv,
                nv,
                values(next_t@),
                values(next_r@),
            );
            lemma_degree(qv);
            lemma_degree(tv);
            lemma_degree(new_tv);
            if degree(rv) >= degree(new_rv) {
                lemma_degree_below(qv, degree(rv) - degree(new_rv) + 1);
            } else {
                assert forall|i: int| 0 <= i < qv.len() implies qv[i] == 0 by {
                    assert(coef(qv, i) == 0);
                }
            }
            lemma_degree(values(next_r@));
            lemma_degree(values(next_t@));
            lemma_degree(rv);
            if degree(rv) < degree(new_rv) {
                // nothing is taken from the remainder
                lemma_next_coefficient(rv, qv, new_rv, nv, lo, hi);
            }
            assert(degree(values(next_r@)) <= degree(rv));
            let old_u = u;
            u = new_u;
            new_u = next_cofactor(old_u, qv, u);
            lemma_span_step(xa, xb, rv, new_rv, qv, values(next_r@), xv, nv);
            lemma_span_step(ya, yb, rv, new_rv, qv, values(next_r@), yv, nv);
            let old_xa = xa;
            xa = next_span(old_xa, qv, xb);
            xb = old_xa;
            let old_ya = ya;
            ya = next_span(old_ya, qv, yb);
            yb = old_ya;
        }
        r = new_r;
        new_r = next_r;
        t = new_t;
        new_t = next_t;
    }
    let (d, c) = leading_coefficient(r.as_slice());
    if d > 0 {
        proof {
            let rv = values(r@);
            lemma_degree(rv);
            assert(0 < rv[degree(rv)] < nv);
            assert(leading_unit(leading(rv), nv, lo < 0));
            lemma_span_end(xa, xb, rv, values(new_r@), xv, nv);
            lemma_span_end(ya, yb, rv, values(new_r@), yv, nv);
            assert forall|v: Seq<int>| !inverts(v, xv, yv, nv) by {
                lemma_common_factor_blocks(
                    xv,
                    yv,
                    rv,
                    xa,
                    ya,
                    nv,
                    spec_inv(leading(rv), nv, lo < 0),
                    v,
                );
            }
        }
        return Err(InversionError::NotInvertible);
    }
    let ghost rv = values(r@);
    let ghost ci = spec_inv(c.value(), nv, lo < 0);
    proof {
        lemma_degree(rv);
        assert(0 < rv[0] < nv);
        assert(leading_unit(rv[0], nv, lo < 0));
        lemma_inv_bound(rv[0], nv, lo < 0);
        lemma_unit_inverse_below(rv[0], ci, nv);
        assert(r@[0].value() == rv[0]);
    }
    let r_inv = poly_z_inv(r.as_slice(), n);
    proof {
        assert(values(r_inv@) =~= seq![ci]);
        assert(canonical(values(r_inv@), nv));
        lemma_canonical_fits(values(t@), values(r_inv@), nv, lo, hi);
        let prod = spec_poly_mul(values(t@), values(r_inv@), nv);
        lemma_canonical_fits(prod, prod, nv, lo, hi);
        lemma_truncate(prod);
        lemma_scaled_inverse(values(t@), u, rv, xv, yv, nv, ci);
    }
    let scaled = poly_mul(t.as_slice(), r_inv.as_slice(), n);
    let v = truncate(scaled.as_slice());
    proof {
        let tv = values(t@);
        lemma_degree(tv);
        lemma_degree(values(r_inv@));
        lemma_degree_product(tv, values(r_inv@), nv);
    }
    Ok(v)
}

} // verus!
