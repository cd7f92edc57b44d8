//! Euclidean division of polynomials.

use crate::integer::{
    add_mod_fits, div_fits, in_range, mul_mod_fits, reduce, spec_mul_mod, sub_mod_fits, trunc_div,
    Integer,
};
use crate::inverse::{congruent, gcd, lemma_inv_bound, spec_inv, TRestrictions};
use crate::kernel::{
    is_zero, leading_coefficient, monomial, normalize, pad, poly_add, poly_mul, poly_sub, zeros,
};
use crate::ops::{is_zero_coefficient, plain_quotient};
use crate::ring::{
    canonical, coef, degree, division_holds, is_zero_poly, leading, lemma_congruent,
    lemma_congruent_chain, lemma_congruent_scale, lemma_congruent_self, lemma_conv_extend,
    lemma_conv_linear, lemma_conv_monomial, lemma_conv_zero, lemma_degree, lemma_degree_below,
    lemma_pad, lemma_trunc_rem, longer, poly_add_fits, poly_mul_fits, poly_sub_fits, product_coef,
    spec_monomial, spec_pad, spec_poly_add, spec_poly_mul, spec_poly_sub, values,
};
use vstd::arithmetic::div_mod::{lemma_mod_bound, lemma_small_mod};
use vstd::prelude::*;

verus! {

/// The quotient after one more step of the division: the term `c * x^d` is
/// added to it.
pub open spec fn step_quotient(q: Seq<int>, c: int, d: int, n: int) -> Seq<int> {
    spec_poly_add(q, spec_monomial(c, d), n)
}

/// The remainder after one more step of the division: the term `c * x^d`
/// times the divisor is taken from it.
pub open spec fn step_remainder(r: Seq<int>, y: Seq<int>, c: int, d: int, n: int) -> Seq<int> {
    spec_poly_sub(r, spec_poly_mul(spec_monomial(c, d), y, n), n)
}

/// Whether the division goes on: the remainder is not zero and its degree
/// is not below that of the divisor.
pub open spec fn divisible(r: Seq<int>, y: Seq<int>) -> bool {
    degree(r) >= degree(y) && !is_zero_poly(r)
}

/// Whether the leading coefficient `c` of a divisor can be divided by: over
/// the integers it is 1 or -1, and modulo `n` it is a unit whose `inv` is its
/// inverse.
pub open spec fn leading_unit(c: int, n: int, type_signed: bool) -> bool {
    if n == 0 {
        c == 1 || c == -1
    } else {
        &&& 0 <= c
        &&& gcd(n as nat, c as nat) == 1
        &&& congruent(c * spec_inv(c, n, type_signed), 1, n)
    }
}

/// Over the integers nothing bounds the coefficients of the remainders, so
/// the division is defined where each of at most `steps` steps can be made in
/// the coefficient type, whose range is `lo..=hi`.
pub open spec fn plain_division_fits(
    r: Seq<int>,
    y: Seq<int>,
    lo: int,
    hi: int,
    steps: nat,
) -> bool
    decreases steps,
{
    if steps == 0 || !divisible(r, y) {
        true
    } else {
        let c = trunc_div(leading(r), leading(y));
        let s = spec_monomial(c, degree(r) - degree(y));
        &&& div_fits(leading(r), leading(y), lo)
        &&& in_range(c, lo, hi)
        &&& poly_mul_fits(s, y, 0, lo, hi)
        &&& poly_sub_fits(r, spec_poly_mul(s, y, 0), 0, lo, hi)
        &&& plain_division_fits(
            step_remainder(r, y, c, degree(r) - degree(y), 0),
            y,
            lo,
            hi,
            (steps - 1) as nat,
        )
    }
}

/// `q` and `r` are the quotient and the remainder of `x` by `y` with
/// coefficients modulo `n`, as `euclid_div` returns them: `q * y + r` is `x`,
/// the remainder is zero or of a degree below that of `y`, both are reduced
/// modulo `n`, the quotient is as long as the longer operand, and the
/// remainder is as long as the first step's difference.
pub open spec fn is_division(q: Seq<int>, r: Seq<int>, x: Seq<int>, y: Seq<int>, n: int) -> bool {
    &&& division_holds(q, r, y, x, n)
    &&& !divisible(r, y)
    &&& q.len() == longer(x.len() as int, y.len() as int)
    &&& r.len() == longer(x.len() as int, y.len() as int) + if divisible(x, y) {
        degree(x) - degree(y) + 1
    } else {
        0
    }
    &&& n > 0 ==> canonical(q, n) && canonical(r, n)
}

/// The inputs on which `euclid_div` is defined, for a coefficient type with
/// the range `lo..=hi`. The divisor is not zero, and its leading coefficient
/// can be divided by. With a modulus, the operands are reduced and the square
/// of the modulus is a value of the type; over the integers, each step can be
/// made.
pub open spec fn euclid_div_fits(x: Seq<int>, y: Seq<int>, n: int, lo: int, hi: int) -> bool {
    &&& 2 * longer(x.len() as int, y.len() as int) <= usize::MAX
    &&& 0 <= n
    &&& !is_zero_poly(y)
    &&& leading_unit(leading(y), n, lo < 0)
    &&& n > 0 ==> {
        &&& canonical(x, n)
        &&& canonical(y, n)
        &&& n * n <= hi
        &&& lo < 0 ==> lo <= -n
    }
    &&& n == 0 ==> plain_division_fits(
        spec_pad(x, y.len() as int),
        spec_pad(y, x.len() as int),
        lo,
        hi,
        longer(x.len() as int, y.len() as int) as nat,
    )
}

/// One step of the division keeps `q * y + r` congruent to `x`.
pub proof fn lemma_division_step(
    q: Seq<int>,
    r: Seq<int>,
    y: Seq<int>,
    yp: Seq<int>,
    x: Seq<int>,
    n: int,
    c: int,
    d: int,
)
    requires
        0 <= n,
        0 <= d < q.len(),
        division_holds(q, r, y, x, n),
        forall|i: int| coef(yp, i) == coef(y, i),
    ensures
        division_holds(step_quotient(q, c, d, n), step_remainder(r, yp, c, d, n), y, x, n),
{
    let s = spec_monomial(c, d);
    let q2 = step_quotient(q, c, d, n);
    let sy = spec_poly_mul(s, yp, n);
    let r2 = step_remainder(r, yp, c, d, n);
    let l = q.len() as int;
    assert(q2.len() == l);
    assert forall|k: int| congruent(#[trigger] product_coef(q2, y, k) + coef(r2, k), coef(x, k), n) by {
        let term = c * coef(y, k - d);
        // the quotient
        assert forall|i: int| 0 <= i < l implies congruent(
            #[trigger] coef(q2, i),
            coef(q, i) + coef(s, i),
            n,
        ) by {
            lemma_congruent_self(coef(q, i) + coef(s, i), n);
        }
        lemma_conv_linear(q2, q, s, y, k, l, n);
        lemma_conv_extend(s, y, k, l);
        lemma_conv_monomial(c, d, y, k, d + 1);
        assert(congruent(product_coef(q2, y, k), product_coef(q, y, k) + term, n));
        // the remainder
        lemma_conv_monomial(c, d, yp, k, d + 1);
        assert(product_coef(s, yp, k) == c * coef(yp, k - d));
        assert(coef(yp, k - d) == coef(y, k - d));
        if 0 <= k < sy.len() {
            assert(coef(sy, k) == reduce(term, n));
        } else {
            if k >= 0 {
                assert(coef(yp, k - d) == 0);
            } else {
                assert(coef(yp, k - d) == 0);
            }
            assert(term == 0) by (nonlinear_arith)
                requires
                    term == c * coef(y, k - d),
                    coef(y, k - d) == 0,
            ;
        }
        lemma_congruent_self(term, n);
        lemma_congruent_self(coef(r, k), n);
        lemma_congruent_self(0, n);
        assert(congruent(coef(sy, k), term, n));
        lemma_congruent(coef(r, k), coef(r, k), coef(sy, k), term, n);
        lemma_congruent(coef(r, k) - coef(sy, k), coef(r, k) - term, 0, 0, n);
        assert(congruent(coef(r2, k), coef(r, k) - term, n));
        // together
        lemma_congruent(
            product_coef(q2, y, k),
            product_coef(q, y, k) + term,
            coef(r2, k),
            coef(r, k) - term,
            n,
        );
        assert(congruent(product_coef(q, y, k) + coef(r, k), coef(x, k), n));
        lemma_congruent_chain(
            product_coef(q2, y, k) + coef(r2, k),
            product_coef(q, y, k) + coef(r, k),
            coef(x, k),
            n,
        );
    }
}

/// A step of the division with the right term clears the leading coefficient
/// of the remainder and leaves what is above it zero.
pub proof fn lemma_remainder_shrinks(r: Seq<int>, y: Seq<int>, n: int, c: int)
    requires
        0 <= n,
        degree(r) >= degree(y),
        congruent(c * leading(y), leading(r), n),
    ensures
        forall|k: int|
            degree(r) <= k ==> #[trigger] coef(
                step_remainder(r, y, c, degree(r) - degree(y), n),
                k,
            ) == 0,
{
    let d = degree(r) - degree(y);
    let s = spec_monomial(c, d);
    let sy = spec_poly_mul(s, y, n);
    let r2 = step_remainder(r, y, c, d, n);
    lemma_degree(r);
    lemma_degree(y);
    if n > 0 {
        lemma_small_mod(0, n as nat);
    }
    assert forall|k: int| degree(r) <= k implies coef(r2, k) == 0 by {
        lemma_conv_monomial(c, d, y, k, d + 1);
        let term = c * coef(y, k - d);
        if 0 <= k < r2.len() {
            if k < sy.len() {
                assert(coef(sy, k) == reduce(term, n));
            } else {
                assert(coef(sy, k) == 0);
                assert(coef(y, k - d) == 0);
                assert(term == 0) by (nonlinear_arith)
                    requires
                        term == c * coef(y, k - d),
                        coef(y, k - d) == 0,
                ;
            }
            assert(coef(sy, k) == reduce(term, n));
            if k > degree(r) {
                assert(coef(y, k - d) == 0);
                assert(term == 0) by (nonlinear_arith)
                    requires
                        term == c * coef(y, k - d),
                        coef(y, k - d) == 0,
                ;
            } else {
                assert(term == c * leading(y));
                lemma_congruent_self(0, n);
                lemma_congruent_self(leading(r), n);
                lemma_congruent(term, leading(r), 0, 0, n);
                lemma_congruent(leading(r), leading(r), reduce(term, n), leading(r), n);
            }
        }
    }
}

/// What is left to divide: zero for the zero polynomial, else one more than
/// the degree.
pub open spec fn remaining(r: Seq<int>) -> nat {
    if is_zero_poly(r) {
        0
    } else {
        (degree(r) + 1) as nat
    }
}

/// With a modulus and reduced operands, a step of the division can be made
/// in the coefficient type, its term clears the leading coefficient of the
/// remainder, and quotient and remainder stay reduced.
pub proof fn lemma_modular_step(
    q: Seq<int>,
    r: Seq<int>,
    y: Seq<int>,
    n: int,
    lo: int,
    hi: int,
    ci: int,
)
    requires
        canonical(q, n),
        canonical(r, n),
        canonical(y, n),
        n * n <= hi,
        lo <= 0,
        lo < 0 ==> lo <= -n,
        0 <= ci <= n,
        divisible(r, y),
        congruent(leading(y) * ci, 1, n),
    ensures
        2 <= n,
        mul_mod_fits(leading(r), ci, n, lo, hi),
        0 <= spec_mul_mod(leading(r), ci, n) < n,
        congruent(spec_mul_mod(leading(r), ci, n) * leading(y), leading(r), n),
        poly_add_fits(
            q,
            spec_monomial(spec_mul_mod(leading(r), ci, n), degree(r) - degree(y)),
            n,
            lo,
            hi,
        ),
        poly_mul_fits(
            spec_monomial(spec_mul_mod(leading(r), ci, n), degree(r) - degree(y)),
            y,
            n,
            lo,
            hi,
        ),
        poly_sub_fits(
            r,
            spec_poly_mul(
                spec_monomial(spec_mul_mod(leading(r), ci, n), degree(r) - degree(y)),
                y,
                n,
            ),
            n,
            lo,
            hi,
        ),
        canonical(
            step_quotient(q, spec_mul_mod(leading(r), ci, n), degree(r) - degree(y), n),
            n,
        ),
        canonical(
            step_remainder(r, y, spec_mul_mod(leading(r), ci, n), degree(r) - degree(y), n),
            n,
        ),
{
    lemma_degree(r);
    lemma_degree(y);
    let rc = leading(r);
    let c = leading(y);
    let d = degree(r) - degree(y);
    assert(0 < rc < n);
    assert(0 <= c < n) by {
        if y.len() > 0 {
            assert(0 <= y[degree(y)] < n);
        }
    }
    let p = rc * ci;
    assert(0 <= p <= n * n) by (nonlinear_arith)
        requires
            p == rc * ci,
            0 <= rc < n,
            0 <= ci <= n,
    ;
    let t = spec_mul_mod(rc, ci, n);
    lemma_trunc_rem(p, n);
    lemma_mod_bound(p, n);
    assert(t == p % n);
    // the term times the leading coefficient of the divisor is the leading
    // coefficient of the remainder
    lemma_congruent_self(p, n);
    assert(congruent(t, p, n));
    lemma_congruent_scale(t, p, c, n);
    lemma_congruent_scale(c * ci, 1, rc, n);
    assert(p * c == rc * (c * ci)) by (nonlinear_arith)
        requires
            p == rc * ci,
    ;
    lemma_congruent_chain(t * c, p * c, rc * 1, n);
    assert(rc * 1 == rc) by (nonlinear_arith);
    // what the three calls of a step ask for
    let s = spec_monomial(t, d);
    let sy = spec_poly_mul(s, y, n);
    assert(2 * (n - 1) <= n * n) by (nonlinear_arith)
        requires
            n >= 1,
    ;
    assert forall|i: int| 0 <= i < longer(q.len() as int, s.len() as int) implies add_mod_fits(
        #[trigger] coef(q, i),
        coef(s, i),
        n,
        lo,
        hi,
    ) by {
        assert(0 <= coef(q, i) < n);
        assert(0 <= coef(s, i) < n);
    }
    assert forall|i: int, j: int| 0 <= i < s.len() && 0 <= j < y.len() implies mul_mod_fits(
        #[trigger] s[i],
        #[trigger] y[j],
        n,
        lo,
        hi,
    ) by {
        assert(0 <= s[i] * y[j] <= n * n) by (nonlinear_arith)
            requires
                0 <= s[i] < n,
                0 <= y[j] < n,
        ;
    }
    assert forall|i: int| 0 <= i < sy.len() implies 0 <= #[trigger] sy[i] < n by {
        lemma_mod_bound(product_coef(s, y, i), n);
    }
    assert forall|i: int| 0 <= i < longer(r.len() as int, sy.len() as int) implies sub_mod_fits(
        #[trigger] coef(r, i),
        coef(sy, i),
        n,
        lo,
        hi,
    ) by {
        assert(0 <= coef(r, i) < n);
        assert(0 <= coef(sy, i) < n);
    }
    let q2 = step_quotient(q, t, d, n);
    assert forall|i: int| 0 <= i < q2.len() implies 0 <= #[trigger] q2[i] < n by {
        lemma_mod_bound(coef(q, i) + coef(s, i), n);
    }
    let r2 = step_remainder(r, y, t, d, n);
    assert forall|i: int| 0 <= i < r2.len() implies 0 <= #[trigger] r2[i] < n by {
        lemma_mod_bound(coef(r, i) - coef(sy, i), n);
    }
}

/// Over the integers, a division by 1 or -1 that rounds towards zero is
/// exact.
pub proof fn lemma_unit_quotient(a: int, c: int)
    requires
        c == 1 || c == -1,
    ensures
        trunc_div(a, c) * c == a,
        a != 0 ==> trunc_div(a, c) != 0,
{
    let m = if a >= 0 { a } else { -a };
    vstd::arithmetic::div_mod::lemma_fundamental_div_mod(m, c);
    lemma_mod_bound(m, 1);
    let q = m / c;
    let s = m % c;
    assert(s == 0);
    assert(q * c == m) by (nonlinear_arith)
        requires
            m == c * q + s,
            s == 0,
    ;
    assert(trunc_div(a, c) * c == a) by (nonlinear_arith)
        requires
            q * c == m,
            trunc_div(a, c) == if a >= 0 { q } else { -q },
            m == if a >= 0 { a } else { -a },
    ;
    if a != 0 && trunc_div(a, c) == 0 {
        assert(trunc_div(a, c) * c == 0) by (nonlinear_arith)
            requires
                trunc_div(a, c) == 0,
        ;
    }
}

/// Euclidean division of `x` by `y` with coefficients modulo `n`: the
/// quotient `q` and the remainder `r` with `q * y + r` congruent to `x`, where
/// the remainder is zero or of a degree below that of `y`.
///
/// The quotient has the length of the longer operand. The remainder is a
/// step's difference and as long as that: it ends in zeros.
pub fn euclid_div<T: TRestrictions>(x: &[T], y: &[T], n: T) -> (out: (Vec<T>, Vec<T>))
    requires
        euclid_div_fits(values(x@), values(y@), n.value(), T::lowest(), T::highest()),
    ensures
        division_holds(values(out.0@), values(out.1@), values(y@), values(x@), n.value()),
        !divisible(values(out.1@), values(y@)),
        out.0@.len() == longer(x@.len() as int, y@.len() as int),
        out.1@.len() == longer(x@.len() as int, y@.len() as int) + if divisible(
            values(x@),
            values(y@),
        ) {
            degree(values(x@)) - degree(values(y@)) + 1
        } else {
            0
        },
        !divisible(values(x@), values(y@)) ==> is_zero_poly(values(out.0@)) && values(out.1@)
            == spec_pad(values(x@), y@.len() as int),
        n.value() > 0 ==> canonical(values(out.0@), n.value()) && canonical(
            values(out.1@),
            n.value(),
        ),
        forall|i: int|
            degree(values(x@)) - degree(values(y@)) < i ==> coef(values(out.0@), i) == 0,
        is_division(values(out.0@), values(out.1@), values(x@), values(y@), n.value()),
{
    let ghost xv = values(x@);
    let ghost yv = values(y@);
    let ghost nv = n.value();
    let ghost lo = T::lowest();
    let ghost hi = T::highest();
    let ghost l = longer(x@.len() as int, y@.len() as int);
    let (xp, yp) = normalize(x, y);
    let ghost ypv = values(yp@);
    let mut q = zeros::<T>(xp.len());
    let mut r = pad(xp.as_slice(), 0);
    let (d, c) = leading_coefficient(yp.as_slice());
    let (mut r_d, mut r_c) = leading_coefficient(r.as_slice());
    let ghost mut ran = false;
    let ghost mut steps: nat = l as nat;
    proof {
        T::lemma_value(n, n);
        lemma_pad(xv, y@.len() as int);
        lemma_pad(yv, x@.len() as int);
        lemma_degree(xv);
        lemma_degree(values(r@));
        assert(r@ =~= xp@);
        assert forall|k: int|
            congruent(
                #[trigger] product_coef(values(q@), yv, k) + coef(values(r@), k),
                coef(xv, k),
                nv,
            ) by {
            lemma_conv_zero(values(q@), yv, k, values(q@).len() as int);
            lemma_congruent_self(coef(xv, k), nv);
        }
        assert(nv > 0 ==> canonical(values(q@), nv)) by {
            if nv > 0 {
                assert forall|i: int| 0 <= i < values(q@).len() implies 0 <= #[trigger] values(
                    q@,
                )[i] < nv by {
                    assert(q@[i].value() == 0);
                }
            }
        }
        assert(is_zero_poly(values(q@))) by {
            assert forall|i: int| 0 <= i < values(q@).len() implies values(q@)[i] == 0 by {
                assert(q@[i].value() == 0);
            }
        }
    }
    while r_d >= d && !is_zero(r.as_slice())
        invariant
            xv == values(x@),
            yv == values(y@),
            nv == n.value(),
            lo == T::lowest(),
            hi == T::highest(),
            l == longer(x@.len() as int, y@.len() as int),
            ypv == values(yp@),
            ypv == spec_pad(yv, x@.len() as int),
            euclid_div_fits(xv, yv, nv, lo, hi),
            lo <= 0,
            yp@.len() == l,
            d == degree(yv),
            d == degree(ypv),
            c.value() == leading(yv),
            leading(ypv) == leading(yv),
            forall|i: int| coef(ypv, i) == coef(yv, i),
            q@.len() == l,
            l <= r@.len() <= 2 * l,
            r_d == degree(values(r@)),
            r_c.value() == leading(values(r@)),
            degree(values(r@)) <= degree(xv),
            degree(xv) < l || l == 0,
            division_holds(values(q@), values(r@), yv, xv, nv),
            nv > 0 ==> canonical(values(q@), nv) && canonical(values(r@), nv) && canonical(
                ypv,
                nv,
            ),
            nv == 0 ==> plain_division_fits(values(r@), ypv, lo, hi, steps) && remaining(
                values(r@),
            ) <= steps,
            nv == 0 && divisible(values(r@), yv) ==> forall|i: int|
                0 <= i <= r_d - d ==> coef(values(q@), i) == 0,
            !ran ==> is_zero_poly(values(q@)) && values(r@) == spec_pad(xv, y@.len() as int)
                && r@.len() == l,
            ran ==> divisible(xv, yv) && r@.len() == l + degree(xv) - d + 1,
            forall|i: int| degree(xv) - d < i ==> coef(values(q@), i) == 0,
        decreases remaining(values(r@)),
    {
        let ghost qv = values(q@);
        let ghost rv = values(r@);
        let idx = r_d - d;
        proof {
            lemma_degree(rv);
            lemma_degree(yv);
            lemma_degree(ypv);
            assert(divisible(rv, ypv));
            if nv == 0 {
                lemma_unit_quotient(leading(rv), leading(ypv));
            } else {
                assert(rv[degree(rv)] != 0);
                assert(nv >= 2);
                lemma_inv_bound(leading(yv), nv, lo < 0);
                T::lemma_value(c, n);
                T::lemma_value(n, c);
            }
        }
        let c_idx = if is_zero_coefficient(n) {
            plain_quotient(r_c, c)
        } else {
            let ci = T::inv(c, n);
            proof {
                assert(leading(ypv) * ci.value() == leading(yv) * spec_inv(
                    leading(yv),
                    nv,
                    lo < 0,
                ));
                lemma_modular_step(qv, rv, ypv, nv, lo, hi, ci.value());
            }
            r_c.mul_mod(ci, n)
        };
        let ghost t = c_idx.value();
        let s = monomial(c_idx, idx);
        proof {
            assert(values(s@) == spec_monomial(t, idx as int));
            assert(congruent(t * leading(ypv), leading(rv), nv));
            if nv == 0 {
                assert forall|i: int|
                    0 <= i < longer(qv.len() as int, values(s@).len() as int) implies add_mod_fits(
                    #[trigger] coef(qv, i),
                    coef(values(s@), i),
                    nv,
                    lo,
                    hi,
                ) by {
                    T::lemma_value(q@[i], q@[i]);
                    assert(qv[i] == q@[i].value());
                    if i <= idx {
                        assert(coef(qv, i) == 0);
                    } else {
                        assert(coef(values(s@), i) == 0);
                    }
                }
            }
        }
        q = poly_add(q.as_slice(), s.as_slice(), n);
        let sy = poly_mul(s.as_slice(), yp.as_slice(), n);
        r = poly_sub(r.as_slice(), sy.as_slice(), n);
        let tmp = leading_coefficient(r.as_slice());
        proof {
            lemma_division_step(qv, rv, yv, ypv, xv, nv, t, idx as int);
            lemma_remainder_shrinks(rv, ypv, nv, t);
            let r2 = step_remainder(rv, ypv, t, idx as int, nv);
            assert(values(r@) == r2);
            assert(values(q@) == step_quotient(qv, t, idx as int, nv));
            assert(idx < l);
            assert(step_quotient(qv, t, idx as int, nv).len() == l);
            assert(values(q@).len() == q@.len());
            lemma_degree_below(r2, degree(rv));
            lemma_degree(r2);
            if nv == 0 {
                assert(steps > 0);
                steps = (steps - 1) as nat;
                if divisible(r2, yv) {
                    assert forall|i: int| 0 <= i <= degree(r2) - d implies coef(values(q@), i)
                        == 0 by {
                        assert(coef(qv, i) == 0);
                        assert(coef(values(s@), i) == 0);
                    }
                }
            }
            if !ran {
                lemma_pad(xv, y@.len() as int);
            }
            ran = true;
            if nv > 0 {
                lemma_small_mod(0, nv as nat);
            }
            assert forall|i: int| degree(xv) - d < i implies coef(values(q@), i) == 0 by {
                assert(coef(qv, i) == 0);
                assert(coef(values(s@), i) == 0);
            }
        }
        r_d = tmp.0;
        r_c = tmp.1;
    }
    proof {
        lemma_pad(xv, y@.len() as int);
    }
    (q, r)
}

} // verus!
