//! Polynomials as sequences of integers: what the kernel computes.
//!
//! A polynomial is the sequence of its coefficients, the constant term
//! first. Trailing zeros are allowed, and an index past the end reads as zero.

use crate::integer::{
    add_mod_fits, in_range, mul_mod_fits, reduce, spec_add_mod, spec_sub_mod, sub_mod_fits,
    trunc_rem, Integer,
};
use crate::inverse::congruent;
use vstd::arithmetic::div_mod::{
    lemma_add_mod_noop, lemma_fundamental_div_mod, lemma_fundamental_div_mod_converse,
    lemma_mod_bound, lemma_mod_twice, lemma_small_mod, lemma_sub_mod_noop,
};
use vstd::prelude::*;

verus! {

/// The integers that a sequence of coefficients stands for.
pub open spec fn values<T: Integer>(s: Seq<T>) -> Seq<int> {
    s.map_values(|c: T| c.value())
}

/// The coefficient of `x^i`; zero outside the sequence.
pub open spec fn coef(p: Seq<int>, i: int) -> int {
    if 0 <= i < p.len() {
        p[i]
    } else {
        0
    }
}

/// The larger of two lengths.
pub open spec fn longer(a: int, b: int) -> int {
    if a >= b {
        a
    } else {
        b
    }
}

/// `p` with zeros appended up to the length `l`.
pub open spec fn spec_pad(p: Seq<int>, l: int) -> Seq<int> {
    Seq::new(longer(p.len() as int, l) as nat, |i: int| coef(p, i))
}

/// Whether every coefficient is zero.
pub open spec fn is_zero_poly(p: Seq<int>) -> bool {
    forall|i: int| 0 <= i < p.len() ==> p[i] == 0
}

/// The greatest index of a coefficient that is not zero; 0 for the zero
/// polynomial.
pub open spec fn degree(p: Seq<int>) -> int
    decreases p.len(),
{
    if p.len() == 0 {
        0
    } else if p.last() != 0 {
        p.len() - 1
    } else {
        degree(p.drop_last())
    }
}

/// The coefficient at the degree; 0 for the zero polynomial.
pub open spec fn leading(p: Seq<int>) -> int {
    coef(p, degree(p))
}

/// `p` without the zeros above its degree.
pub open spec fn spec_truncate(p: Seq<int>) -> Seq<int> {
    Seq::new((degree(p) + 1) as nat, |i: int| coef(p, i))
}

/// The polynomial `c * x^d`.
pub open spec fn spec_monomial(c: int, d: int) -> Seq<int> {
    Seq::new((d + 1) as nat, |i: int| if i == d { c } else { 0 })
}

/// The sum of two polynomials, coefficient by coefficient modulo `n`.
pub open spec fn spec_poly_add(x: Seq<int>, y: Seq<int>, n: int) -> Seq<int> {
    Seq::new(
        longer(x.len() as int, y.len() as int) as nat,
        |i: int| spec_add_mod(coef(x, i), coef(y, i), n),
    )
}

/// The difference of two polynomials, coefficient by coefficient modulo `n`.
pub open spec fn spec_poly_sub(x: Seq<int>, y: Seq<int>, n: int) -> Seq<int> {
    Seq::new(
        longer(x.len() as int, y.len() as int) as nat,
        |i: int| spec_sub_mod(coef(x, i), coef(y, i), n),
    )
}

/// The part of the coefficient of `x^k` in the product `x * y` that the first
/// `m` coefficients of `x` contribute.
pub open spec fn conv(x: Seq<int>, y: Seq<int>, k: int, m: int) -> int
    decreases m,
{
    if m <= 0 {
        0
    } else {
        conv(x, y, k, m - 1) + coef(x, m - 1) * coef(y, k - (m - 1))
    }
}

/// The coefficient of `x^k` in the product `x * y`.
pub open spec fn product_coef(x: Seq<int>, y: Seq<int>, k: int) -> int {
    conv(x, y, k, x.len() as int)
}

/// The product of two polynomials over the integers.
pub open spec fn spec_poly_mul_plain(x: Seq<int>, y: Seq<int>) -> Seq<int> {
    Seq::new(x.len() + y.len(), |k: int| product_coef(x, y, k))
}

/// The product of two polynomials with coefficients modulo `n`.
pub open spec fn spec_poly_mul(x: Seq<int>, y: Seq<int>, n: int) -> Seq<int> {
    Seq::new(x.len() + y.len(), |k: int| reduce(product_coef(x, y, k), n))
}

/// The inputs on which `poly_add` is defined, for a coefficient type with the
/// range `lo..=hi`: each pair of coefficients can be added.
pub open spec fn poly_add_fits(x: Seq<int>, y: Seq<int>, n: int, lo: int, hi: int) -> bool {
    forall|i: int|
        0 <= i < longer(x.len() as int, y.len() as int) ==> add_mod_fits(
            #[trigger] coef(x, i),
            coef(y, i),
            n,
            lo,
            hi,
        )
}

/// The inputs on which `poly_sub` is defined, for a coefficient type with the
/// range `lo..=hi`: each pair of coefficients can be subtracted.
pub open spec fn poly_sub_fits(x: Seq<int>, y: Seq<int>, n: int, lo: int, hi: int) -> bool {
    forall|i: int|
        0 <= i < longer(x.len() as int, y.len() as int) ==> sub_mod_fits(
            #[trigger] coef(x, i),
            coef(y, i),
            n,
            lo,
            hi,
        )
}

/// The coefficient of `x^k` after the rows below `i` of the product and the
/// first `j` entries of the row `i` have been added up.
pub open spec fn row_partial(x: Seq<int>, y: Seq<int>, k: int, i: int, j: int) -> int {
    conv(x, y, k, i) + if i <= k < i + j {
        coef(x, i) * coef(y, k - i)
    } else {
        0
    }
}

/// The inputs on which the product over the integers is defined, for a
/// coefficient type with the range `lo..=hi`: every product of two
/// coefficients and every sum on the way to a coefficient of the result is a
/// value of the type.
pub open spec fn poly_mul_plain_fits(x: Seq<int>, y: Seq<int>, lo: int, hi: int) -> bool {
    &&& forall|i: int, j: int|
        0 <= i < x.len() && 0 <= j < y.len() ==> in_range(#[trigger] (x[i] * y[j]), lo, hi)
    &&& forall|k: int, m: int|
        0 <= k < x.len() + y.len() && 0 <= m <= x.len() ==> in_range(
            #[trigger] conv(x, y, k, m),
            lo,
            hi,
        )
}

/// The inputs on which the product modulo `n` is defined, for a coefficient
/// type with the range `lo..=hi`. The modulus is not negative, every product
/// of two coefficients can be had, and the sums fit: over the integers each sum
/// on the way to a coefficient of the result, and with a modulus the sum of two
/// remainders.
pub open spec fn poly_mul_fits(x: Seq<int>, y: Seq<int>, n: int, lo: int, hi: int) -> bool {
    &&& 0 <= n
    &&& forall|i: int, j: int|
        0 <= i < x.len() && 0 <= j < y.len() ==> mul_mod_fits(#[trigger] x[i], #[trigger] y[j], n, lo, hi)
    &&& n == 0 ==> forall|k: int, m: int|
        0 <= k < x.len() + y.len() && 0 <= m <= x.len() ==> in_range(
            #[trigger] conv(x, y, k, m),
            lo,
            hi,
        )
    &&& n > 0 ==> 2 * (n - 1) <= hi && (lo < 0 ==> lo <= -(n - 1))
}

/// Each further coefficient of `x` adds its product to the sum.
pub proof fn lemma_conv_step(x: Seq<int>, y: Seq<int>, k: int, i: int)
    requires
        0 <= i,
    ensures
        conv(x, y, k, i + 1) == conv(x, y, k, i) + coef(x, i) * coef(y, k - i),
        row_partial(x, y, k, i, 0) == conv(x, y, k, i),
        row_partial(x, y, k, i, y.len() as int) == conv(x, y, k, i + 1),
{
    if !(i <= k < i + y.len()) {
        assert(coef(x, i) * coef(y, k - i) == 0) by (nonlinear_arith)
            requires
                coef(y, k - i) == 0,
        ;
    }
}

/// The remainder that keeps the sign is congruent to the number itself, and
/// smaller in size than the modulus.
pub proof fn lemma_trunc_rem(p: int, n: int)
    requires
        n > 0,
    ensures
        trunc_rem(p, n) % n == p % n,
        -n < trunc_rem(p, n) < n,
        p >= 0 ==> trunc_rem(p, n) >= 0,
{
    if p >= 0 {
        lemma_mod_bound(p, n);
        lemma_mod_twice(p, n);
    } else {
        lemma_mod_bound(-p, n);
        lemma_fundamental_div_mod(-p, n);
        let q = (-p) / n;
        let s = (-p) % n;
        lemma_fundamental_div_mod(-s, n);
        let q2 = (-s) / n;
        let s2 = (-s) % n;
        lemma_mod_bound(-s, n);
        assert(p == (q2 - q) * n + s2) by (nonlinear_arith)
            requires
                -p == n * q + s,
                -s == n * q2 + s2,
        ;
        lemma_fundamental_div_mod_converse(p, n, q2 - q, s2);
    }
}

/// Adding a product that was cut down to its remainder, to a sum that was
/// reduced, gives the reduced sum.
pub proof fn lemma_accumulate(s: int, p: int, n: int)
    requires
        n >= 0,
    ensures
        spec_add_mod(reduce(s, n), crate::integer::spec_mul_mod_of(p, n), n) == reduce(s + p, n),
{
    if n > 0 {
        let tr = trunc_rem(p, n);
        lemma_trunc_rem(p, n);
        lemma_add_mod_noop(s % n, tr, n);
        lemma_mod_twice(s, n);
        lemma_add_mod_noop(s, p, n);
    }
}

/// On inputs that fit, one term of the product can be multiplied and added
/// to the reduced sum before it, and the result is the reduced sum with the
/// term.
pub proof fn lemma_term_fits<T: Integer>(
    x: Seq<int>,
    y: Seq<int>,
    n: int,
    i: int,
    j: int,
    a: T,
    b: T,
)
    requires
        poly_mul_fits(x, y, n, T::lowest(), T::highest()),
        0 <= i < x.len(),
        0 <= j < y.len(),
        a.value() == x[i],
        b.value() == y[j],
    ensures
        mul_mod_fits(x[i], y[j], n, T::lowest(), T::highest()),
        add_mod_fits(
            reduce(conv(x, y, i + j, i), n),
            crate::integer::spec_mul_mod(x[i], y[j], n),
            n,
            T::lowest(),
            T::highest(),
        ),
        spec_add_mod(
            reduce(conv(x, y, i + j, i), n),
            crate::integer::spec_mul_mod(x[i], y[j], n),
            n,
        ) == reduce(row_partial(x, y, i + j, i, j + 1), n),
        row_partial(x, y, i + j, i, j) == conv(x, y, i + j, i),
{
    let lo = T::lowest();
    let hi = T::highest();
    let s = conv(x, y, i + j, i);
    let p = x[i] * y[j];
    assert(mul_mod_fits(x[i], y[j], n, lo, hi));
    lemma_conv_step(x, y, i + j, i);
    lemma_accumulate(s, p, n);
    T::lemma_value(a, b);
    T::lemma_value(b, a);
    if n == 0 {
        assert(in_range(conv(x, y, i + j, i + 1), lo, hi));
    } else {
        lemma_mod_bound(s, n);
        lemma_trunc_rem(p, n);
        if lo >= 0 {
            assert(p >= 0) by (nonlinear_arith)
                requires
                    p == x[i] * y[j],
                    x[i] >= 0,
                    y[j] >= 0,
            ;
        }
    }
}

/// Whether every coefficient is the representative in `0..n` of its class.
pub open spec fn canonical(p: Seq<int>, n: int) -> bool {
    forall|i: int| 0 <= i < p.len() ==> 0 <= #[trigger] p[i] < n
}

/// `q * y + r` is `x`, coefficient by coefficient modulo `n`.
pub open spec fn division_holds(
    q: Seq<int>,
    r: Seq<int>,
    y: Seq<int>,
    x: Seq<int>,
    n: int,
) -> bool {
    forall|k: int| congruent(#[trigger] product_coef(q, y, k) + coef(r, k), coef(x, k), n)
}

/// Congruence modulo `n` is kept by sums and differences, and a number is
/// congruent to its representative.
pub proof fn lemma_congruent(a: int, b: int, c: int, d: int, n: int)
    requires
        n >= 0,
        congruent(a, b, n),
        congruent(c, d, n),
    ensures
        congruent(a + c, b + d, n),
        congruent(a - c, b - d, n),
        congruent(b, a, n),
        congruent(reduce(a, n), b, n),
        congruent(a, reduce(b, n), n),
        congruent(a, a, n),
{
    if n > 0 {
        lemma_small_mod(0, n as nat);
        lemma_add_mod_noop(a - b, c - d, n);
        lemma_sub_mod_noop(a - b, c - d, n);
        lemma_sub_mod_noop(0, a - b, n);
        lemma_sub_mod_noop(a, b, n);
        lemma_sub_mod_noop(a % n, b, n);
        lemma_sub_mod_noop(a, b % n, n);
        lemma_mod_twice(a, n);
        lemma_mod_twice(b, n);
    }
}

/// Every number is congruent to itself and to its representative.
pub proof fn lemma_congruent_self(a: int, n: int)
    requires
        n >= 0,
    ensures
        congruent(a, a, n),
        congruent(reduce(a, n), a, n),
        congruent(a, reduce(a, n), n),
{
    if n > 0 {
        lemma_small_mod(0, n as nat);
        lemma_sub_mod_noop(a % n, a, n);
        lemma_sub_mod_noop(a, a % n, n);
        lemma_mod_twice(a, n);
    }
}

/// Congruence modulo `n` is transitive.
pub proof fn lemma_congruent_chain(a: int, b: int, c: int, n: int)
    requires
        n >= 0,
        congruent(a, b, n),
        congruent(b, c, n),
    ensures
        congruent(a, c, n),
{
    if n > 0 {
        lemma_add_mod_noop(a - b, b - c, n);
        lemma_small_mod(0, n as nat);
    }
}

/// Congruence modulo `n` is kept by a common factor.
pub proof fn lemma_congruent_scale(a: int, b: int, c: int, n: int)
    requires
        n >= 0,
        congruent(a, b, n),
    ensures
        congruent(a * c, b * c, n),
        congruent(c * a, c * b, n),
{
    assert(a * c - b * c == (a - b) * c) by (nonlinear_arith);
    assert(c * a - c * b == (a - b) * c) by (nonlinear_arith);
    if n > 0 {
        vstd::arithmetic::div_mod::lemma_mul_mod_noop_left(a - b, c, n);
        assert(((a - b) % n) * c == 0) by (nonlinear_arith)
            requires
                (a - b) % n == 0,
        ;
        lemma_small_mod(0, n as nat);
    }
}

/// Padding changes neither the coefficients nor the degree.
pub proof fn lemma_pad(p: Seq<int>, l: int)
    ensures
        forall|i: int| coef(spec_pad(p, l), i) == coef(p, i),
        degree(spec_pad(p, l)) == degree(p),
        leading(spec_pad(p, l)) == leading(p),
        is_zero_poly(spec_pad(p, l)) == is_zero_poly(p),
        spec_pad(p, l).len() == longer(p.len() as int, l),
    decreases l,
{
    if l > p.len() {
        lemma_pad(p, l - 1);
        let before = spec_pad(p, l - 1);
        assert(spec_pad(p, l) =~= before.push(0));
        lemma_degree_push(before, 0);
        lemma_degree(p);
    } else {
        assert(spec_pad(p, l) =~= p);
    }
    let padded = spec_pad(p, l);
    if is_zero_poly(p) {
        assert forall|i: int| 0 <= i < padded.len() implies padded[i] == 0 by {
            assert(padded[i] == coef(p, i));
        }
    }
    if is_zero_poly(padded) {
        assert forall|i: int| 0 <= i < p.len() implies p[i] == 0 by {
            assert(padded[i] == p[i]);
        }
    }
}

/// Where all coefficients from `m` on are zero, the degree is below `m`, or
/// the polynomial is zero.
pub proof fn lemma_degree_below(p: Seq<int>, m: int)
    requires
        forall|k: int| m <= k ==> coef(p, k) == 0,
    ensures
        m >= 1 ==> degree(p) < m,
        m <= 0 ==> is_zero_poly(p),
        degree(p) < m || is_zero_poly(p),
{
    lemma_degree(p);
    if degree(p) >= m {
        assert(coef(p, degree(p)) == 0);
    }
}

/// The terms of the product past the end of `a` are zero.
pub proof fn lemma_conv_extend(a: Seq<int>, y: Seq<int>, k: int, m: int)
    requires
        m >= a.len(),
    ensures
        conv(a, y, k, m) == conv(a, y, k, a.len() as int),
    decreases m,
{
    if m > a.len() {
        lemma_conv_extend(a, y, k, m - 1);
        assert(coef(a, m - 1) * coef(y, k - (m - 1)) == 0) by (nonlinear_arith)
            requires
                coef(a, m - 1) == 0,
        ;
    }
}

/// The product with the zero polynomial is zero.
pub proof fn lemma_conv_zero(q: Seq<int>, y: Seq<int>, k: int, m: int)
    requires
        forall|i: int| 0 <= i < m ==> coef(q, i) == 0,
    ensures
        conv(q, y, k, m) == 0,
    decreases m,
{
    if m > 0 {
        lemma_conv_zero(q, y, k, m - 1);
        assert(coef(q, m - 1) * coef(y, k - (m - 1)) == 0) by (nonlinear_arith)
            requires
                coef(q, m - 1) == 0,
        ;
    }
}

/// The product of a monomial with `y` is `y`, scaled and shifted.
pub proof fn lemma_conv_monomial(c: int, d: int, y: Seq<int>, k: int, m: int)
    requires
        0 <= d,
        0 <= m <= d + 1,
    ensures
        conv(spec_monomial(c, d), y, k, m) == if m == d + 1 {
            c * coef(y, k - d)
        } else {
            0
        },
    decreases m,
{
    if m > 0 {
        lemma_conv_monomial(c, d, y, k, m - 1);
        let s = spec_monomial(c, d);
        if m - 1 < d {
            assert(coef(s, m - 1) * coef(y, k - (m - 1)) == 0) by (nonlinear_arith)
                requires
                    coef(s, m - 1) == 0,
            ;
        }
    }
}

/// The product is additive in its first factor, modulo `n`.
pub proof fn lemma_conv_linear(
    sum: Seq<int>,
    a: Seq<int>,
    b: Seq<int>,
    y: Seq<int>,
    k: int,
    m: int,
    n: int,
)
    requires
        n >= 0,
        forall|i: int| 0 <= i < m ==> congruent(#[trigger] coef(sum, i), coef(a, i) + coef(b, i), n),
    ensures
        congruent(conv(sum, y, k, m), conv(a, y, k, m) + conv(b, y, k, m), n),
    decreases m,
{
    if m > 0 {
        lemma_conv_linear(sum, a, b, y, k, m - 1, n);
        let c = coef(y, k - (m - 1));
        assert(congruent(coef(sum, m - 1), coef(a, m - 1) + coef(b, m - 1), n));
        lemma_congruent_scale(coef(sum, m - 1), coef(a, m - 1) + coef(b, m - 1), c, n);
        assert((coef(a, m - 1) + coef(b, m - 1)) * c == coef(a, m - 1) * c + coef(b, m - 1) * c)
            by (nonlinear_arith);
        lemma_congruent(
            conv(sum, y, k, m - 1),
            conv(a, y, k, m - 1) + conv(b, y, k, m - 1),
            coef(sum, m - 1) * c,
            coef(a, m - 1) * c + coef(b, m - 1) * c,
            n,
        );
    } else if n > 0 {
        lemma_small_mod(0, n as nat);
    }
}

/// The degree of a sequence that ends in a coefficient other than zero is its
/// last index; a zero at the end does not count.
pub proof fn lemma_degree_push(p: Seq<int>, c: int)
    ensures
        degree(p.push(c)) == if c != 0 {
            p.len() as int
        } else {
            degree(p)
        },
{
    assert(p.push(c).drop_last() =~= p);
}

/// The degree is an index of the sequence, the coefficient there is not zero
/// unless all are, and all above it are zero.
pub proof fn lemma_degree(p: Seq<int>)
    ensures
        0 <= degree(p),
        p.len() > 0 ==> degree(p) < p.len(),
        is_zero_poly(p) <==> leading(p) == 0,
        is_zero_poly(p) ==> degree(p) == 0,
        forall|i: int| degree(p) < i ==> coef(p, i) == 0,
    decreases p.len(),
{
    if p.len() > 0 {
        let q = p.drop_last();
        lemma_degree(q);
        if p.last() == 0 {
            assert(forall|i: int| 0 <= i < q.len() ==> q[i] == p[i]);
            assert forall|i: int| degree(p) < i implies coef(p, i) == 0 by {
                if i < q.len() {
                    assert(coef(q, i) == 0);
                }
            }
            if is_zero_poly(q) {
                assert forall|i: int| 0 <= i < p.len() implies p[i] == 0 by {
                    if i < q.len() {
                        assert(q[i] == 0);
                    }
                }
            }
            if is_zero_poly(p) {
                assert forall|i: int| 0 <= i < q.len() implies q[i] == 0 by {
                    assert(p[i] == 0);
                }
            }
            if q.len() > 0 {
                assert(coef(q, degree(q)) == coef(p, degree(q)));
            }
        } else {
            assert(!is_zero_poly(p));
        }
    }
}

} // verus!
