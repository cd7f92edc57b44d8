//! Laws of the arithmetic of polynomials.

use crate::algebra::{
    lemma_conv_commutative, lemma_conv_constant, lemma_conv_difference, lemma_conv_same,
    lemma_conv_shift, lemma_product_coef_mod, lemma_product_not_zero, lemma_same_coefficients,
    lemma_truncate, reduce_poly,
};
use crate::division::{divisible, is_division, leading_unit};
use crate::inverse::{congruent, gcd, lemma_inv_inverts};
use crate::inversion::{bezout_holds, inverts};
use crate::poly::reduced;
use crate::ring::{
    canonical, coef, degree, division_holds, is_zero_poly, leading, lemma_congruent,
    lemma_congruent_chain, lemma_congruent_self, lemma_conv_extend, lemma_conv_zero,
    lemma_degree, lemma_degree_push, longer, product_coef, spec_poly_add, spec_poly_mul,
    spec_poly_sub, spec_truncate,
};
use vstd::arithmetic::div_mod::{lemma_add_mod_noop, lemma_mod_twice, lemma_small_mod};
use vstd::prelude::*;

verus! {

/// Addition is commutative: `a + b` is `b + a`.
pub proof fn lemma_add_commutative(a: Seq<int>, b: Seq<int>, n: int)
    ensures
        spec_poly_add(a, b, n) == spec_poly_add(b, a, n),
{
    assert(spec_poly_add(a, b, n) =~= spec_poly_add(b, a, n));
}

/// Addition is associative: `(a + b) + c` is `a + (b + c)`.
pub proof fn lemma_add_associative(a: Seq<int>, b: Seq<int>, c: Seq<int>, n: int)
    requires
        0 <= n,
    ensures
        spec_poly_add(spec_poly_add(a, b, n), c, n) == spec_poly_add(a, spec_poly_add(b, c, n), n),
{
    let left = spec_poly_add(spec_poly_add(a, b, n), c, n);
    let right = spec_poly_add(a, spec_poly_add(b, c, n), n);
    assert(left.len() == right.len());
    assert forall|i: int| 0 <= i < left.len() implies left[i] == right[i] by {
        if n > 0 {
            let x = coef(a, i);
            let y = coef(b, i);
            let z = coef(c, i);
            lemma_small_mod(0, n as nat);
            lemma_add_mod_noop(x + y, z, n);
            lemma_add_mod_noop(x, y + z, n);
            lemma_mod_twice(x + y, n);
            lemma_mod_twice(y + z, n);
            lemma_add_mod_noop((x + y) % n, z, n);
            lemma_add_mod_noop(x, (y + z) % n, n);
            assert(coef(spec_poly_add(a, b, n), i) == (x + y) % n);
            assert(coef(spec_poly_add(b, c, n), i) == (y + z) % n);
        }
    }
    assert(left =~= right);
}

/// Zero is the identity of addition: `a + 0` is `a`, for a polynomial `a`
/// whose coefficients are reduced and a zero polynomial that is no longer.
pub proof fn lemma_add_zero(a: Seq<int>, z: Seq<int>, n: int)
    requires
        0 <= n,
        n > 0 ==> canonical(a, n),
        is_zero_poly(z),
        z.len() <= a.len(),
    ensures
        spec_poly_add(a, z, n) == a,
{
    assert forall|i: int| 0 <= i < a.len() implies spec_poly_add(a, z, n)[i] == a[i] by {
        assert(coef(z, i) == 0);
        if n > 0 {
            assert(0 <= a[i] < n);
            lemma_small_mod(a[i] as nat, n as nat);
        }
    }
    assert(spec_poly_add(a, z, n) =~= a);
}

/// Every polynomial is its own inverse of addition: `a - a` is zero, which
/// without the zeros above its degree is the constant zero.
pub proof fn lemma_sub_self(a: Seq<int>, n: int)
    requires
        0 <= n,
    ensures
        is_zero_poly(spec_poly_sub(a, a, n)),
        spec_truncate(spec_poly_sub(a, a, n)) == seq![0int],
{
    let d = spec_poly_sub(a, a, n);
    if n > 0 {
        lemma_small_mod(0, n as nat);
    }
    assert(is_zero_poly(d));
    lemma_degree(d);
    lemma_truncate(d);
    assert(spec_truncate(d) =~= seq![0int]);
}

/// One is the identity of multiplication: the product of a reduced
/// polynomial `a` with the constant one needs no reduction by `irr`, and
/// without the zeros above its degree it is `a` without them.
pub proof fn lemma_mul_one(a: Seq<int>, irr: Seq<int>, n: int)
    requires
        0 <= n,
        n > 0 ==> canonical(a, n),
        !divisible(a, irr),
    ensures
        !divisible(spec_poly_mul(a, seq![1int], n), irr),
        spec_truncate(spec_poly_mul(a, seq![1int], n)) == spec_truncate(a),
{
    let p = spec_poly_mul(a, seq![1int], n);
    assert forall|k: int| coef(p, k) == coef(a, k) by {
        lemma_product_coef_mod(a, seq![1int], n, k);
        lemma_conv_constant(a, 1, k, a.len() as int);
        assert(coef(a, k) * 1 == coef(a, k)) by (nonlinear_arith);
        if n > 0 {
            if 0 <= k < a.len() {
                assert(0 <= a[k] < n);
                lemma_small_mod(a[k] as nat, n as nat);
            } else {
                lemma_small_mod(0, n as nat);
            }
        }
    }
    lemma_same_coefficients(p, a);
    lemma_truncate(p);
    lemma_truncate(a);
    assert(spec_truncate(p) =~= spec_truncate(a));
}

/// The remainder of a division is unique, and so is the quotient modulo
/// `n`: two remainders of `x` by `y`, each with its quotient, have the same
/// coefficients, and the quotients are the same modulo `n`. The leading
/// coefficient of `y` is a unit with the inverse `ci`.
pub proof fn lemma_remainder_unique(
    q1: Seq<int>,
    r1: Seq<int>,
    q2: Seq<int>,
    r2: Seq<int>,
    x: Seq<int>,
    y: Seq<int>,
    n: int,
    ci: int,
)
    requires
        n >= 0,
        division_holds(q1, r1, y, x, n),
        division_holds(q2, r2, y, x, n),
        !divisible(r1, y),
        !divisible(r2, y),
        n > 0 ==> canonical(r1, n) && canonical(r2, n),
        congruent(leading(y) * ci, 1, n),
    ensures
        forall|k: int| coef(r1, k) == coef(r2, k),
        forall|k: int| congruent(#[trigger] coef(q1, k), coef(q2, k), n),
{
    let w = Seq::new(
        longer(q1.len() as int, q2.len() as int) as nat,
        |i: int| coef(q1, i) - coef(q2, i),
    );
    let none = Seq::<int>::empty();
    lemma_congruent_self(0, n);
    lemma_degree(r1);
    lemma_degree(r2);
    lemma_degree(y);
    // w * y is r2 - r1
    assert forall|k: int| congruent(#[trigger] product_coef(w, y, k), coef(r2, k) - coef(r1, k), n) by {
        let m = w.len() as int;
        assert forall|i: int| 0 <= i < m implies congruent(
            #[trigger] coef(w, i),
            coef(q1, i) - coef(q2, i),
            0,
        ) by {}
        lemma_conv_difference(w, q1, q2, y, k, m, 0);
        lemma_conv_extend(q1, y, k, m);
        lemma_conv_extend(q2, y, k, m);
        let a1 = product_coef(q1, y, k);
        let a2 = product_coef(q2, y, k);
        assert(congruent(a1 + coef(r1, k), coef(x, k), n));
        assert(congruent(a2 + coef(r2, k), coef(x, k), n));
        lemma_congruent(a1 + coef(r1, k), coef(x, k), a2 + coef(r2, k), coef(x, k), n);
        assert((a1 + coef(r1, k)) - (a2 + coef(r2, k)) == (a1 - a2) - (coef(r2, k) - coef(r1, k)));
    }
    let wr = reduce_poly(w, n);
    if !is_zero_poly(wr) {
        lemma_product_not_zero(w, y, n, ci);
        let k = degree(wr) + degree(y);
        assert(coef(r1, k) == 0);
        assert(coef(r2, k) == 0);
        assert(congruent(product_coef(w, y, k), coef(r2, k) - coef(r1, k), n));
        assert(false);
    }
    assert forall|i: int| congruent(#[trigger] coef(w, i), 0, n) by {
        if 0 <= i < w.len() {
            assert(wr[i] == 0);
        }
    }
    assert forall|k: int| congruent(#[trigger] coef(q1, k), coef(q2, k), n) by {
        assert(congruent(coef(w, k), 0, n));
        if !(0 <= k < w.len()) {
            assert(coef(q1, k) == 0 && coef(q2, k) == 0);
        }
    }
    assert forall|k: int| coef(r1, k) == coef(r2, k) by {
        assert forall|i: int| 0 <= i < w.len() implies congruent(
            #[trigger] coef(w, i),
            coef(none, i),
            n,
        ) by {
            assert(congruent(coef(w, i), 0, n));
        }
        lemma_conv_same(w, none, y, k, w.len() as int, n);
        lemma_conv_zero(none, y, k, w.len() as int);
        assert(congruent(product_coef(w, y, k), coef(r2, k) - coef(r1, k), n));
        lemma_congruent(product_coef(w, y, k), 0, 0, 0, n);
        lemma_congruent_chain(0, product_coef(w, y, k), coef(r2, k) - coef(r1, k), n);
        let u = coef(r1, k);
        let v = coef(r2, k);
        if n > 0 {
            assert(0 <= u < n && 0 <= v < n) by {
                if 0 <= k < r1.len() {
                    assert(0 <= r1[k] < n);
                }
                if 0 <= k < r2.len() {
                    assert(0 <= r2[k] < n);
                }
            }
            lemma_congruent(0, v - u, 0, 0, n);
            if v >= u {
                lemma_small_mod((v - u) as nat, n as nat);
            } else {
                lemma_congruent_self(u - v, n);
                lemma_congruent(0, v - u, u - v, u - v, n);
                lemma_small_mod((u - v) as nat, n as nat);
            }
        }
    }
}

/// Quotient and remainder of a division are unique: two results of the
/// division of `x` by `y` are the same. The leading coefficient of `y` is a
/// unit with the inverse `ci`; over the integers that is 1 or -1 itself.
pub proof fn lemma_division_unique(
    q1: Seq<int>,
    r1: Seq<int>,
    q2: Seq<int>,
    r2: Seq<int>,
    x: Seq<int>,
    y: Seq<int>,
    n: int,
    ci: int,
)
    requires
        n >= 0,
        is_division(q1, r1, x, y, n),
        is_division(q2, r2, x, y, n),
        congruent(leading(y) * ci, 1, n),
    ensures
        q1 == q2,
        r1 == r2,
{
    lemma_remainder_unique(q1, r1, q2, r2, x, y, n, ci);
    assert forall|i: int| 0 <= i < r1.len() implies r1[i] == r2[i] by {
        assert(coef(r1, i) == coef(r2, i));
    }
    assert(r1 =~= r2);
    if n > 0 {
        assert(crate::algebra::same_poly(q1, q2, n));
        crate::algebra::lemma_canonical_same(q1, q2, n);
    }
    assert forall|i: int| 0 <= i < q1.len() implies q1[i] == q2[i] by {
        assert(congruent(coef(q1, i), coef(q2, i), n));
        assert(coef(q1, i) == coef(q2, i));
    }
    assert(q1 =~= q2);
}

/// A polynomial reduced by `y` is unique: there is one polynomial that `x`
/// reduces to. The leading coefficient of `y` is a unit with the inverse
/// `ci`.
pub proof fn lemma_reduced_unique(
    r1: Seq<int>,
    r2: Seq<int>,
    x: Seq<int>,
    y: Seq<int>,
    n: int,
    ci: int,
)
    requires
        n > 0,
        reduced(r1, x, y, n),
        reduced(r2, x, y, n),
        congruent(leading(y) * ci, 1, n),
    ensures
        r1 == r2,
{
    let q1 = choose|q: Seq<int>| division_holds(q, r1, y, x, n);
    let q2 = choose|q: Seq<int>| division_holds(q, r2, y, x, n);
    lemma_remainder_unique(q1, r1, q2, r2, x, y, n, ci);
    lemma_same_coefficients(r1, r2);
    assert(r1.len() == r2.len());
    assert forall|i: int| 0 <= i < r1.len() implies r1[i] == r2[i] by {
        assert(coef(r1, i) == coef(r2, i));
    }
    assert(r1 =~= r2);
}

/// The product of a polynomial with its inverse, reduced by `irr`, is the
/// constant one. The polynomial `irr` has a positive degree, and its leading
/// coefficient is a unit with the inverse `ci`.
pub proof fn lemma_product_with_inverse(
    a: Seq<int>,
    v: Seq<int>,
    irr: Seq<int>,
    n: int,
    ci: int,
    r: Seq<int>,
)
    requires
        n >= 2,
        inverts(v, a, irr, n),
        degree(irr) >= 1,
        congruent(leading(irr) * ci, 1, n),
        reduced(r, spec_poly_mul(a, v, n), irr, n),
    ensures
        r == seq![1int],
{
    let prod = spec_poly_mul(a, v, n);
    let u = choose|u: Seq<int>| bezout_holds(v, u, seq![1int], a, irr, n);
    let q = Seq::new(u.len(), |i: int| (-1) * u[i]);
    let one = seq![1int];
    lemma_small_mod(0, n as nat);
    lemma_small_mod(1, n as nat);
    assert forall|k: int|
        congruent(#[trigger] product_coef(q, irr, k) + coef(one, k), coef(prod, k), n) by {
        assert forall|j: int| 0 <= j < u.len() implies #[trigger] coef(q, j) == (-1) * coef(
            u,
            j - 0,
        ) by {}
        lemma_conv_shift(q, u, irr, -1, 0, k, u.len() as int);
        let va = product_coef(v, a, k);
        let ui = product_coef(u, irr, k);
        assert(product_coef(q, irr, k) == -ui) by (nonlinear_arith)
            requires
                product_coef(q, irr, k) == (-1) * ui,
        ;
        lemma_conv_commutative(a, v, k);
        lemma_product_coef_mod(a, v, n, k);
        assert(congruent(va + ui, coef(one, k), n));
        lemma_congruent_self(ui, n);
        lemma_congruent(va + ui, coef(one, k), ui, ui, n);
        lemma_congruent(va, coef(one, k) - ui, 0, 0, n);
        lemma_congruent(coef(prod, k), va, 0, 0, n);
        lemma_congruent_chain(coef(one, k) - ui, va, coef(prod, k), n);
    }
    assert(division_holds(q, one, irr, prod, n));
    assert(one =~= Seq::<int>::empty().push(1));
    lemma_degree_push(Seq::<int>::empty(), 1);
    assert(degree(one) == 0);
    assert(reduced(one, prod, irr, n));
    lemma_reduced_unique(r, one, prod, irr, n, ci);
}

/// In a coefficient type without negative values, every number that has no
/// divisor in common with the modulus can be divided by.
pub proof fn lemma_unsigned_unit(c: int, n: int)
    requires
        0 <= c,
        1 <= n,
        gcd(n as nat, c as nat) == 1,
    ensures
        leading_unit(c, n, false),
{
    if n >= 2 {
        lemma_inv_inverts(c, n);
        lemma_small_mod(1, n as nat);
        vstd::arithmetic::div_mod::lemma_mod_equivalence(
            c * crate::inverse::spec_inv(c, n, false),
            1,
            n,
        );
    }
}

/// Whether `n` is a prime number.
pub open spec fn is_prime(n: int) -> bool {
    &&& 2 <= n
    &&& forall|d: int| 1 < d < n ==> #[trigger] (n % d) != 0
}

/// The greatest common divisor divides both numbers, and it is positive
/// unless both are zero.
pub proof fn lemma_gcd_divides(a: nat, b: nat)
    ensures
        gcd(a, b) > 0 || (a == 0 && b == 0),
        gcd(a, b) > 0 ==> a as int % gcd(a, b) as int == 0 && b as int % gcd(a, b) as int == 0,
    decreases b,
{
    if b == 0 {
        if a > 0 {
            vstd::arithmetic::div_mod::lemma_mod_self_0(a as int);
            lemma_small_mod(0, a);
        }
    } else {
        vstd::arithmetic::div_mod::lemma_mod_bound(a as int, b as int);
        lemma_gcd_divides(b, a % b);
        let g = gcd(a, b) as int;
        assert(g == gcd(b, a % b));
        assert(g > 0);
        // a is (a / b) * b + a % b, and g divides both parts
        vstd::arithmetic::div_mod::lemma_fundamental_div_mod(a as int, b as int);
        let q = a as int / b as int;
        let r = a as int % b as int;
        vstd::arithmetic::div_mod::lemma_fundamental_div_mod(b as int, g);
        vstd::arithmetic::div_mod::lemma_fundamental_div_mod(r, g);
        let kb = b as int / g;
        let kr = r / g;
        assert(a as int == g * (q * kb + kr)) by (nonlinear_arith)
            requires
                a as int == b as int * q + r,
                b as int == g * kb,
                r == g * kr,
        ;
        vstd::arithmetic::div_mod::lemma_fundamental_div_mod_converse(
            a as int,
            g,
            q * kb + kr,
            0,
        );
    }
}

/// Modulo a prime number every residue but zero can be divided by, in a
/// coefficient type without negative values.
pub proof fn lemma_prime_field(n: int)
    requires
        is_prime(n),
    ensures
        crate::inversion::all_units(n, false),
{
    assert forall|c: int| 0 < c < n implies #[trigger] leading_unit(c, n, false) by {
        lemma_gcd_divides(n as nat, c as nat);
        let g = gcd(n as nat, c as nat) as int;
        assert(g > 0);
        if g > 1 {
            // g divides c, so it is at most c and below n
            vstd::arithmetic::div_mod::lemma_fundamental_div_mod(c, g);
            let k = c / g;
            assert(g <= c) by (nonlinear_arith)
                requires
                    c == g * k,
                    c > 0,
                    g > 0,
            ;
            assert(n % g != 0);
        }
        lemma_unsigned_unit(c, n);
    }
}

} // verus!
