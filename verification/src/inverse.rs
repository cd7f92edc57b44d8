//! Inverses modulo `n`, by the extended Euclidean algorithm.

use crate::integer::{spec_abs, spec_sub_lift, Integer};
use crate::ops::{is_zero_coefficient, less, one, plain_product, plain_quotient, plain_sum, zero};
use vstd::arithmetic::div_mod::*;
use vstd::prelude::*;

verus! {

/// The greatest common divisor, by Euclid's recursion.
pub open spec fn gcd(a: nat, b: nat) -> nat
    decreases b,
{
    if b == 0 {
        a
    } else {
        gcd(b, a % b)
    }
}

/// The coefficient that the extended Euclidean algorithm ends with when it is
/// started on the remainders `r` and `new_r` with the coefficients `t` and
/// `new_t`.
pub open spec fn bezout(r: int, new_r: int, t: int, new_t: int) -> int
    decreases new_r,
{
    if new_r <= 0 {
        t
    } else {
        bezout(new_r, r % new_r, new_t, t - (r / new_r) * new_t)
    }
}

/// The Bezout coefficient of `x` for the pair `(n, x)`: an integer `t` such
/// that `t * x` is congruent to the greatest common divisor modulo `n`.
pub open spec fn bezout_coefficient(n: int, x: int) -> int {
    bezout(n, x, 0, 1)
}

/// `a` and `b` are the same modulo `n`; with the modulus zero they are equal.
pub open spec fn congruent(a: int, b: int, n: int) -> bool {
    if n == 0 {
        a == b
    } else {
        (a - b) % n == 0
    }
}

/// What `extended_euclid_invert` returns for `x` and `n`: the Bezout
/// coefficient, brought into the values of the coefficient type. A type
/// without negative values keeps the representative in `0..n`; a type with
/// negative values keeps the coefficient itself, and replaces a negative one by
/// its absolute value where `signed` is set and by the representative in
/// `0..n` where it is not.
pub open spec fn spec_invert(x: int, n: int, type_signed: bool, signed: bool) -> int {
    let t = bezout_coefficient(n, x);
    if type_signed {
        if t < 0 {
            if signed {
                -t
            } else {
                t + n
            }
        } else {
            t
        }
    } else if n >= 2 {
        t % n
    } else {
        t
    }
}

/// The inputs on which `extended_euclid_invert` is defined, for a type with
/// the range `lo..=hi`: `x` is zero or a unit modulo `n`, and the products
/// of the algorithm are values of the type. In a type without negative values
/// they are, where the lesser of `x` and `n`, times `n`, is one.
pub open spec fn invert_fits(x: int, n: int, lo: int, hi: int) -> bool {
    &&& 0 <= x
    &&& 0 <= n
    &&& x == 0 || gcd(n as nat, x as nat) == 1
    &&& if lo < 0 {
        lo <= -n
    } else {
        x * n <= hi || n * n <= hi
    }
}

/// The two coefficients of the algorithm have opposite signs, and together
/// with the two remainders they make up `n`.
pub open spec fn crossed(t: int, new_t: int, r: int, new_r: int, n: int) -> bool {
    ||| t >= 0 && new_t <= 0 && t * new_r - new_t * r == n
    ||| t <= 0 && new_t >= 0 && new_t * r - t * new_r == n
}

/// One step of the algorithm keeps the coefficients crossed, and the new
/// coefficient and the product that it was made with are no larger than `n`.
pub proof fn lemma_crossed_step(t: int, new_t: int, r: int, new_r: int, n: int)
    requires
        crossed(t, new_t, r, new_r, n),
        0 <= r,
        0 < new_r,
        0 <= n,
    ensures
        crossed(new_t, t - (r / new_r) * new_t, new_r, r % new_r, n),
        -n <= t - (r / new_r) * new_t <= n,
        -n <= (r / new_r) * new_t <= n,
        -n <= new_t <= n || r == 0,
        0 <= r % new_r < new_r,
        0 <= r / new_r,
        (r / new_r) * new_r <= r,
        r - (r / new_r) * new_r == r % new_r,
{
    lemma_fundamental_div_mod(r, new_r);
    let q = r / new_r;
    let m = r % new_r;
    lemma_div_pos_is_pos(r, new_r);
    assert(q * new_r == new_r * q) by (nonlinear_arith);
    let nt = t - q * new_t;
    assert(new_t * m - nt * new_r == -(t * new_r - new_t * r)) by (nonlinear_arith)
        requires
            r == new_r * q + m,
            nt == t - q * new_t,
    ;
    if t >= 0 && new_t <= 0 && t * new_r - new_t * r == n {
        assert(q * new_t <= 0) by (nonlinear_arith)
            requires
                q >= 0,
                new_t <= 0,
        ;
        assert(nt * new_r <= n) by (nonlinear_arith)
            requires
                nt * new_r - new_t * m == n,
                new_t <= 0,
                m >= 0,
        ;
        assert(nt <= n) by (nonlinear_arith)
            requires
                nt * new_r <= n,
                new_r >= 1,
                nt >= 0,
                n >= 0,
        ;
        assert(-new_t * r <= n) by (nonlinear_arith)
            requires
                t * new_r - new_t * r == n,
                t >= 0,
                new_r > 0,
        ;
        assert(-new_t <= n || r == 0) by (nonlinear_arith)
            requires
                -new_t * r <= n,
                r >= 0,
                new_t <= 0,
                n >= 0,
        ;
    } else {
        assert(q * new_t >= 0) by (nonlinear_arith)
            requires
                q >= 0,
                new_t >= 0,
        ;
        assert(-nt * new_r <= n) by (nonlinear_arith)
            requires
                new_t * m - nt * new_r == n,
                new_t >= 0,
                m >= 0,
        ;
        assert(-nt <= n) by (nonlinear_arith)
            requires
                -nt * new_r <= n,
                new_r >= 1,
                nt <= 0,
                n >= 0,
        ;
        assert(new_t * r <= n) by (nonlinear_arith)
            requires
                new_t * r - t * new_r == n,
                t <= 0,
                new_r > 0,
        ;
        assert(new_t <= n || r == 0) by (nonlinear_arith)
            requires
                new_t * r <= n,
                r >= 0,
                new_t >= 0,
                n >= 0,
        ;
    }
}

/// With representatives in `0..n`, the lifted difference is the
/// representative of the difference of the exact coefficients.
pub proof fn lemma_residue_step(t: int, new_t: int, q: int, n: int)
    requires
        n >= 2,
        q >= 0,
    ensures
        spec_sub_lift(t % n, q * (new_t % n), n, false) == (t - q * new_t) % n,
        0 <= q * (new_t % n) <= q * (n - 1),
{
    let a = t % n;
    let b = q * (new_t % n);
    lemma_sub_mod_noop(t, q * new_t, n);
    lemma_mul_mod_noop_right(q, new_t, n);
    lemma_sub_mod_noop_right(a, b, n);
    assert((a - b) % n == (t - q * new_t) % n);
    lemma_mod_bound(t, n);
    lemma_mod_bound(new_t, n);
    assert(0 <= q * (new_t % n) <= q * (n - 1)) by (nonlinear_arith)
        requires
            0 <= new_t % n <= n - 1,
            q >= 0,
    ;
    if a >= b {
        lemma_small_mod((a - b) as nat, n as nat);
    }
}

/// Extended Euclidean algorithm on `x` and `n`: the coefficient `t` with
/// `t * x` congruent to the greatest common divisor modulo `n`, which for a
/// unit `x` is its inverse.
pub fn extended_euclid_invert<T: Integer>(x: T, n: T, signed: bool) -> (res: T)
    requires
        invert_fits(x.value(), n.value(), T::lowest(), T::highest()),
    ensures
        res.value() == spec_invert(x.value(), n.value(), T::lowest() < 0, signed),
{
    let mut t = zero::<T>();
    let mut r = n;
    let mut new_t = one::<T>();
    let mut new_r = x;
    let ghost mut te: int = 0;
    let ghost mut new_te: int = 1;
    let ghost nv = n.value();
    let ghost lo = T::lowest();
    let ghost hi = T::highest();
    proof {
        T::lemma_value(x, n);
        T::lemma_value(n, x);
        if lo >= 0 && nv >= 2 {
            lemma_small_mod(0, nv as nat);
            lemma_small_mod(1, nv as nat);
        }
    }
    while !is_zero_coefficient(new_r)
        invariant
            nv == n.value(),
            lo == T::lowest(),
            hi == T::highest(),
            lo <= 0 < hi,
            0 <= nv <= hi,
            0 <= r.value(),
            0 <= new_r.value(),
            if lo < 0 {
                lo <= -nv
            } else {
                x.value() * nv <= hi || nv * nv <= hi
            },
            new_r.value() <= x.value(),
            new_te < 0 ==> r.value() <= x.value() && r.value() <= nv,
            bezout(r.value(), new_r.value(), te, new_te) == bezout_coefficient(nv, x.value()),
            crossed(te, new_te, r.value(), new_r.value(), nv),
            lo < 0 ==> t.value() == te && new_t.value() == new_te,
            lo >= 0 && nv >= 2 ==> t.value() == te % nv && new_t.value() == new_te % nv,
            lo >= 0 && nv < 2 ==> t.value() == te && te >= 0 && (new_r.value() != 0
                ==> new_t.value() == new_te && new_te >= 0),
            r.value() <= nv || new_te == 0,
            new_r.value() <= nv || (r.value() == nv && te == 0),
            r.value() > 0 || (nv == 0 && te == 0 && new_te == 1),
            -nv <= te <= nv || (nv == 0 && te == 1),
        decreases new_r.value(),
    {
        let ghost rv = r.value();
        let ghost new_rv = new_r.value();
        let ghost qv = rv / new_rv;
        let ghost next_te = te - qv * new_te;
        proof {
            T::lemma_value(r, new_r);
            T::lemma_value(t, new_t);
            lemma_crossed_step(te, new_te, rv, new_rv, nv);
            assert(qv <= rv) by (nonlinear_arith)
                requires
                    qv * new_rv <= rv,
                    new_rv >= 1,
                    qv >= 0,
            ;
            if new_rv > nv {
                lemma_basic_div(rv, new_rv);
                assert(qv * new_te == 0) by (nonlinear_arith)
                    requires
                        qv == 0,
                ;
            }
            if lo >= 0 && nv >= 2 {
                lemma_residue_step(te, new_te, qv, nv);
                lemma_mod_bound(new_te, nv);
                if new_te == 0 {
                    lemma_small_mod(0, nv as nat);
                }
                if new_te >= 0 {
                    // the representative of a coefficient that is not negative
                    // is no larger than the coefficient
                    if new_te < nv {
                        lemma_small_mod(new_te as nat, nv as nat);
                    } else {
                        vstd::arithmetic::div_mod::lemma_mod_self_0(nv);
                    }
                    assert(qv * new_t.value() <= nv) by (nonlinear_arith)
                        requires
                            0 <= qv,
                            0 <= new_t.value() <= new_te,
                            qv * new_te <= nv,
                    ;
                } else {
                    let xv = x.value();
                    assert(qv * new_t.value() <= hi) by (nonlinear_arith)
                        requires
                            0 <= qv <= rv,
                            rv <= xv,
                            rv <= nv,
                            0 <= new_t.value() < nv,
                            xv * nv <= hi || nv * nv <= hi,
                    ;
                }
            }
            if lo >= 0 && nv < 2 {
                assert(0 <= qv * new_te <= 1 && (qv * new_te == 1 ==> te == 1 || next_te < 0))
                    by (nonlinear_arith)
                    requires
                        crossed(te, new_te, rv, new_rv, nv),
                        crossed(new_te, next_te, new_rv, rv % new_rv, nv),
                        next_te == te - qv * new_te,
                        te >= 0,
                        new_te >= 0,
                        new_rv >= 1,
                        0 <= qv <= rv,
                        0 <= nv < 2,
                        0 <= rv % new_rv,
                ;
                assert(rv % new_rv != 0 ==> next_te >= 0 && te >= qv * new_te) by (nonlinear_arith)
                    requires
                        crossed(new_te, next_te, new_rv, rv % new_rv, nv),
                        next_te == te - qv * new_te,
                        te >= 0,
                        new_te >= 0,
                        new_rv >= 1,
                        0 <= qv,
                        0 <= nv < 2,
                        0 <= rv % new_rv,
                ;
            }
        }
        let q = plain_quotient(r, new_r);
        let tmp = new_r;
        let qr = plain_product(q, new_r);
        new_r = r.sub_lift(qr, n);
        r = tmp;
        let tmp = new_t;
        let qt = plain_product(q, new_t);
        new_t = t.sub_lift(qt, n);
        t = tmp;
        proof {
            te = new_te;
            new_te = next_te;
        }
    }
    let z = zero::<T>();
    proof {
        T::lemma_value(t, n);
        if lo >= 0 && nv >= 2 {
            lemma_mod_bound(te, nv);
        }
    }
    if less(t, z) {
        if signed {
            t = t.abs();
        } else {
            t = plain_sum(t, n);
        }
    }
    t
}

/// A difference of multiples of `n` is a multiple of `n`.
pub proof fn lemma_congruent_combination(a: int, b: int, q: int, n: int)
    requires
        n >= 0,
        congruent(a, 0, n),
        congruent(b, 0, n),
    ensures
        congruent(a - q * b, 0, n),
{
    if n == 0 {
        assert(q * b == 0) by (nonlinear_arith)
            requires
                b == 0,
        ;
    } else {
        lemma_mul_mod_noop_right(q, b, n);
        assert(q * (b % n) == 0) by (nonlinear_arith)
            requires
                b % n == 0,
        ;
        lemma_small_mod(0, n as nat);
        lemma_sub_mod_noop(a, q * b, n);
    }
}

/// The extended Euclidean algorithm keeps what it starts with: where each
/// coefficient times `x` is congruent to its remainder, the coefficient it
/// ends with times `x` is congruent to the greatest common divisor.
pub proof fn lemma_bezout(r: int, new_r: int, t: int, new_t: int, x: int, n: int)
    requires
        0 <= r,
        0 <= new_r,
        0 <= n,
        congruent(t * x, r, n),
        congruent(new_t * x, new_r, n),
    ensures
        congruent(bezout(r, new_r, t, new_t) * x, gcd(r as nat, new_r as nat) as int, n),
    decreases new_r,
{
    if new_r > 0 {
        let q = r / new_r;
        let m = r % new_r;
        lemma_fundamental_div_mod(r, new_r);
        lemma_mod_bound(r, new_r);
        let a = t * x - r;
        let b = new_t * x - new_r;
        lemma_congruent_combination(a, b, q, n);
        assert((t - q * new_t) * x - m == a - q * b) by (nonlinear_arith)
            requires
                a == t * x - r,
                b == new_t * x - new_r,
                r == new_r * q + m,
        ;
        lemma_bezout(new_r, m, new_t, t - q * new_t, x, n);
    }
}

/// For a unit `x` modulo `n`, the Bezout coefficient is an inverse.
pub proof fn lemma_bezout_coefficient_inverts(n: int, x: int)
    requires
        0 <= n,
        0 <= x,
        gcd(n as nat, x as nat) == 1,
    ensures
        congruent(bezout_coefficient(n, x) * x, 1, n),
{
    assert(0 * x - n == -n) by (nonlinear_arith);
    assert(1 * x - x == 0) by (nonlinear_arith);
    if n > 0 {
        lemma_mod_multiples_basic(-1, n);
        lemma_small_mod(0, n as nat);
    }
    lemma_bezout(n, x, 0, 1, x, n);
}

/// The coefficient that the algorithm ends with is no larger in size than
/// `n`, where the coefficients it starts with are crossed.
pub proof fn lemma_bezout_crossed(r: int, new_r: int, t: int, new_t: int, n: int)
    requires
        crossed(t, new_t, r, new_r, n),
        0 < r,
        0 <= new_r,
        0 <= n,
        -n <= t <= n,
    ensures
        -n <= bezout(r, new_r, t, new_t) <= n,
    decreases new_r,
{
    if new_r > 0 {
        lemma_crossed_step(t, new_t, r, new_r, n);
        lemma_bezout_crossed(new_r, r % new_r, new_t, t - (r / new_r) * new_t, n);
    }
}

/// The Bezout coefficient is no larger in size than the modulus.
pub proof fn lemma_bezout_bound(n: int, x: int)
    requires
        1 <= n,
        0 <= x,
    ensures
        -n <= bezout_coefficient(n, x) <= n,
{
    assert(1 * n - 0 * x == n) by (nonlinear_arith);
    lemma_bezout_crossed(n, x, 0, 1, n);
}

/// What `inv` returns for `x` and `n`: the Bezout coefficient of `|x|` for the
/// modulus `|n|`, as a value of the coefficient type. A type with negative
/// values gets the absolute value of the coefficient, a type without them its
/// representative in `0..n`.
pub open spec fn spec_inv(x: int, n: int, type_signed: bool) -> int {
    spec_invert(spec_abs(x), spec_abs(n), type_signed, true)
}

/// The inputs on which `inv` is defined, for a type with the range
/// `lo..=hi`: `x` is a unit modulo `n`, and the products of the algorithm are
/// values of the type. In a type without negative values they are, where the
/// lesser of `x` and `n`, times `n`, is one.
pub open spec fn inv_fits(x: int, n: int, lo: int, hi: int) -> bool {
    &&& gcd(spec_abs(n) as nat, spec_abs(x) as nat) == 1
    &&& spec_abs(x) <= hi && spec_abs(n) <= hi
    &&& if lo < 0 {
        lo <= -spec_abs(n)
    } else {
        x * n <= hi || n * n <= hi
    }
}

/// What `inv` returns lies between zero and the modulus.
pub proof fn lemma_inv_bound(x: int, n: int, type_signed: bool)
    requires
        2 <= n,
        0 <= x,
    ensures
        0 <= spec_inv(x, n, type_signed) <= n,
{
    lemma_bezout_bound(n, x);
    lemma_mod_bound(bezout_coefficient(n, x), n);
}

/// In a type without negative values, `inv` gives the inverse: the one
/// number in `0..n` whose product with `x` leaves the remainder 1.
pub proof fn lemma_inv_inverts(x: int, n: int)
    requires
        0 <= x,
        2 <= n,
        gcd(n as nat, x as nat) == 1,
    ensures
        0 <= spec_inv(x, n, false) < n,
        (x * spec_inv(x, n, false)) % n == 1,
{
    let t = bezout_coefficient(n, x);
    lemma_bezout_coefficient_inverts(n, x);
    lemma_mod_bound(t, n);
    lemma_mul_mod_noop_left(t, x, n);
    assert((t % n) * x == x * (t % n)) by (nonlinear_arith);
    lemma_mod_equivalence(t * x, 1, n);
    lemma_small_mod(1, n as nat);
}

/// In a type without negative values, `extended_euclid_invert` gives the
/// inverse of a unit, whatever the flag: the one number in `0..n` whose
/// product with `x` leaves the remainder 1.
pub proof fn lemma_invert_inverts(x: int, n: int, signed: bool)
    requires
        0 <= x,
        2 <= n,
        gcd(n as nat, x as nat) == 1,
    ensures
        0 <= spec_invert(x, n, false, signed) < n,
        (x * spec_invert(x, n, false, signed)) % n == 1,
{
    lemma_inv_inverts(x, n);
}

/// A coefficient type for polynomials: an integer type with a modular
/// inverse.
pub trait TRestrictions: Integer + Clone + core::fmt::Debug {
    /// The inverse of `x` modulo `n`, up to its sign where the type has
    /// negative values.
    fn inv(x: Self, n: Self) -> (r: Self)
        requires
            inv_fits(x.value(), n.value(), Self::lowest(), Self::highest()),
        ensures
            r.value() == spec_inv(x.value(), n.value(), Self::lowest() < 0),
    ;
}

impl TRestrictions for usize {
    fn inv(x: Self, n: Self) -> (r: Self) {
        extended_euclid_invert(x, n, false)
    }
}

impl TRestrictions for u8 {
    fn inv(x: Self, n: Self) -> (r: Self) {
        extended_euclid_invert(x, n, false)
    }
}

impl TRestrictions for u16 {
    fn inv(x: Self, n: Self) -> (r: Self) {
        extended_euclid_invert(x, n, false)
    }
}

impl TRestrictions for u32 {
    fn inv(x: Self, n: Self) -> (r: Self) {
        extended_euclid_invert(x, n, false)
    }
}

impl TRestrictions for u64 {
    fn inv(x: Self, n: Self) -> (r: Self) {
        extended_euclid_invert(x, n, false)
    }
}

impl TRestrictions for u128 {
    fn inv(x: Self, n: Self) -> (r: Self) {
        extended_euclid_invert(x, n, false)
    }
}

impl TRestrictions for i128 {
    fn inv(x: Self, n: Self) -> (r: Self) {
        extended_euclid_invert(Integer::abs(x), Integer::abs(n), true)
    }
}

} // verus!
