//! The signed 128-bit integers as coefficients.

use crate::integer::{lift_defined, Integer};
use vstd::arithmetic::div_mod::*;
use vstd::prelude::*;

verus! {

/// Where the remainder that keeps the sign of `x` is negative, adding `n`
/// gives the non-negative remainder.
pub proof fn lemma_lifted_remainder(x: int, n: int)
    requires
        x < 0,
        n > 0,
        (-x) % n != 0,
    ensures
        x % n == n - (-x) % n,
{
    lemma_fundamental_div_mod(-x, n);
    let q = (-x) / n;
    let s = (-x) % n;
    assert(x == (-q - 1) * n + (n - s)) by (nonlinear_arith)
        requires
            -x == n * q + s,
    ;
    lemma_fundamental_div_mod_converse(x, n, -q - 1, n - s);
}

/// A multiple of `n` stays one when its sign is turned.
pub proof fn lemma_negated_multiple(x: int, n: int)
    requires
        n != 0,
        x % n == 0,
    ensures
        (-x) % n == 0,
{
    lemma_fundamental_div_mod(x, n);
    let q = x / n;
    assert(-x == (-q) * n + 0) by (nonlinear_arith)
        requires
            x == n * q + 0,
    ;
    if n > 0 {
        lemma_fundamental_div_mod_converse(-x, n, -q, 0);
    } else {
        lemma_fundamental_div_mod(-x, n);
        let q2 = (-x) / n;
        let s2 = (-x) % n;
        assert(s2 == 0) by (nonlinear_arith)
            requires
                -x == n * q2 + s2,
                -x == (-q) * n,
                0 <= s2 < -n,
        ;
    }
}

/// Lifts the remainder of `x` by `n` into the non-negative representatives:
/// the result is `x % n` of the division with a non-negative remainder.
pub fn signed_mod(x: i128, n: i128) -> (r: i128)
    requires
        lift_defined(x as int, n as int, i128::MIN as int),
    ensures
        r == (x as int) % (n as int),
{
    let ret = x % n;
    if ret < 0 {
        proof {
            if n < 0 {
                lemma_negated_multiple(x as int, n as int);
            } else {
                lemma_lifted_remainder(x as int, n as int);
            }
        }
        ret + n
    } else {
        proof {
            if x < 0 {
                assert((-x) % (n as int) == 0);
                lemma_negated_multiple(-x, n as int);
            }
        }
        ret
    }
}

/// The quotient of a non-negative `m` by `b` is no larger in size than `m`,
/// and it is `-m` only where `b` is -1 or `m` is zero.
pub proof fn lemma_quotient_is_small(m: int, b: int)
    requires
        m >= 0,
        b != 0,
    ensures
        -m <= m / b <= m,
        b != -1 && m > 0 ==> -m < m / b,
{
    lemma_fundamental_div_mod(m, b);
    let q = m / b;
    let s = m % b;
    if b > 0 {
        assert(0 <= q <= m) by (nonlinear_arith)
            requires
                m == b * q + s,
                0 <= s < b,
                m >= 0,
        ;
    } else {
        assert(-m <= q <= 0) by (nonlinear_arith)
            requires
                m == b * q + s,
                0 <= s < -b,
                m >= 0,
                b < 0,
        ;
        if b != -1 && m > 0 && q == -m {
            assert(false) by (nonlinear_arith)
                requires
                    m == b * q + s,
                    q == -m,
                    0 <= s < -b,
                    b < -1,
                    m > 0,
            ;
        }
    }
}

impl Integer for i128 {
    open spec fn value(self) -> int {
        self as int
    }

    open spec fn lowest() -> int {
        i128::MIN as int
    }

    open spec fn highest() -> int {
        i128::MAX as int
    }

    proof fn lemma_value(a: Self, b: Self) {
    }

    proof fn lemma_default(z: Self) {
    }

    proof fn lemma_compare(a: Self, b: Self) {
    }

    proof fn lemma_add(a: Self, b: Self) {
    }

    proof fn lemma_sub(a: Self, b: Self) {
    }

    proof fn lemma_mul(a: Self, b: Self) {
    }

    proof fn lemma_div(a: Self, b: Self) {
        if a >= 0 {
            lemma_quotient_is_small(a as int, b as int);
        } else {
            lemma_quotient_is_small(-a, b as int);
        }
    }

    fn from_literal(x: u128) -> (r: Self) {
        let r =
            #[verifier::truncate]
            (x as i128);
        proof {
            assert(x < 0x8000_0000_0000_0000_0000_0000_0000_0000u128 ==> r == x) by (bit_vector)
                requires
                    r == x as i128,
            ;
            assert(x >= 0x8000_0000_0000_0000_0000_0000_0000_0000u128 ==> r == x
                - 0x1_0000_0000_0000_0000_0000_0000_0000_0000int) by (bit_vector)
                requires
                    r == x as i128,
            ;
            lemma_small_mod(
                (r - i128::MIN) as nat,
                0x1_0000_0000_0000_0000_0000_0000_0000_0000nat,
            );
            if x >= 0x8000_0000_0000_0000_0000_0000_0000_0000u128 {
                lemma_mod_add_multiples_vanish(
                    r - i128::MIN,
                    0x1_0000_0000_0000_0000_0000_0000_0000_0000int,
                );
            }
        }
        r
    }

    fn from_signed_literal(x: i128) -> (r: Self) {
        proof {
            lemma_small_mod(
                (x - i128::MIN) as nat,
                0x1_0000_0000_0000_0000_0000_0000_0000_0000nat,
            );
        }
        x
    }

    fn max() -> (r: Self) {
        i128::MAX
    }

    fn sub_lift(self, rhs: Self, n: Self) -> (r: Self) {
        self - rhs
    }

    fn sub_mod(self, rhs: Self, n: Self) -> (r: Self) {
        if n != 0 {
            signed_mod(self - rhs, n)
        } else {
            self - rhs
        }
    }

    fn add_mod(self, rhs: Self, n: Self) -> (r: Self) {
        if n != 0 {
            signed_mod(self + rhs, n)
        } else {
            self + rhs
        }
    }

    fn mul_mod(self, rhs: Self, n: Self) -> (r: Self) {
        if n == 0 {
            self * rhs
        } else {
            (self * rhs) % n
        }
    }

    fn rem(self, n: Self) -> (r: Self) {
        self % n
    }

    fn abs(self) -> (r: Self) {
        if self < 0 {
            -self
        } else {
            self
        }
    }
}

} // verus!
