//! The unsigned machine integers as coefficients.

use crate::integer::Integer;
use vstd::arithmetic::div_mod::*;
use vstd::prelude::*;

verus! {

/// For `a < b` and a modulus `n > 0`, the representative of `a - b` is found
/// without leaving the natural numbers.
pub proof fn lemma_lifted_difference(a: int, b: int, n: int)
    requires
        0 <= a < b,
        n > 0,
    ensures
        (a - b) % n == n - 1 - (b - a - 1) % n,
{
    let d = b - a - 1;
    lemma_fundamental_div_mod(d, n);
    let q = d / n;
    let s = d % n;
    assert(a - b == (-q - 1) * n + (n - 1 - s)) by (nonlinear_arith)
        requires
            d == n * q + s,
            d == b - a - 1,
    ;
    lemma_fundamental_div_mod_converse(a - b, n, -q - 1, n - 1 - s);
}

/// A cast of a signed 128-bit value to the unsigned type of that width gives
/// its representative modulo 2^128.
pub proof fn lemma_signed_as_unsigned(x: i128)
    ensures
        (x as u128) as int == (x as int) % 0x1_0000_0000_0000_0000_0000_0000_0000_0000int,
{
    let r = x as u128;
    assert(x >= 0 ==> r == x) by (bit_vector)
        requires
            r == x as u128,
    ;
    assert(x < 0 ==> r == x + 0x1_0000_0000_0000_0000_0000_0000_0000_0000int) by (bit_vector)
        requires
            r == x as u128,
    ;
    if x >= 0 {
        lemma_small_mod(x as nat, 0x1_0000_0000_0000_0000_0000_0000_0000_0000nat);
    } else {
        lemma_fundamental_div_mod_converse(
            x as int,
            0x1_0000_0000_0000_0000_0000_0000_0000_0000int,
            -1,
            r as int,
        );
    }
}

impl Integer for u8 {
    open spec fn value(self) -> int {
        self as int
    }

    open spec fn lowest() -> int {
        0
    }

    open spec fn highest() -> int {
        u8::MAX as int
    }

    proof fn lemma_value(a: Self, b: Self) {
    }

    proof fn lemma_default(z: Self) {
    }

    proof fn lemma_compare(a: Self, b: Self) {
    }

    proof fn lemma_add(a: Self, b: Self) {
    }

    proof fn lemma_sub(a: Self, b: Self) {
    }

    proof fn lemma_mul(a: Self, b: Self) {
    }

    proof fn lemma_div(a: Self, b: Self) {
    }

    fn from_literal(x: u128) -> (r: Self) {
        let r =
            #[verifier::truncate]
            (x as u8);
        proof {
            assert(r == x % 0x100_u128) by (bit_vector)
                requires
                    r == x as u8,
            ;
        }
        r
    }

    fn from_signed_literal(x: i128) -> (r: Self) {
        let r =
            #[verifier::truncate]
            (x as u8);
        proof {
            let u = x as u128;
            assert(r == u % 0x100_u128) by (bit_vector)
                requires
                    r == x as u8,
                    u == x as u128,
            ;
            lemma_signed_as_unsigned(x);
            lemma_mod_mod(x as int, 0x100_int, 0x100_0000_0000_0000_0000_0000_0000_0000_int);
            assert(0x100_int * 0x100_0000_0000_0000_0000_0000_0000_0000_int == 0x1_0000_0000_0000_0000_0000_0000_0000_0000int);
        }
        r
    }

    fn max() -> (r: Self) {
        u8::MAX
    }

    fn sub_lift(self, rhs: Self, n: Self) -> (r: Self) {
        if self >= rhs {
            self - rhs
        } else {
            proof {
                lemma_lifted_difference(self as int, rhs as int, n as int);
            }
            n - 1 - (rhs - self - 1) % n
        }
    }

    fn sub_mod(self, rhs: Self, n: Self) -> (r: Self) {
        if n == 0 {
            self - rhs
        } else if self >= rhs {
            (self - rhs) % n
        } else {
            proof {
                lemma_lifted_difference(self as int, rhs as int, n as int);
            }
            n - 1 - (rhs - self - 1) % n
        }
    }

    fn add_mod(self, rhs: Self, n: Self) -> (r: Self) {
        if n != 0 {
            (self + rhs) % n
        } else {
            self + rhs
        }
    }

    fn mul_mod(self, rhs: Self, n: Self) -> (r: Self) {
        proof {
            assert(self as int * rhs as int >= 0) by (nonlinear_arith);
        }
        if n == 0 {
            self * rhs
        } else {
            (self * rhs) % n
        }
    }

    fn rem(self, n: Self) -> (r: Self) {
        self % n
    }

    fn abs(self) -> (r: Self) {
        self
    }
}

impl Integer for u16 {
    open spec fn value(self) -> int {
        self as int
    }

    open spec fn lowest() -> int {
        0
    }

    open spec fn highest() -> int {
        u16::MAX as int
    }

    proof fn lemma_value(a: Self, b: Self) {
    }

    proof fn lemma_default(z: Self) {
    }

    proof fn lemma_compare(a: Self, b: Self) {
    }

    proof fn lemma_add(a: Self, b: Self) {
    }

    proof fn lemma_sub(a: Self, b: Self) {
    }

    proof fn lemma_mul(a: Self, b: Self) {
    }

    proof fn lemma_div(a: Self, b: Self) {
    }

    fn from_literal(x: u128) -> (r: Self) {
        let r =
            #[verifier::truncate]
            (x as u16);
        proof {
            assert(r == x % 0x1_0000_u128) by (bit_vector)
                requires
                    r == x as u16,
            ;
        }
        r
    }

    fn from_signed_literal(x: i128) -> (r: Self) {
        let r =
            #[verifier::truncate]
            (x as u16);
        proof {
            let u = x as u128;
            assert(r == u % 0x1_0000_u128) by (bit_vector)
                requires
                    r == x as u16,
                    u == x as u128,
            ;
            lemma_signed_as_unsigned(x);
            lemma_mod_mod(x as int, 0x1_0000_int, 0x1_0000_0000_0000_0000_0000_0000_0000_int);
            assert(0x1_0000_int * 0x1_0000_0000_0000_0000_0000_0000_0000_int == 0x1_0000_0000_0000_0000_0000_0000_0000_0000int);
        }
        r
    }

    fn max() -> (r: Self) {
        u16::MAX
    }

    fn sub_lift(self, rhs: Self, n: Self) -> (r: Self) {
        if self >= rhs {
            self - rhs
        } else {
            proof {
                lemma_lifted_difference(self as int, rhs as int, n as int);
            }
            n - 1 - (rhs - self - 1) % n
        }
    }

    fn sub_mod(self, rhs: Self, n: Self) -> (r: Self) {
        if n == 0 {
            self - rhs
        } else if self >= rhs {
            (self - rhs) % n
        } else {
            proof {
                lemma_lifted_difference(self as int, rhs as int, n as int);
            }
            n - 1 - (rhs - self - 1) % n
        }
    }

    fn add_mod(self, rhs: Self, n: Self) -> (r: Self) {
        if n != 0 {
            (self + rhs) % n
        } else {
            self + rhs
        }
    }

    fn mul_mod(self, rhs: Self, n: Self) -> (r: Self) {
        proof {
            assert(self as int * rhs as int >= 0) by (nonlinear_arith);
        }
        if n == 0 {
            self * rhs
        } else {
            (self * rhs) % n
        }
    }

    fn rem(self, n: Self) -> (r: Self) {
        self % n
    }

    fn abs(self) -> (r: Self) {
        self
    }
}

impl Integer for u32 {
    open spec fn value(self) -> int {
        self as int
    }

    open spec fn lowest() -> int {
        0
    }

    open spec fn highest() -> int {
        u32::MAX as int
    }

    proof fn lemma_value(a: Self, b: Self) {
    }

    proof fn lemma_default(z: Self) {
    }

    proof fn lemma_compare(a: Self, b: Self) {
    }

    proof fn lemma_add(a: Self, b: Self) {
    }

    proof fn lemma_sub(a: Self, b: Self) {
    }

    proof fn lemma_mul(a: Self, b: Self) {
    }

    proof fn lemma_div(a: Self, b: Self) {
    }

    fn from_literal(x: u128) -> (r: Self) {
        let r =
            #[verifier::truncate]
            (x as u32);
        proof {
            assert(r == x % 0x1_0000_0000_u128) by (bit_vector)
                requires
                    r == x as u32,
            ;
        }
        r
    }

    fn from_signed_literal(x: i128) -> (r: Self) {
        let r =
            #[verifier::truncate]
            (x as u32);
        proof {
            let u = x as u128;
            assert(r == u % 0x1_0000_0000_u128) by (bit_vector)
                requires
                    r == x as u32,
                    u == x as u128,
            ;
            lemma_signed_as_unsigned(x);
            lemma_mod_mod(x as int, 0x1_0000_0000_int, 0x1_0000_0000_0000_0000_0000_0000_int);
            assert(0x1_0000_0000_int * 0x1_0000_0000_0000_0000_0000_0000_int == 0x1_0000_0000_0000_0000_0000_0000_0000_0000int);
        }
        r
    }

    fn max() -> (r: Self) {
        u32::MAX
    }

    fn sub_lift(self, rhs: Self, n: Self) -> (r: Self) {
        if self >= rhs {
            self - rhs
        } else {
            proof {
                lemma_lifted_difference(self as int, rhs as int, n as int);
            }
            n - 1 - (rhs - self - 1) % n
        }
    }

    fn sub_mod(self, rhs: Self, n: Self) -> (r: Self) {
        if n == 0 {
            self - rhs
        } else if self >= rhs {
            (self - rhs) % n
        } else {
            proof {
                lemma_lifted_difference(self as int, rhs as int, n as int);
            }
            n - 1 - (rhs - self - 1) % n
        }
    }

    fn add_mod(self, rhs: Self, n: Self) -> (r: Self) {
        if n != 0 {
            (self + rhs) % n
        } else {
            self + rhs
        }
    }

    fn mul_mod(self, rhs: Self, n: Self) -> (r: Self) {
        proof {
            assert(self as int * rhs as int >= 0) by (nonlinear_arith);
        }
        if n == 0 {
            self * rhs
        } else {
            (self * rhs) % n
        }
    }

    fn rem(self, n: Self) -> (r: Self) {
        self % n
    }

    fn abs(self) -> (r: Self) {
        self
    }
}

impl Integer for u64 {
    open spec fn value(self) -> int {
        self as int
    }

    open spec fn lowest() -> int {
        0
    }

    open spec fn highest() -> int {
        u64::MAX as int
    }

    proof fn lemma_value(a: Self, b: Self) {
    }

    proof fn lemma_default(z: Self) {
    }

    proof fn lemma_compare(a: Self, b: Self) {
    }

    proof fn lemma_add(a: Self, b: Self) {
    }

    proof fn lemma_sub(a: Self, b: Self) {
    }

    proof fn lemma_mul(a: Self, b: Self) {
    }

    proof fn lemma_div(a: Self, b: Self) {
    }

    fn from_literal(x: u128) -> (r: Self) {
        let r =
            #[verifier::truncate]
            (x as u64);
        proof {
            assert(r == x % 0x1_0000_0000_0000_0000_u128) by (bit_vector)
                requires
                    r == x as u64,
            ;
        }
        r
    }

    fn from_signed_literal(x: i128) -> (r: Self) {
        let r =
            #[verifier::truncate]
            (x as u64);
        proof {
            let u = x as u128;
            assert(r == u % 0x1_0000_0000_0000_0000_u128) by (bit_vector)
                requires
                    r == x as u64,
                    u == x as u128,
            ;
            lemma_signed_as_unsigned(x);
            lemma_mod_mod(x as int, 0x1_0000_0000_0000_0000_int, 0x1_0000_0000_0000_0000_int);
            assert(0x1_0000_0000_0000_0000_int * 0x1_0000_0000_0000_0000_int == 0x1_0000_0000_0000_0000_0000_0000_0000_0000int);
        }
        r
    }

    fn max() -> (r: Self) {
        u64::MAX
    }

    fn sub_lift(self, rhs: Self, n: Self) -> (r: Self) {
        if self >= rhs {
            self - rhs
        } else {
            proof {
                lemma_lifted_difference(self as int, rhs as int, n as int);
            }
            n - 1 - (rhs - self - 1) % n
        }
    }

    fn sub_mod(self, rhs: Self, n: Self) -> (r: Self) {
        if n == 0 {
            self - rhs
        } else if self >= rhs {
            (self - rhs) % n
        } else {
            proof {
                lemma_lifted_difference(self as int, rhs as int, n as int);
            }
            n - 1 - (rhs - self - 1) % n
        }
    }

    fn add_mod(self, rhs: Self, n: Self) -> (r: Self) {
        if n != 0 {
            (self + rhs) % n
        } else {
            self + rhs
        }
    }

    fn mul_mod(self, rhs: Self, n: Self) -> (r: Self) {
        proof {
            assert(self as int * rhs as int >= 0) by (nonlinear_arith);
        }
        if n == 0 {
            self * rhs
        } else {
            (self * rhs) % n
        }
    }

    fn rem(self, n: Self) -> (r: Self) {
        self % n
    }

    fn abs(self) -> (r: Self) {
        self
    }
}

impl Integer for usize {
    open spec fn value(self) -> int {
        self as int
    }

    open spec fn lowest() -> int {
        0
    }

    open spec fn highest() -> int {
        usize::MAX as int
    }

    proof fn lemma_value(a: Self, b: Self) {
    }

    proof fn lemma_default(z: Self) {
    }

    proof fn lemma_compare(a: Self, b: Self) {
    }

    proof fn lemma_add(a: Self, b: Self) {
    }

    proof fn lemma_sub(a: Self, b: Self) {
    }

    proof fn lemma_mul(a: Self, b: Self) {
    }

    proof fn lemma_div(a: Self, b: Self) {
    }

    fn from_literal(x: u128) -> (r: Self) {
        let m: u128 = usize::MAX as u128 + 1;
        (x % m) as usize
    }

    fn from_signed_literal(x: i128) -> (r: Self) {
        let m: u128 = usize::MAX as u128 + 1;
        let u: u128 =
            #[verifier::truncate]
            (x as u128);
        proof {
            lemma_signed_as_unsigned(x);
            if usize::MAX == 0xffff_ffff {
                lemma_mod_mod(x as int, 0x1_0000_0000int, 0x1_0000_0000_0000_0000_0000_0000int);
                assert(0x1_0000_0000int * 0x1_0000_0000_0000_0000_0000_0000int
                    == 0x1_0000_0000_0000_0000_0000_0000_0000_0000int);
            } else {
                assert(usize::MAX == 0xffff_ffff_ffff_ffff);
                lemma_mod_mod(x as int, 0x1_0000_0000_0000_0000int, 0x1_0000_0000_0000_0000int);
                assert(0x1_0000_0000_0000_0000int * 0x1_0000_0000_0000_0000int
                    == 0x1_0000_0000_0000_0000_0000_0000_0000_0000int);
            }
        }
        (u % m) as usize
    }

    fn max() -> (r: Self) {
        usize::MAX
    }

    fn sub_lift(self, rhs: Self, n: Self) -> (r: Self) {
        if self >= rhs {
            self - rhs
        } else {
            proof {
                lemma_lifted_difference(self as int, rhs as int, n as int);
            }
            n - 1 - (rhs - self - 1) % n
        }
    }

    fn sub_mod(self, rhs: Self, n: Self) -> (r: Self) {
        if n == 0 {
            self - rhs
        } else if self >= rhs {
            (self - rhs) % n
        } else {
            proof {
                lemma_lifted_difference(self as int, rhs as int, n as int);
            }
            n - 1 - (rhs - self - 1) % n
        }
    }

    fn add_mod(self, rhs: Self, n: Self) -> (r: Self) {
        if n != 0 {
            (self + rhs) % n
        } else {
            self + rhs
        }
    }

    fn mul_mod(self, rhs: Self, n: Self) -> (r: Self) {
        proof {
            assert(self as int * rhs as int >= 0) by (nonlinear_arith);
        }
        if n == 0 {
            self * rhs
        } else {
            (self * rhs) % n
        }
    }

    fn rem(self, n: Self) -> (r: Self) {
        self % n
    }

    fn abs(self) -> (r: Self) {
        self
    }
}

impl Integer for u128 {
    open spec fn value(self) -> int {
        self as int
    }

    open spec fn lowest() -> int {
        0
    }

    open spec fn highest() -> int {
        u128::MAX as int
    }

    proof fn lemma_value(a: Self, b: Self) {
    }

    proof fn lemma_default(z: Self) {
    }

    proof fn lemma_compare(a: Self, b: Self) {
    }

    proof fn lemma_add(a: Self, b: Self) {
    }

    proof fn lemma_sub(a: Self, b: Self) {
    }

    proof fn lemma_mul(a: Self, b: Self) {
    }

    proof fn lemma_div(a: Self, b: Self) {
    }

    fn from_literal(x: u128) -> (r: Self) {
        proof {
            lemma_small_mod(x as nat, 0x1_0000_0000_0000_0000_0000_0000_0000_0000nat);
        }
        x
    }

    fn from_signed_literal(x: i128) -> (r: Self) {
        proof {
            lemma_signed_as_unsigned(x);
        }
        #[verifier::truncate]
        (x as u128)
    }

    fn max() -> (r: Self) {
        u128::MAX
    }

    fn sub_lift(self, rhs: Self, n: Self) -> (r: Self) {
        if self >= rhs {
            self - rhs
        } else {
            proof {
                lemma_lifted_difference(self as int, rhs as int, n as int);
            }
            n - 1 - (rhs - self - 1) % n
        }
    }

    fn sub_mod(self, rhs: Self, n: Self) -> (r: Self) {
        if n == 0 {
            self - rhs
        } else if self >= rhs {
            (self - rhs) % n
        } else {
            proof {
                lemma_lifted_difference(self as int, rhs as int, n as int);
            }
            n - 1 - (rhs - self - 1) % n
        }
    }

    fn add_mod(self, rhs: Self, n: Self) -> (r: Self) {
        if n != 0 {
            (self + rhs) % n
        } else {
            self + rhs
        }
    }

    fn mul_mod(self, rhs: Self, n: Self) -> (r: Self) {
        proof {
            assert(self as int * rhs as int >= 0) by (nonlinear_arith);
        }
        if n == 0 {
            self * rhs
        } else {
            (self * rhs) % n
        }
    }

    fn rem(self, n: Self) -> (r: Self) {
        self % n
    }

    fn abs(self) -> (r: Self) {
        self
    }
}

} // verus!
