use hacspec::integer::Integer;
use hacspec::inverse::{extended_euclid_invert, TRestrictions};
use hacspec::ops::{
    greater, is_zero_coefficient, less, one, plain_difference, plain_product, plain_quotient,
    plain_sum, same, zero,
};
use hacspec::signed::signed_mod;

#[test]
fn literals_are_cast() {
    assert_eq!(<u8 as Integer>::from_literal(0x1ff), 0xff);
    assert_eq!(<u8 as Integer>::from_signed_literal(-1), 0xff);
    assert_eq!(<u16 as Integer>::from_literal(0x1_2345), 0x2345);
    assert_eq!(<u32 as Integer>::from_signed_literal(-2), 0xffff_fffe);
    assert_eq!(<u64 as Integer>::from_literal(u128::MAX), u64::MAX);
    assert_eq!(<usize as Integer>::from_literal(7), 7);
    assert_eq!(<usize as Integer>::from_signed_literal(-1), usize::MAX);
    assert_eq!(<u128 as Integer>::from_literal(12345), 12345);
    assert_eq!(<u128 as Integer>::from_signed_literal(-1), u128::MAX);
    assert_eq!(<i128 as Integer>::from_literal(u128::MAX), -1);
    assert_eq!(<i128 as Integer>::from_literal(5), 5);
    assert_eq!(<i128 as Integer>::from_signed_literal(-77), -77);
}

#[test]
fn greatest_values() {
    assert_eq!(<u8 as Integer>::max(), u8::MAX);
    assert_eq!(<u128 as Integer>::max(), u128::MAX);
    assert_eq!(<i128 as Integer>::max(), i128::MAX);
}

#[test]
fn modular_sum() {
    assert_eq!(200u8.add_mod(55, 7), 255 % 7);
    assert_eq!(5u128.add_mod(9, 11), 3);
    assert_eq!(5u128.add_mod(9, 0), 14);
    assert_eq!((-4i128).add_mod(1, 5), 2);
    assert_eq!((-4i128).add_mod(1, 0), -3);
}

#[test]
fn modular_difference() {
    assert_eq!(3u128.sub_mod(5, 11), 9);
    assert_eq!(5u128.sub_mod(3, 11), 2);
    // the result is the representative below the modulus
    assert_eq!(30u128.sub_mod(3, 11), 5);
    assert_eq!(3u8.sub_mod(250, 7), ((3 - 250i32).rem_euclid(7)) as u8);
    assert_eq!(5u128.sub_mod(3, 0), 2);
    assert_eq!(3i128.sub_mod(5, 11), 9);
    assert_eq!(3i128.sub_mod(5, 0), -2);
    assert_eq!((-1i128).sub_mod(1, 255), 253);
}

#[test]
fn lifted_difference() {
    // a difference that is not negative is not reduced
    assert_eq!(30u128.sub_lift(3, 11), 27);
    assert_eq!(3u128.sub_lift(5, 11), 9);
    assert_eq!(3u128.sub_lift(27, 11), 9);
    assert_eq!(3i128.sub_lift(5, 11), -2);
}

#[test]
fn modular_product() {
    assert_eq!(7u128.mul_mod(8, 11), 1);
    assert_eq!(7u128.mul_mod(8, 0), 56);
    // the remainder keeps the sign of the product
    assert_eq!((-7i128).mul_mod(8, 11), -1);
    assert_eq!((-7i128).mul_mod(-8, 11), 1);
    assert_eq!((-7i128).mul_mod(8, 0), -56);
}

#[test]
fn remainder_and_absolute_value() {
    assert_eq!(Integer::rem(17u128, 5), 2);
    assert_eq!(Integer::rem(-17i128, 5), -2);
    assert_eq!(Integer::abs(17u128), 17);
    assert_eq!(Integer::abs(-17i128), 17);
    assert_eq!(Integer::abs(17i128), 17);
}

#[test]
fn signed_remainder_is_lifted() {
    assert_eq!(signed_mod(-1, 5), 4);
    assert_eq!(signed_mod(-10, 5), 0);
    assert_eq!(signed_mod(7, 5), 2);
    assert_eq!(signed_mod(7, -5), 2);
    assert_eq!(signed_mod(-10, -5), 0);
}

#[test]
fn operators_of_coefficients() {
    assert_eq!(zero::<u128>(), 0);
    assert_eq!(one::<i128>(), 1);
    assert!(same(4u8, 4u8));
    assert!(!same(4u8, 5u8));
    assert!(is_zero_coefficient(0i128));
    assert!(!is_zero_coefficient(-1i128));
    assert!(less(-3i128, 2));
    assert!(!less(3u128, 2));
    assert!(greater(3u128, 2));
    assert_eq!(plain_sum(3u8, 4), 7);
    assert_eq!(plain_difference(3i128, 4), -1);
    assert_eq!(plain_product(-3i128, 4), -12);
    assert_eq!(plain_quotient(-7i128, 2), -3);
    assert_eq!(plain_quotient(7u64, 2), 3);
}

#[test]
fn inverse_is_an_inverse() {
    for n in [2u128, 3, 5, 7, 11, 13, 65537, 106103] {
        for x in 1..20u128 {
            if x % n != 0 && gcd(x, n) == 1 {
                let y = u128::inv(x, n);
                assert!(y < n);
                assert_eq!((x * y) % n, 1);
            }
        }
    }
    for x in 1..20u8 {
        if gcd(x as u128, 15) == 1 {
            assert_eq!((x as u32 * u8::inv(x, 15) as u32) % 15, 1);
        }
    }
    assert_eq!(u16::inv(3, 7), 5);
    assert_eq!(u32::inv(3, 7), 5);
    assert_eq!(u64::inv(3, 7), 5);
    assert_eq!(usize::inv(3, 7), 5);
}

fn gcd(a: u128, b: u128) -> u128 {
    if b == 0 {
        a
    } else {
        gcd(b, a % b)
    }
}

#[test]
fn inverse_modulo_a_large_number() {
    // the square of the modulus is no value of the type, its product with x is
    let n = 1u128 << 100;
    assert_eq!(u128::inv(1, n), 1);
    assert_eq!(extended_euclid_invert(1u128, n, false), 1);
    let n = (1u128 << 100) + 1;
    let y = u128::inv(3, n);
    assert!(y < n);
    assert_eq!((3 * y) % n, 1);
    let y = u64::inv(5, (1u64 << 60) + 1);
    assert_eq!((5 * y as u128) % ((1u128 << 60) + 1), 1);
}

#[test]
fn inverse_without_a_modulus() {
    assert_eq!(u128::inv(1, 0), 1);
    assert_eq!(i128::inv(1, 0), 1);
    assert_eq!(u128::inv(1, 1), 1);
    assert_eq!(u128::inv(5, 1), 0);
}

#[test]
fn signed_inverse_is_an_absolute_value() {
    // 99202 is the inverse of 123, and 6901 is 106103 - 99202
    assert_eq!(i128::inv(123, 106103), 6901);
    assert_eq!(i128::inv(-123, 106103), 6901);
    assert_eq!(i128::inv(3, 7), 2);
    assert_eq!(i128::inv(5, 7), 3);
}

#[test]
fn coefficient_of_the_algorithm() {
    assert_eq!(extended_euclid_invert(0u128, 7, false), 0);
    assert_eq!(extended_euclid_invert(3u128, 7, false), 5);
    assert_eq!(extended_euclid_invert(3u128, 7, true), 5);
    // in a signed type the flag decides what becomes of a negative coefficient
    assert_eq!(extended_euclid_invert(3i128, 7, false), 5);
    assert_eq!(extended_euclid_invert(3i128, 7, true), 2);
    assert_eq!(extended_euclid_invert(5i128, 7, true), 3);
    assert_eq!(extended_euclid_invert(37543865u128, 65537, false), 37686);
}
