use hacspec::division::euclid_div;
use hacspec::fixed::{fit, place, FixedPoly};
use hacspec::inversion::{extended_euclid, poly_z_inv, InversionError};
use hacspec::kernel::{
    is_zero, leading_coefficient, monomial, normalize, pad, poly_add, poly_mul,
    poly_mul_op_scanning, poly_mul_plain, poly_sub, truncate, zeros,
};
use hacspec::poly::{copy_of, random_poly, scatter, Poly};

#[test]
fn padding() {
    assert_eq!(pad(&[1u128, 2], 4), vec![1, 2, 0, 0]);
    assert_eq!(pad(&[1u128, 2], 1), vec![1, 2]);
    assert_eq!(pad::<u128>(&[], 2), vec![0, 0]);
    assert_eq!(normalize(&[1u128], &[1, 2, 3]), (vec![1, 0, 0], vec![1, 2, 3]));
    assert_eq!(zeros::<i128>(3), vec![0, 0, 0]);
    assert_eq!(copy_of(&[4u128, 5]), vec![4, 5]);
}

#[test]
fn leading_coefficients() {
    assert_eq!(leading_coefficient(&[1u128, 2, 0, 3, 0, 0]), (3, 3));
    assert_eq!(leading_coefficient(&[7u128]), (0, 7));
    // the zero polynomial has the degree 0 and the leading coefficient 0
    assert_eq!(leading_coefficient(&[0u128, 0, 0]), (0, 0));
    assert_eq!(leading_coefficient::<u128>(&[]), (0, 0));
    assert_eq!(leading_coefficient(&[0i128, -5]), (1, -5));
}

#[test]
fn truncation() {
    assert_eq!(truncate(&[1u128, 2, 0, 3, 0, 0]), vec![1, 2, 0, 3]);
    assert_eq!(truncate(&[0u128, 0, 0]), vec![0]);
    assert_eq!(truncate::<u128>(&[]), vec![0]);
    assert_eq!(truncate(&[5u128]), vec![5]);
}

#[test]
fn monomials_and_zero() {
    assert_eq!(monomial(7u128, 3), vec![0, 0, 0, 7]);
    assert_eq!(monomial(7u128, 0), vec![7]);
    assert!(is_zero(&[0u128, 0]));
    assert!(is_zero::<u128>(&[]));
    assert!(!is_zero(&[0u128, 1]));
}

#[test]
fn sums_and_differences() {
    assert_eq!(poly_add(&[5u128, 2, 7, 8, 9], &[2, 1, 0, 2, 4], 11), vec![7, 3, 7, 10, 2]);
    assert_eq!(poly_sub(&[5u128, 2, 7, 8, 9], &[2, 1, 0, 2, 4], 11), vec![3, 1, 7, 6, 5]);
    // operands of different lengths are padded
    assert_eq!(poly_add(&[1u128], &[1, 2, 3], 0), vec![2, 2, 3]);
    assert_eq!(poly_sub(&[1i128], &[1, 2, 3], 0), vec![0, -2, -3]);
    assert_eq!(poly_sub(&[1u128], &[1, 2, 3], 5), vec![0, 3, 2]);
}

#[test]
fn products_agree() {
    let x = [5u128, 2, 7, 8, 9];
    let y = [2u128, 1, 0, 2, 4];
    let expected = vec![10, 9, 5, 0, 6, 9, 0, 6, 3, 0];
    assert_eq!(poly_mul(&x, &y, 11), expected);
    assert_eq!(poly_mul_op_scanning(&x, &y, 11), expected);
    assert_eq!(poly_mul_plain(&x, &y, 11), vec![10, 9, 16, 33, 50, 31, 44, 50, 36, 0]);
    assert_eq!(poly_mul(&x, &y, 0), vec![10, 9, 16, 33, 50, 31, 44, 50, 36, 0]);
    assert_eq!(poly_mul(&[-3i128, 5, -1], &[1, -2, -7], 11), vec![8, 0, 10, 0, 7, 0]);
    assert_eq!(poly_mul_op_scanning(&[-3i128, 5, -1], &[1, -2, -7], 11), vec![8, 0, 10, 0, 7, 0]);
    assert_eq!(poly_mul::<u128>(&[], &[], 3), Vec::<u128>::new());
}

#[test]
fn addition_laws() {
    let a = [5u128, 2, 7];
    let b = [2u128, 10, 0, 2];
    let c = [9u128, 9];
    let n = 11;
    assert_eq!(poly_add(&a, &b, n), poly_add(&b, &a, n));
    assert_eq!(
        poly_add(&poly_add(&a, &b, n), &c, n),
        poly_add(&a, &poly_add(&b, &c, n), n)
    );
    assert_eq!(poly_add(&a, &[0, 0], n), a.to_vec());
    assert_eq!(truncate(&poly_sub(&a, &a, n)), vec![0]);
    // a polynomial that is not reduced is not kept by adding zero
    assert_eq!(poly_add(&[5u128], &[0], 3), vec![2]);
}

#[test]
fn division_with_a_modulus() {
    let x = [5u128, 2, 7, 8, 9];
    let y = [2u128, 1, 0, 2, 4];
    let (q, r) = euclid_div(&x, &y, 11);
    assert_eq!(truncate(&q), vec![5]);
    assert_eq!(truncate(&r), vec![6, 8, 7, 9]);
    assert_eq!(q.len(), 5);
    // q * y + r is x
    let back = poly_add(&poly_mul(&q, &y, 11), &r, 11);
    assert_eq!(truncate(&back), x.to_vec());
}

#[test]
fn division_of_a_smaller_degree() {
    let (q, r) = euclid_div(&[1u128, 2], &[0, 0, 1], 5);
    assert_eq!(q, vec![0, 0, 0]);
    assert_eq!(r, vec![1, 2, 0]);
    let (q, r) = euclid_div(&[0u128, 0], &[1, 1], 5);
    assert_eq!(q, vec![0, 0]);
    assert_eq!(r, vec![0, 0]);
}

#[test]
fn division_over_the_integers() {
    // (x^2 - 1) / (x + 1) is x - 1
    let (q, r) = euclid_div(&[-1i128, 0, 1], &[1, 1], 0);
    assert_eq!(truncate(&q), vec![-1, 1]);
    assert!(is_zero(&r));
    // (2x^2 + 3) / (-x) is -2x, and 3 is left
    let (q, r) = euclid_div(&[3i128, 0, 2], &[0, -1], 0);
    assert_eq!(truncate(&q), vec![0, -2]);
    assert_eq!(truncate(&r), vec![3]);
}

#[test]
fn division_round_trip_on_random_operands() {
    let n = 3329u128;
    for _ in 0..20 {
        let x = random_poly::<u128>(12, 0, 3329).into_vec();
        let mut y = random_poly::<u128>(5, 0, 3329).into_vec();
        y.push(1);
        let (q, r) = euclid_div(&x, &y, n);
        assert!(leading_coefficient(&r).0 < 5 || is_zero(&r));
        let back = poly_add(&poly_mul(&q, &y, n), &r, n);
        assert_eq!(truncate(&back), truncate(&x));
    }
}

#[test]
fn inverses_of_coefficients() {
    assert_eq!(poly_z_inv(&[3u128, 0, 5], 7), vec![5, 0, 3]);
    assert_eq!(poly_z_inv::<u128>(&[], 7), Vec::<u128>::new());
}

#[test]
fn inversion_of_polynomials() {
    let irr = [2u128, 2, 0, 1];
    for p in [[2u128, 2, 0], [1, 2, 2], [0, 0, 1], [1, 0, 0]] {
        let v = extended_euclid(&p, &irr, 3).unwrap();
        let product = poly_mul(&p, &v, 3);
        let r = euclid_div(&product, &irr, 3).1;
        assert_eq!(truncate(&r), vec![1]);
        // the inverse is reduced and has no zeros above its degree
        assert_eq!(truncate(&v), v);
        assert!(v.iter().all(|c| *c < 3));
    }
}

#[test]
fn inversion_fails_on_a_common_factor() {
    // x^2 - 1 and x - 1 have the factor x - 1 in common
    assert_eq!(
        extended_euclid(&[4u128, 1], &[4, 0, 1], 5),
        Err(InversionError::NotInvertible)
    );
    assert_eq!(
        extended_euclid(&[0u128], &[4, 0, 1], 5),
        Err(InversionError::NotInvertible)
    );
    assert_eq!(InversionError::NotInvertible.message(), "Could not invert the polynomial");
    let irr = [2u128, 2, 1, 2, 2, 1, 2, 0, 2, 0, 2, 2];
    assert_eq!(
        extended_euclid(&[0u128, 1, 2, 0, 2, 2, 0, 0, 2, 0, 0], &irr, 3),
        Err(InversionError::NotInvertible)
    );
}

#[test]
fn multiplication_by_one() {
    let irr = [1u128, 3, 5, 0, 8, 6];
    let a = Poly::<u128>::new_full(&irr, &[5, 2, 7, 8, 9], 11);
    let one = Poly::<u128>::new_full(&irr, &[1], 11);
    assert_eq!(a.clone() * one, a);
    let a = Poly::<u128>::new_full(&irr, &[5, 2, 0, 0], 11);
    let one = Poly::<u128>::new_full(&irr, &[1], 11);
    assert_eq!(a.clone() * one, a.truncate());
}

#[test]
fn sparse_polynomials() {
    assert_eq!(scatter::<u128>(4, &[(0, 1), (3, 2), (0, 5)]), vec![5, 0, 0, 2]);
    let p = Poly::<u128>::sparse_full(4, &[(0, 1), (1, 2), (3, 1)], 3, &[(0, 1), (1, 2), (4, 1)]);
    assert_eq!(p, Poly::<u128>::new_full(&[1, 2, 0, 0, 1], &[1, 2, 0, 1], 3));
    // without a polynomial to reduce by, a sparse polynomial is the dense one
    let p = Poly::<u128>::sparse(2, &[(1, 7)], 3);
    assert_eq!(p, Poly::<u128>::new_full(&[], &[0, 7], 3));
    let p = Poly::<u128>::sparse(4, &[(0, 1), (1, 2), (3, 1)], 3);
    assert_eq!(p, Poly::<u128>::from_array(&[1, 2, 0, 1], 3));
    assert!(p.irreducible().is_empty());
    // and its products are not reduced
    let q = Poly::<u128>::sparse(2, &[(1, 1)], 3);
    assert_eq!(
        p * q,
        Poly::<u128>::from_array(&[0, 1, 2, 0, 1, 0], 3)
    );
}

#[test]
fn division_without_a_polynomial_to_reduce_by() {
    let x = Poly::<u128>::from_array(&[5, 2, 7, 8, 9], 11);
    let y = Poly::<u128>::from_array(&[2, 1, 0, 2, 4], 11);
    assert_eq!(x.clone() / y.clone(), x.clone().euclid_div(y.clone()));
    let (q, r) = x.clone() / y.clone();
    assert_eq!(q.coefficients(), &[5, 0, 0, 0, 0]);
    assert_eq!(r.coefficients(), &[6, 8, 7, 9, 0, 0]);
    let x = Poly::<u128>::from_array(&[1, 2], 5);
    let y = Poly::<u128>::from_array(&[0, 0, 1], 5);
    assert_eq!(x.clone() / y.clone(), x.euclid_div(y));
    let x = Poly::<i128>::new_signed(&[], &[-1, 0, 1]);
    let y = Poly::<i128>::new_signed(&[], &[1, 1]);
    assert_eq!(x.clone() / y.clone(), x.euclid_div(y));
}

#[test]
fn constructors() {
    let irr = [2u128, 2, 0, 1];
    let p = Poly::<u128>::new_full(&irr, &[1, 2], 3);
    assert_eq!(p.clone().new_poly(&[2, 2]), Poly::<u128>::new_full(&irr, &[2, 2], 3));
    assert_eq!(Poly::<u128>::new(&irr, &[1, 2]), Poly::<u128>::new_full(&irr, &[1, 2], 0));
    assert_eq!(Poly::<i128>::new_signed(&[1], &[-1, 2]), Poly::<i128>::new_signed_full(&[1], &[-1, 2], 0));
    assert_eq!(Poly::<u128>::new_monomial(&irr, 5, 2), Poly::<u128>::new(&irr, &[0, 0, 5]));
    assert_eq!(Poly::<u128>::from_array(&[1, 2], 3), Poly::<u128>::new_full(&[], &[1, 2], 3));
    assert_eq!(p.clone().leading_coefficient(), (1, 2));
    assert_eq!(p.coefficients(), &[1, 2]);
    assert_eq!(p.irreducible(), &irr);
    assert_eq!(p.modulus(), 3);
    assert_eq!(Poly::<u128>::build(&irr, &[1, 2], &3), p);
    assert_eq!(Poly::<u128>::build_from_irr_poly(&irr, &[1, 2]), Poly::<u128>::new(&irr, &[1, 2]));
    assert_eq!(p.clone().pad(4), Poly::<u128>::new_full(&irr, &[1, 2, 0, 0], 3));
    assert!(!p.clone().is_zero());
    assert!(Poly::<u128>::new_full(&irr, &[0, 0], 3).is_zero());
    assert_eq!(
        Poly::<u128>::new_full(&irr, &[2, 2, 0, 1, 1], 3).reduce(),
        Poly::<u128>::new_full(&irr, &[0, 1, 1], 3)
    );
    assert_eq!(Poly::<u128>::from((&[1u8, 2][..], &[3u8][..], 5u8)), Poly::<u128>::new_full(&[1, 2], &[3], 5));
    assert_eq!(Poly::<i128>::from(&[-3i64, 2][..]), Poly::<i128>::new_signed(&[0], &[-3, 2]));
    assert_eq!(Poly::<u128>::from((&[1u64][..], &[3u64][..])), Poly::<u128>::new(&[1], &[3]));
}

#[test]
fn coefficients_of_literals() {
    assert_eq!(Poly::<u8>::u128_to_t(&[1, 256, 511]), vec![1, 0, 255]);
    assert_eq!(Poly::<u8>::i128_to_t(&[-1, 5]), vec![255, 5]);
    assert_eq!(Poly::<i128>::i128_to_t(&[-1, 5]), vec![-1, 5]);
    let draws = hacspec::poly::random_numbers(100, -2, 3);
    assert_eq!(draws.len(), 100);
    assert!(draws.iter().all(|d| -2 <= *d && *d < 3));
}

#[test]
fn random_coefficients_are_in_range() {
    let p = random_poly::<i128>(200, -3, 4).into_vec();
    assert_eq!(p.len(), 200);
    assert!(p.iter().all(|c| -3 <= *c && *c < 4));
    // a range of one number leaves no choice
    assert_eq!(random_poly::<u128>(50, 5, 6).into_vec(), vec![5u128; 50]);
    assert_eq!(random_poly::<u128>(0, 0, 0).into_vec(), Vec::<u128>::new());
    let irr = hacspec::sequence::Sequence::from_vec(vec![1u128, 0, 0, 1]);
    let p = Poly::<u128>::random(irr, 0..3, 3);
    assert_eq!(p.clone().pad(3), p);
    let p = Poly::<u128>::sparse_random(4, 1..2, 3, &[(4, 1)]);
    assert_eq!(p, Poly::<u128>::new_full(&[0, 0, 0, 0, 1], &[1, 1, 1, 1], 3));
}

#[test]
fn polynomials_of_a_fixed_length() {
    assert_eq!(place::<u128>(3, &[(2, 5), (0, 1), (2, 6)]), vec![1, 0, 6]);
    assert_eq!(fit(&[1u128, 2, 0, 0, 0], 3), vec![1, 2, 0]);
    assert_eq!(fit(&[1u128], 3), vec![1, 0, 0]);
    let m = [(0, 2u128), (1, 2), (3, 1)];
    let x = FixedPoly::<u128>::new_full(3, &m, &[2, 2, 1]);
    let y = FixedPoly::<u128>::new(3, 3, &m, &[(0, 1), (1, 2)]);
    assert!(x.compatible(&y));
    assert_eq!(x.len(), 3);
    assert_eq!(y.coefficients(), &[1, 2, 0]);
    assert_eq!((x.clone() + y.clone()).coefficients(), &[0, 1, 1]);
    assert_eq!((x.clone() - y.clone()).coefficients(), &[1, 0, 1]);
    assert_eq!((x.clone() * y.clone()).coefficients(), &[1, 2, 2]);
    let (q, r) = x.clone() / y.clone();
    assert_eq!(q.coefficients(), &[0, 2, 0]);
    assert_eq!(r.coefficients(), &[2, 0, 0]);
    let other = FixedPoly::<u128>::new_full(5, &m, &[2, 2, 1]);
    assert!(!x.compatible(&other));
    let other = FixedPoly::<u128>::new_full(3, &[(0, 1), (3, 1)], &[2, 2, 1]);
    assert!(!x.compatible(&other));
    let other = FixedPoly::<u128>::new_full(3, &[(0, 2), (1, 2), (4, 1)], &[2, 2, 1, 0]);
    assert!(!x.compatible(&other));
    let z = FixedPoly::<u128>::random(7, 1, &[(7, 1)]);
    assert_eq!(z.coefficients(), &[0; 7]);
}

#[test]
fn inversion_on_random_operands() {
    let n = 7u128;
    let mut inverted = 0;
    for _ in 0..200 {
        let p = random_poly::<u128>(5, 0, 7).into_vec();
        let mut irr = random_poly::<u128>(5, 0, 7).into_vec();
        irr.push(1);
        match extended_euclid(&p, &irr, n) {
            Ok(v) => {
                let r = euclid_div(&poly_mul(&p, &v, n), &irr, n).1;
                assert_eq!(truncate(&r), vec![1]);
                // the inverse is of a smaller degree than the polynomial
                // that it is an inverse modulo
                assert!(v.len() < irr.len());
                inverted += 1;
            }
            Err(e) => assert_eq!(e, InversionError::NotInvertible),
        }
    }
    assert!(inverted > 0);
}
