//! Concrete instances of the algebraic laws proved in the library.

use tower_field::arithmetic;

fn zero(n: usize) -> Vec<bool> {
    vec![false; n]
}

fn one(n: usize) -> Vec<bool> {
    let mut v = vec![false; n];
    v[0] = true;
    v
}

#[test]
fn test_add_self_is_zero() {
    let a = vec![true, false, true, true, false, false, true, false];
    assert_eq!(arithmetic::add(&a, &a), zero(8));
}

#[test]
fn test_add_zero_is_identity() {
    let a = vec![true, false, true, true];
    assert_eq!(arithmetic::add(&a, &zero(4)), a);
}

#[test]
fn test_add_commutative() {
    let a = vec![true, false, true, false];
    let b = vec![true, true, false, false];
    assert_eq!(arithmetic::add(&a, &b), arithmetic::add(&b, &a));
}

#[test]
fn test_add_associative() {
    let a = vec![true, false, true, false];
    let b = vec![true, true, false, false];
    let c = vec![false, true, true, true];
    assert_eq!(
        arithmetic::add(&a, &arithmetic::add(&b, &c)),
        arithmetic::add(&arithmetic::add(&a, &b), &c)
    );
}

#[test]
fn test_mul_one_is_identity() {
    let a = vec![true, false, true, true, false, true, false, false];
    assert_eq!(arithmetic::mul(&a, &one(8)), a);
}

#[test]
fn test_mul_zero_is_zero() {
    let a = vec![true, false, true, true];
    assert_eq!(arithmetic::mul(&a, &zero(4)), zero(4));
}

#[test]
fn test_mul_commutative() {
    let a = vec![true, false, true, true, false, true, false, false];
    let b = vec![false, true, true, false, true, false, false, true];
    assert_eq!(arithmetic::mul(&a, &b), arithmetic::mul(&b, &a));
}

#[test]
fn test_mul_associative() {
    let a = vec![true, false, true, true, false, true, false, false];
    let b = vec![false, true, true, false, true, false, false, true];
    let c = vec![true, true, false, false, false, false, true, true];
    assert_eq!(
        arithmetic::mul(&a, &arithmetic::mul(&b, &c)),
        arithmetic::mul(&arithmetic::mul(&a, &b), &c)
    );
}

#[test]
fn test_rot_additive() {
    let a = vec![true, false, true, true, false, true, false, false];
    let b = vec![false, true, true, false, true, false, false, true];
    assert_eq!(
        arithmetic::rot(&arithmetic::add(&a, &b)),
        arithmetic::add(&arithmetic::rot(&a), &arithmetic::rot(&b))
    );
}

#[test]
fn test_mul_inv_round_trip() {
    let a = vec![true, false, true, true, false, true, false, false];
    let inverse = arithmetic::inv(&a).unwrap();
    assert_eq!(arithmetic::mul(&a, &inverse), one(8));
}

#[test]
fn test_inv_zero_is_domain_error() {
    assert_eq!(
        arithmetic::inv(&zero(4)),
        Err(arithmetic::InvError::NotInvertible)
    );
    assert_eq!(
        arithmetic::inv(&vec![false]),
        Err(arithmetic::InvError::NotInvertible)
    );
}

#[test]
fn test_inv_involution() {
    let a = vec![false, true, true, false, true, false, false, true];
    let inverse = arithmetic::inv(&a).unwrap();
    assert_eq!(arithmetic::inv(&inverse).unwrap(), a);
}

#[test]
fn test_inv_round_trip_gf16_exhaustive() {
    // over GF(16), every nonzero element divided by itself is one
    for i in 1..16 {
        let a = vec![i & 1 != 0, i & 2 != 0, i & 4 != 0, i & 8 != 0];
        let inverse = arithmetic::inv(&a).unwrap();
        assert_eq!(arithmetic::mul(&a, &inverse), one(4));
        assert_eq!(arithmetic::inv(&inverse).unwrap(), a);
    }
}
