use sponge_merkle::fr::{Fr, FrParameters, FR_MODULUS};

#[test]
fn field_constants() {
    assert_eq!(FrParameters::modulus(), FR_MODULUS);
    assert_eq!(FrParameters::modulus_bits(), 31);
    assert_eq!(Fr::zero().as_u64(), 0);
    assert_eq!(Fr::one().as_u64(), 1);
}

#[test]
fn field_addition_wraps() {
    let a = Fr::from_u64(FR_MODULUS - 1);
    let b = Fr::from_u64(5);
    assert_eq!(a.add(b).as_u64(), 4);
    assert_eq!(b.add(a).as_u64(), 4);
    assert_eq!(Fr::from_u64(2).add(Fr::from_u64(3)).as_u64(), 5);
}

#[test]
fn field_subtraction_wraps() {
    let a = Fr::from_u64(3);
    let b = Fr::from_u64(7);
    assert_eq!(b.sub(a).as_u64(), 4);
    assert_eq!(a.sub(b).as_u64(), FR_MODULUS - 4);
    assert_eq!(a.sub(a).as_u64(), 0);
}

#[test]
fn field_multiplication() {
    assert_eq!(Fr::from_u64(6).mul(Fr::from_u64(7)).as_u64(), 42);
    let big = Fr::from_u64(FR_MODULUS - 1);
    // (p - 1)^2 = p^2 - 2p + 1 = 1 (mod p)
    assert_eq!(big.mul(big).as_u64(), 1);
    assert_eq!(big.mul(Fr::zero()).as_u64(), 0);
}

#[test]
fn field_reduction_and_equality() {
    let a = Fr::from_u64(FR_MODULUS + 11);
    assert_eq!(a.as_u64(), 11);
    assert!(a.equals(&Fr::from_u64(11)));
    assert!(!a.equals(&Fr::from_u64(12)));
}
