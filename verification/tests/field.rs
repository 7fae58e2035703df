use mvlookup::field::{batch_inversion, copy_elements, Fe};

#[test]
fn add_wraps_at_the_order() {
    let minus_one = Fe::zero().sub(&Fe::one());
    assert_eq!(minus_one.add(&Fe::one()), Fe::zero());
    assert_eq!(
        minus_one.to_limbs(),
        [0x43e1f593f0000000, 0x2833e84879b97091, 0xb85045b68181585d, 0x30644e72e131a029]
    );
}

#[test]
fn sub_and_mul_are_exact_on_small_values() {
    assert_eq!(Fe::from_u64(7).sub(&Fe::from_u64(3)), Fe::from_u64(4));
    assert_eq!(Fe::from_u64(7).mul(&Fe::from_u64(3)), Fe::from_u64(21));
    assert_eq!(Fe::from_u32(7).add(&Fe::from_u32(3)), Fe::from_u64(10));
    assert_ne!(Fe::from_u64(7).mul(&Fe::from_u64(3)), Fe::from_u64(7));
}

#[test]
fn mul_reduces_modulo_the_order() {
    // (p - 1) * (p - 1) = 1 modulo p
    let minus_one = Fe::zero().sub(&Fe::one());
    assert_eq!(minus_one.mul(&minus_one), Fe::one());
    // 2^64 * 2^64 = 2^128
    let two_64 = Fe::from_limbs([0, 1, 0, 0]).unwrap();
    assert_eq!(two_64.mul(&two_64).to_limbs(), [0, 0, 1, 0]);
}

#[test]
fn from_limbs_refuses_the_order_and_above() {
    let order = [0x43e1f593f0000001, 0x2833e84879b97091, 0xb85045b68181585d, 0x30644e72e131a029];
    assert!(Fe::from_limbs(order).is_none());
    assert!(Fe::from_limbs([u64::MAX; 4]).is_none());
    let below = [0x43e1f593f0000000, 0x2833e84879b97091, 0xb85045b68181585d, 0x30644e72e131a029];
    assert_eq!(Fe::from_limbs(below).unwrap().to_limbs(), below);
    assert_eq!(Fe::from_limbs([5, 0, 0, 0]).unwrap(), Fe::from_u64(5));
}

#[test]
fn is_zero_and_equals_compare_values() {
    assert!(Fe::zero().is_zero());
    assert!(!Fe::one().is_zero());
    assert!(Fe::from_u64(9).equals(&Fe::from_u32(9)));
    assert!(!Fe::from_u64(9).equals(&Fe::from_u64(10)));
}

#[test]
fn batch_inversion_inverts_and_keeps_zero() {
    let mut v = vec![Fe::from_u64(2), Fe::zero(), Fe::from_u64(7)];
    batch_inversion(&mut v);
    assert_eq!(v.len(), 3);
    assert_eq!(v[0].mul(&Fe::from_u64(2)), Fe::one());
    assert!(v[1].is_zero());
    assert_eq!(v[2].mul(&Fe::from_u64(7)), Fe::one());
    assert!(!v[0].equals(&Fe::from_u64(2)));
}

#[test]
fn batch_inversion_of_one_half() {
    // the inverse of 2 is (p + 1) / 2
    let mut v = vec![Fe::from_u64(2)];
    batch_inversion(&mut v);
    assert_eq!(
        v[0].to_limbs(),
        [0xa1f0fac9f8000001, 0x9419f4243cdcb848, 0xdc2822db40c0ac2e, 0x183227397098d014]
    );
}

#[test]
fn random_elements_differ() {
    let a = Fe::random();
    let b = Fe::random();
    let c = Fe::random();
    assert!(!(a.equals(&b) && b.equals(&c)));
    assert!(Fe::from_limbs(a.to_limbs()).is_some());
}

#[test]
fn copy_elements_keeps_the_elements_in_order() {
    let v = vec![Fe::from_u64(3), Fe::zero(), Fe::from_u64(9)];
    assert_eq!(copy_elements(&v), v);
    assert!(copy_elements(&Vec::new()).is_empty());
    v[0].bounded();
}
