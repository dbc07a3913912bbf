use ark_ff::{PrimeField, ToBytes};
use packmarlin::field::Fr;
use packmarlin::poso::poso_from_byte;
use rand::rngs::StdRng;
use rand::SeedableRng;

#[test]
fn sum_of_small_values() {
    let a = Fr::from_u64(7);
    let b = Fr::from_u64(35);
    assert_eq!(a.plus(&b), Fr::from_u64(42));
}

#[test]
fn difference_wraps_below_zero() {
    let a = Fr::from_u64(0);
    let b = Fr::from_u64(1);
    let d = a.minus(&b);
    assert_eq!(
        d.limbs(),
        (0xffff_ffff_0000_0000, 0x53bd_a402_fffe_5bfe, 0x3339_d808_09a1_d805, 0x73ed_a753_299d_7d48)
    );
    assert_eq!(d.plus(&b), Fr::zero());
}

#[test]
fn modulus_is_not_an_element() {
    assert!(Fr::from_limbs(
        0xffff_ffff_0000_0001,
        0x53bd_a402_fffe_5bfe,
        0x3339_d808_09a1_d805,
        0x73ed_a753_299d_7d48
    )
    .is_none());
    assert!(Fr::from_limbs(
        0xffff_ffff_0000_0000,
        0x53bd_a402_fffe_5bfe,
        0x3339_d808_09a1_d805,
        0x73ed_a753_299d_7d48
    )
    .is_some());
}

#[test]
fn zero_is_recognised() {
    assert!(Fr::zero().is_zero());
    assert!(Fr::from_u64(0).is_zero());
    assert!(!Fr::from_u64(1).is_zero());
    assert!(!Fr::from_limbs(0, 0, 0, 1).unwrap().is_zero());
}

#[test]
fn limbs_come_back_as_given() {
    let x = Fr::from_limbs(1, 2, 3, 4).unwrap();
    assert_eq!(x.limbs(), (1, 2, 3, 4));
    assert_eq!(Fr::from_u64(9).limbs(), (9, 0, 0, 0));
    assert!(Fr::from_limbs(0, 0, 0, 0x73ed_a753_299d_7d49).is_none());
    assert!(Fr::from_limbs(u64::MAX, u64::MAX, u64::MAX, 0x73ed_a753_299d_7d47).is_some());
}

#[test]
fn encoding_is_that_of_the_field() {
    let x = Fr::from_limbs(0x0807_0605_0403_0201, 2, 3, 4).unwrap();
    let bytes = x.to_le_bytes();
    assert_eq!(bytes.len(), 32);
    assert_eq!(&bytes[..9], &[1, 2, 3, 4, 5, 6, 7, 8, 2]);
    let l = x.limbs();
    let ark =
        ark_bls12_381::Fr::from_repr(ark_ff::BigInteger256([l.0, l.1, l.2, l.3])).unwrap();
    let mut expected = Vec::new();
    ark.write(&mut expected).unwrap();
    assert_eq!(bytes, expected);
}

#[test]
fn sums_are_reduced() {
    let top = Fr::from_limbs(
        0xffff_ffff_0000_0000,
        0x53bd_a402_fffe_5bfe,
        0x3339_d808_09a1_d805,
        0x73ed_a753_299d_7d48,
    )
    .unwrap();
    assert_eq!(top.plus(&Fr::from_u64(1)), Fr::zero());
    assert_eq!(top.plus(&top), top.minus(&Fr::from_u64(1)));
    assert_eq!(Fr::from_u64(5).minus(&Fr::from_u64(5)), Fr::zero());
    assert_eq!(Fr::from_u64(9).minus(&Fr::from_u64(5)), Fr::from_u64(4));
}

#[test]
fn random_elements_follow_the_generator() {
    let mut a = StdRng::seed_from_u64(1);
    let mut b = StdRng::seed_from_u64(1);
    let x = Fr::random(&mut a);
    assert_eq!(x, Fr::random(&mut b));
    assert_ne!(x, Fr::random(&mut a));
}

#[test]
fn a_byte_becomes_a_value_between_one_and_256() {
    assert_eq!(poso_from_byte(0), 1);
    assert_eq!(poso_from_byte(41), 42);
    assert_eq!(poso_from_byte(255), 256);
}

#[test]
fn random_elements_are_reduced() {
    let mut rng = StdRng::seed_from_u64(17);
    for _ in 0..50 {
        let x = Fr::random(&mut rng);
        let l = x.limbs();
        assert_eq!(Fr::from_limbs(l.0, l.1, l.2, l.3), Some(x));
    }
}
