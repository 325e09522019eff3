use silent_threshold_encryption::algebra::{Fr, G1, G2, Gt};
use silent_threshold_encryption::security::{
    SensitiveScalar, SensitiveVec, constant_time_eq, constant_time_eq_g1, constant_time_eq_g2, constant_time_eq_pairing,
    subtle_constant_time_eq, verify_bls_signature_ct,
};

#[test]
fn test_constant_time_eq() {
    let a = Fr::rand().unwrap();
    let b = Fr::rand().unwrap();

    assert!(constant_time_eq(&a, &a));
    assert!(constant_time_eq(&b, &b));

    if a.to_bytes() != b.to_bytes() {
        assert!(!constant_time_eq(&a, &b));
    }
}

#[test]
fn test_subtle_constant_time_eq() {
    let a = vec![1u8, 2, 3, 4];
    let b = vec![1u8, 2, 3, 4];
    let c = vec![1u8, 2, 3, 5];

    assert!(subtle_constant_time_eq(&a, &b));
    assert!(!subtle_constant_time_eq(&a, &c));
}

#[test]
fn subtle_eq_lengths_differ() {
    assert!(!subtle_constant_time_eq(&[1, 2, 3], &[1, 2]));
    assert!(subtle_constant_time_eq(&[], &[]));
}

#[test]
fn test_constant_time_eq_g1() {
    let g1 = G1::generator();
    let g1_double = g1.add(&g1);

    assert!(constant_time_eq_g1(&g1, &g1));
    assert!(constant_time_eq_g1(&g1_double, &g1_double));

    assert!(!constant_time_eq_g1(&g1, &g1_double));
}

#[test]
fn test_constant_time_eq_g2() {
    let g2 = G2::generator();
    let g2_double = g2.add(&g2);

    assert!(constant_time_eq_g2(&g2, &g2));
    assert!(constant_time_eq_g2(&g2_double, &g2_double));

    assert!(!constant_time_eq_g2(&g2, &g2_double));
}

#[test]
fn test_verify_bls_signature_ct() {
    let sk = Fr::rand().unwrap();
    let pk = G1::gen_mul(&sk);

    let message = G2::gen_mul(&Fr::rand().unwrap());

    let valid_signature = message.mul(&sk);
    let invalid_signature = message.mul(&Fr::rand().unwrap());

    assert!(verify_bls_signature_ct(&valid_signature, &pk, &message));
    assert!(!verify_bls_signature_ct(&invalid_signature, &pk, &message));
}

#[test]
fn test_constant_time_eq_pairing() {
    let g1 = G1::gen_mul(&Fr::rand().unwrap());
    let g2 = G2::gen_mul(&Fr::rand().unwrap());

    let pairing1 = Gt::pairing(&g1, &g2);
    let pairing2 = Gt::pairing(&g1, &g2);
    let pairing3 = Gt::pairing(&G1::gen_mul(&Fr::rand().unwrap()), &g2);

    assert!(constant_time_eq_pairing(&pairing1, &pairing2));
    assert!(!constant_time_eq_pairing(&pairing1, &pairing3));
}

#[test]
fn gt_equality_is_byte_equality() {
    let g1 = G1::generator();
    let g2 = G2::generator();
    let a = Gt::pairing(&g1, &g2);
    let b = Gt::pairing(&g1, &g2);
    assert_eq!(a.to_bytes(), b.to_bytes());
    assert_eq!(a.to_bytes().len(), 576);
    assert!(a.equals(&b));
    let c = a.mul(&Fr::from_u64(2));
    assert!(!a.equals(&c));
    assert_ne!(a.to_bytes(), c.to_bytes());
}

#[test]
fn test_sensitive_scalar_zeroization() {
    let secret = Fr::rand().unwrap();

    let mut sensitive = SensitiveScalar::new(secret.clone());
    assert_eq!(sensitive.expose_secret().to_bytes(), secret.to_bytes());

    sensitive.zeroize();
    assert_eq!(sensitive.expose_secret().to_bytes(), Fr::zero().to_bytes());
}

#[test]
fn test_sensitive_scalar_drop() {
    let secret = Fr::rand().unwrap();
    {
        let mut sensitive = SensitiveScalar::new(secret);
        sensitive.zeroize();
        assert!(sensitive.expose_secret().is_zero());
    }
    assert_eq!(SensitiveScalar::one().into_inner().to_bytes(), Fr::one().to_bytes());
    assert!(SensitiveScalar::zero().into_inner().is_zero());
}

#[test]
fn test_sensitive_vec() {
    let mut vec = SensitiveVec::new(vec![Fr::from_u64(1), Fr::from_u64(2), Fr::from_u64(3)]);

    assert_eq!(vec.len(), 3);
    assert!(!vec.is_empty());
    assert_eq!(vec.expose_secret()[1].to_bytes(), Fr::from_u64(2).to_bytes());

    vec.zeroize();
    assert_eq!(vec.len(), 0);
    assert!(vec.is_empty());
    assert!(vec.redacted().contains("[REDACTED]"));
}

#[test]
fn test_sensitive_scalar_debug() {
    let secret = Fr::from_u64(0x1234_5678);
    let sensitive = SensitiveScalar::new(secret.clone());

    let text = sensitive.redacted();
    assert!(text.contains("[REDACTED]"));
    assert!(!text.contains("305419896"));
    assert!(!text.contains("12345678"));
}
