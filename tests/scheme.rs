use silent_threshold_encryption::algebra::{Fr, G1, G2, Gt};
use silent_threshold_encryption::decryption::agg_dec;
use silent_threshold_encryption::encryption::{encrypt, encrypt_with, Ciphertext};
use silent_threshold_encryption::error::SteError;
use silent_threshold_encryption::kzg::PowersOfTau;
use silent_threshold_encryption::poly::{interp_mostly_zero, lagrange_poly, Poly};
use silent_threshold_encryption::setup::{AggregateKey, LagrangePowers, PublicKey, SecretKey};
use silent_threshold_encryption::trusted_setup::Ceremony;

struct Parties {
    params: PowersOfTau,
    sk: Vec<SecretKey>,
    ak: AggregateKey,
}

/// Transcript of a random tau, `n` keys (party 0 nullified) from the
/// Lagrange tables, and their aggregate key.
fn parties(n: usize) -> Parties {
    let tau = Fr::rand().unwrap();
    let params = PowersOfTau::setup(n, &tau).unwrap();
    let lagrange = LagrangePowers::new(&tau, n).unwrap();
    let mut sk = Vec::new();
    let mut pk = Vec::new();
    for i in 0..n {
        let mut s = SecretKey::new().unwrap();
        if i == 0 {
            s.nullify();
        }
        pk.push(s.lagrange_get_pk(i, &lagrange, n).unwrap());
        sk.push(s);
    }
    let ak = AggregateKey::new(pk, &params).unwrap();
    Parties { params, sk, ak }
}

/// Encrypts at threshold `t` and decrypts with the partials of `honest`.
fn run(p: &Parties, t: usize, honest: &[usize]) -> (Ciphertext, Result<Gt, SteError>) {
    let n = p.sk.len();
    let ct = encrypt(&p.ak, t, &p.params).unwrap();
    let mut partials = vec![G2::zero(); n];
    let mut selector = vec![false; n];
    for &i in honest {
        selector[i] = true;
        partials[i] = p.sk[i].partial_decryption(&ct);
    }
    let r = agg_dec(&partials, &ct, &selector, &p.ak, &p.params);
    (ct, r)
}

#[test]
fn test_setup() {
    let n = 16;
    let tau = Fr::rand().unwrap();
    let params = PowersOfTau::setup(n, &tau).unwrap();
    let lagrange_params = LagrangePowers::new(&tau, n).unwrap();

    let mut pk: Vec<PublicKey> = Vec::new();
    for i in 0..n {
        let sk = SecretKey::new().unwrap();
        let a = sk.get_pk(i, &params, n).unwrap();
        let b = sk.lagrange_get_pk(i, &lagrange_params, n).unwrap();
        assert_eq!(a.bls_pk.to_bytes(), b.bls_pk.to_bytes());
        assert_eq!(a.sk_li.to_bytes(), b.sk_li.to_bytes());
        assert_eq!(a.sk_li_minus0.to_bytes(), b.sk_li_minus0.to_bytes());
        assert_eq!(a.sk_li_x.to_bytes(), b.sk_li_x.to_bytes(), "sk_li_x mismatch for party {}", i);
        assert_eq!(a.sk_li_lj_z.len(), b.sk_li_lj_z.len());
        for j in 0..n {
            assert_eq!(a.sk_li_lj_z[j].to_bytes(), b.sk_li_lj_z[j].to_bytes());
        }
        pk.push(a);
    }

    let _ak = AggregateKey::new(pk, &params).unwrap();
}

#[test]
fn test_encryption() {
    let n = 8;
    let tau = Fr::rand().unwrap();
    let params = PowersOfTau::setup(n, &tau).unwrap();
    let mut pk = Vec::new();
    for i in 0..n {
        pk.push(SecretKey::new().unwrap().get_pk(i, &params, n).unwrap());
    }
    let ak = AggregateKey::new(pk, &params).unwrap();
    let ct = encrypt(&ak, 2, &params).unwrap();
    let ct_bytes = ct.to_bytes();
    println!("Compressed ciphertext: {} bytes", ct_bytes.len());
    assert_eq!(ct_bytes.len(), 96 + 2 * 48 + 6 * 96 + 576 + 8);
    println!("G1 len: {} bytes", G1::generator().to_bytes().len());
    println!("G2 len: {} bytes", G2::generator().to_bytes().len());
    println!("GT len: {} bytes", ak.e_gh.to_bytes().len());
}

#[test]
fn test_decryption() {
    let n = 1 << 4;
    let t: usize = n / 2;
    let tau = Fr::rand().unwrap();
    let params = PowersOfTau::setup(n, &tau).unwrap();

    let mut sk: Vec<SecretKey> = Vec::new();
    let mut pk: Vec<PublicKey> = Vec::new();
    sk.push(SecretKey::new().unwrap());
    sk[0].nullify();
    pk.push(sk[0].get_pk(0, &params, n).unwrap());
    for i in 1..n {
        sk.push(SecretKey::new().unwrap());
        pk.push(sk[i].get_pk(i, &params, n).unwrap());
    }

    let agg_key = AggregateKey::new(pk, &params).unwrap();
    let ct = encrypt(&agg_key, t, &params).unwrap();

    let mut partial_decryptions: Vec<G2> = Vec::new();
    for sk_i in sk.iter().take(t + 1) {
        partial_decryptions.push(sk_i.partial_decryption(&ct));
    }
    for _ in t + 1..n {
        partial_decryptions.push(G2::zero());
    }

    let mut selector: Vec<bool> = Vec::new();
    selector.extend(std::iter::repeat_n(true, t + 1));
    selector.extend(std::iter::repeat_n(false, n - t - 1));

    let dec_key = agg_dec(&partial_decryptions, &ct, &selector, &agg_key, &params).unwrap();
    assert!(dec_key.equals(&ct.enc_key));
}

#[test]
fn scenario_n4_t1_parties_0_1() {
    let p = parties(4);
    let (ct, r) = run(&p, 1, &[0, 1]);
    assert!(r.unwrap().equals(&ct.enc_key));
}

#[test]
fn scenario_n4_t1_without_party_0() {
    let p = parties(4);
    let (_, r) = run(&p, 1, &[1, 2]);
    match r {
        Err(SteError::ValidationError(m)) => {
            assert!(m.contains("Party 0"));
            assert!(m.contains("must always be selected"));
        }
        _ => panic!("expected a validation error"),
    }
}

#[test]
fn scenario_n8_t3_too_few_parties() {
    let p = parties(8);
    let (_, r) = run(&p, 3, &[0, 1, 2]);
    assert!(matches!(r, Err(SteError::InvalidThreshold(_))));
}

#[test]
fn scenario_n8_t3_parties_0_to_3() {
    let p = parties(8);
    let (ct, r) = run(&p, 3, &[0, 1, 2, 3]);
    let key = r.unwrap();
    assert_eq!(key.to_bytes(), ct.enc_key.to_bytes());
}

#[test]
fn scenario_n16_t7_even_parties() {
    let p = parties(16);
    let (ct, r) = run(&p, 7, &[0, 2, 4, 6, 8, 10, 12, 14]);
    assert!(r.unwrap().equals(&ct.enc_key));
}

#[test]
fn scenario_n4_t2_identity_partial() {
    let p = parties(4);
    let n = 4;
    let ct = encrypt(&p.ak, 2, &p.params).unwrap();
    let mut partials = Vec::new();
    for i in 0..n {
        partials.push(p.sk[i].partial_decryption(&ct));
    }
    partials[2] = G2::zero();
    let selector = vec![true; n];
    match agg_dec(&partials, &ct, &selector, &p.ak, &p.params) {
        Err(SteError::ValidationError(m)) => assert!(m.contains("decryption verification failed")),
        _ => panic!("expected the final check to fail"),
    }
}

#[test]
fn correctness_for_every_threshold() {
    for n in [2usize, 4, 8] {
        let p = parties(n);
        for t in 1..n {
            let quorum: Vec<usize> = (0..=t).collect();
            let (ct, r) = run(&p, t, &quorum);
            assert!(r.unwrap().equals(&ct.enc_key), "n = {}, t = {}", n, t);
            let all: Vec<usize> = (0..n).collect();
            let (ct, r) = run(&p, t, &all);
            assert!(r.unwrap().equals(&ct.enc_key), "n = {}, t = {}, all parties", n, t);
        }
    }
}

#[test]
fn quorum_errors_before_pairing() {
    let p = parties(4);
    let ct = encrypt(&p.ak, 1, &p.params).unwrap();
    let partials = vec![G2::zero(); 4];
    let short = vec![G2::zero(); 3];
    let sel = vec![true, true, false, false];
    assert!(matches!(agg_dec(&short, &ct, &sel, &p.ak, &p.params), Err(SteError::ValidationError(_))));
    assert!(matches!(
        agg_dec(&partials, &ct, &vec![true, true], &p.ak, &p.params),
        Err(SteError::ValidationError(_))
    ));
    let (_, r) = run(&p, 3, &[0, 1, 2]);
    assert!(r.is_err());
}

#[test]
fn encryption_parameter_errors() {
    let p = parties(4);
    assert!(matches!(encrypt(&p.ak, 0, &p.params), Err(SteError::InvalidParameter(_))));
    assert!(matches!(encrypt(&p.ak, 4, &p.params), Err(SteError::InvalidParameter(_))));
    let small = PowersOfTau::setup(2, &Fr::rand().unwrap()).unwrap();
    assert!(matches!(encrypt(&p.ak, 2, &small), Err(SteError::InvalidParameter(_))));
}

#[test]
fn encryption_key_is_s4_times_e_gh() {
    let p = parties(4);
    let gamma = Fr::rand().unwrap();
    let s = [Fr::rand().unwrap(), Fr::rand().unwrap(), Fr::rand().unwrap(), Fr::rand().unwrap(), Fr::from_u64(7)];
    let ct = encrypt_with(&p.ak, 1, &p.params, &gamma, &s).unwrap();
    let e = Gt::pairing(&G1::generator(), &G2::generator());
    assert!(ct.enc_key.equals(&e.mul(&Fr::from_u64(7))));
    assert!(ct.gamma_g2.equals(&G2::gen_mul(&gamma)));
    assert_eq!(ct.t, 1);
}

#[test]
fn lagrange_errors() {
    assert!(matches!(LagrangePowers::new(&Fr::zero(), 4), Err(SteError::InvalidParameter(_))));
    assert!(matches!(LagrangePowers::new(&Fr::rand().unwrap(), 0), Err(SteError::InvalidParameter(_))));
    assert!(matches!(LagrangePowers::new(&Fr::rand().unwrap(), 6), Err(SteError::InvalidParameter(_))));
    assert!(matches!(LagrangePowers::new(&Fr::one(), 4), Err(SteError::InvalidParameter(_))));
}

#[test]
fn public_key_errors() {
    let tau = Fr::rand().unwrap();
    let params = PowersOfTau::setup(4, &tau).unwrap();
    let lagrange = LagrangePowers::new(&tau, 4).unwrap();
    let sk = SecretKey::new().unwrap();
    assert!(matches!(sk.lagrange_get_pk(4, &lagrange, 4), Err(SteError::ValidationError(_))));
    assert!(matches!(sk.get_pk(4, &params, 4), Err(SteError::ValidationError(_))));
    assert!(matches!(sk.get_pk(1, &params, 3), Err(SteError::InvalidParameter(_))));
    let tiny = PowersOfTau::setup(1, &tau).unwrap();
    assert!(matches!(sk.get_pk(1, &tiny, 4), Err(SteError::KzgError(_))));
}

#[test]
fn aggregate_key_errors() {
    let tau = Fr::rand().unwrap();
    let params = PowersOfTau::setup(4, &tau).unwrap();
    assert!(matches!(AggregateKey::new(vec![], &params), Err(SteError::ValidationError(_))));
    let short = PowersOfTau::setup(2, &tau).unwrap();
    let pk: Vec<PublicKey> = (0..4).map(|i| PublicKey::zero_for_domain(i, 4)).collect();
    assert!(matches!(AggregateKey::new(pk, &short), Err(SteError::ValidationError(_))));
}

#[test]
fn zero_slot_equals_key_of_zero_scalar() {
    let tau = Fr::rand().unwrap();
    let lagrange = LagrangePowers::new(&tau, 4).unwrap();
    let zero = SecretKey::from_scalar(Fr::zero()).lagrange_get_pk(2, &lagrange, 4).unwrap();
    let slot = PublicKey::zero_for_domain(2, 4);
    assert_eq!(zero.bls_pk.to_bytes(), slot.bls_pk.to_bytes());
    assert_eq!(zero.sk_li.to_bytes(), slot.sk_li.to_bytes());
    assert_eq!(zero.sk_li_x.to_bytes(), slot.sk_li_x.to_bytes());
    assert_eq!(zero.sk_li_minus0.to_bytes(), slot.sk_li_minus0.to_bytes());
    for j in 0..4 {
        assert_eq!(zero.sk_li_lj_z[j].to_bytes(), slot.sk_li_lj_z[j].to_bytes());
    }
}

#[test]
fn test_ceremony_single_participant() {
    let max_degree = 16;
    let ceremony = Ceremony::new(max_degree).unwrap();
    assert_eq!(ceremony.num_participants(), 1);

    let params = ceremony.finalize();
    assert_eq!(params.powers_of_g.len(), max_degree + 1);
    assert_eq!(params.powers_of_h.len(), max_degree + 1);
}

#[test]
fn test_ceremony_multiple_participants() {
    let max_degree = 16;
    let mut ceremony = Ceremony::new(max_degree).unwrap();
    assert_eq!(ceremony.num_participants(), 1);

    ceremony.contribute().unwrap();
    ceremony.contribute().unwrap();
    ceremony.contribute().unwrap();

    assert_eq!(ceremony.num_participants(), 4);

    for i in 1..ceremony.num_participants() {
        assert!(ceremony.verify_contribution(i));
    }
    assert!(!ceremony.verify_contribution(0));
    assert!(!ceremony.verify_contribution(4));

    let params = ceremony.finalize();
    assert_eq!(params.powers_of_g.len(), max_degree + 1);
    assert_eq!(params.powers_of_h.len(), max_degree + 1);
}

#[test]
fn test_ceremony_base_points_unchanged() {
    let max_degree = 8;
    let mut ceremony = Ceremony::new(max_degree).unwrap();
    let initial_g0 = ceremony.contributions[0].powers_of_g[0].to_bytes();
    let initial_h0 = ceremony.contributions[0].powers_of_h[0].to_bytes();

    ceremony.contribute().unwrap();

    assert_eq!(ceremony.contributions[1].powers_of_g[0].to_bytes(), initial_g0);
    assert_eq!(ceremony.contributions[1].powers_of_h[0].to_bytes(), initial_h0);
    assert_eq!(initial_g0, G1::generator().to_bytes());
    assert_eq!(initial_h0, G2::generator().to_bytes());
}

#[test]
fn ceremony_powers_are_of_the_product() {
    let d = 6;
    let t1 = Fr::rand().unwrap();
    let t2 = Fr::rand().unwrap();
    let t3 = Fr::rand().unwrap();
    let mut ceremony = Ceremony::new_with(d, &t1).unwrap();
    ceremony.contribute_with(&t2);
    ceremony.contribute_with(&t3);
    let transcript = ceremony.finalize();
    let expected = PowersOfTau::setup(d, &t1.mul(&t2).mul(&t3)).unwrap();
    for i in 0..=d {
        assert_eq!(transcript.powers_of_g[i].to_bytes(), expected.powers_of_g[i].to_bytes());
        assert_eq!(transcript.powers_of_h[i].to_bytes(), expected.powers_of_h[i].to_bytes());
    }
}

#[test]
fn ceremony_transcript_decrypts() {
    let n = 4;
    let mut ceremony = Ceremony::new(n).unwrap();
    ceremony.contribute().unwrap();
    let params = ceremony.finalize();
    let mut sk = Vec::new();
    let mut pk = Vec::new();
    for i in 0..n {
        let mut s = SecretKey::new().unwrap();
        if i == 0 {
            s.nullify();
        }
        pk.push(s.get_pk(i, &params, n).unwrap());
        sk.push(s);
    }
    let ak = AggregateKey::new(pk, &params).unwrap();
    let p = Parties { params, sk, ak };
    let (ct, r) = run(&p, 2, &[0, 1, 3]);
    assert!(r.unwrap().equals(&ct.enc_key));
}

#[test]
fn ceremony_rejects_degree_zero() {
    assert!(matches!(Ceremony::new(0), Err(SteError::KzgError(_))));
    assert!(matches!(PowersOfTau::setup(0, &Fr::one()), Err(SteError::KzgError(_))));
}

#[test]
fn zeroized_secret_key_encodes_zero() {
    let mut sk = SecretKey::new().unwrap();
    sk.zeroize();
    assert_eq!(sk.to_bytes(), vec![0u8; 32]);
    assert_eq!(sk.to_bytes(), Fr::zero().to_bytes());
}

#[test]
fn secret_key_text_is_redacted() {
    let sk = SecretKey::from_scalar(Fr::from_u64(0xabcdef));
    let text = sk.redacted();
    assert!(text.contains("[REDACTED]"));
    assert!(!text.contains("abcdef"));
    assert!(!text.contains("239"));
}

#[test]
fn nullified_key_is_one() {
    let mut sk = SecretKey::new().unwrap();
    sk.nullify();
    assert_eq!(sk.to_bytes(), Fr::one().to_bytes());
    let mut one = vec![0u8; 32];
    one[0] = 1;
    assert_eq!(Fr::one().to_bytes(), one);
    assert_eq!(Fr::from_u64(0x0102).to_bytes()[..2], [0x02, 0x01]);
}

#[test]
fn field_arithmetic() {
    let two = Fr::from_u64(2);
    let three = Fr::from_u64(3);
    assert_eq!(two.add(&three).to_bytes(), Fr::from_u64(5).to_bytes());
    assert_eq!(two.mul(&three).to_bytes(), Fr::from_u64(6).to_bytes());
    assert_eq!(three.sub(&two).to_bytes(), Fr::one().to_bytes());
    assert_eq!(two.pow(10).to_bytes(), Fr::from_u64(1024).to_bytes());
    assert_eq!(two.inverse().unwrap().mul(&two).to_bytes(), Fr::one().to_bytes());
    assert!(Fr::zero().inverse().is_none());
    assert_eq!(two.neg().add(&two).to_bytes(), Fr::zero().to_bytes());
    assert!(Fr::from_bytes(&vec![0xffu8; 32]).is_err());
    assert!(Fr::from_bytes(&vec![0u8; 31]).is_err());
}

#[test]
fn group_encodings() {
    assert_eq!(G1::generator().to_bytes().len(), 48);
    assert_eq!(G2::generator().to_bytes().len(), 96);
    let g = G1::generator();
    assert!(G1::from_bytes(&g.to_bytes()).unwrap().equals(&g));
    assert!(G1::from_bytes(&vec![0u8; 48]).is_err());
    assert!(g.mul(&Fr::zero()).equals(&G1::zero()));
    assert!(g.mul(&Fr::one()).equals(&g));
    let h = G2::generator();
    assert!(G2::from_bytes(&h.to_bytes()).unwrap().equals(&h));
    let e = Gt::pairing(&g, &h);
    assert!(Gt::from_bytes(&e.to_bytes()).unwrap().equals(&e));
    let two = Fr::from_u64(2);
    let msm = G1::msm(&vec![g.clone(), g.clone()], &vec![two.clone(), Fr::one()], "test").unwrap();
    assert!(msm.equals(&G1::gen_mul(&Fr::from_u64(3))));
    assert!(matches!(G1::msm(&vec![g.clone()], &vec![], "test"), Err(SteError::MsmError(_))));
    let powers = g.batch_mul(&vec![Fr::one(), two.clone()]);
    assert!(powers[0].equals(&g) && powers[1].equals(&g.add(&g)));
}

#[test]
fn polynomial_helpers() {
    let l1 = lagrange_poly(4, 1);
    assert_eq!(l1.degree(), 3);
    let one = Fr::one();
    let points = vec![Fr::from_u64(1), Fr::from_u64(2), Fr::from_u64(3)];
    let b = interp_mostly_zero(&Fr::from_u64(5), &points).unwrap();
    assert_eq!(b.degree(), 2);
    assert_eq!(b.evaluate(&Fr::from_u64(1)).to_bytes(), Fr::from_u64(5).to_bytes());
    assert!(b.evaluate(&Fr::from_u64(2)).is_zero());
    assert!(b.evaluate(&Fr::from_u64(3)).is_zero());
    let c = interp_mostly_zero(&one, &vec![]).unwrap();
    assert_eq!(c.coeffs.len(), 1);
    assert!(interp_mostly_zero(&one, &vec![Fr::from_u64(2), Fr::from_u64(2)]).is_none());
    let x_minus_2 = Poly::from_coeffs(vec![Fr::from_u64(2).neg(), Fr::one()]);
    let q = b.div(&x_minus_2);
    assert_eq!(q.degree(), 1);
}

#[test]
fn ciphertext_round_trip() {
    let p = parties(4);
    let ct = encrypt(&p.ak, 2, &p.params).unwrap();
    let bytes = ct.to_bytes();
    let back = Ciphertext::from_bytes(&bytes).unwrap();
    assert_eq!(back.to_bytes(), bytes);
    assert_eq!(back.t, 2);
    assert!(back.enc_key.equals(&ct.enc_key));
    let mut bad = bytes.clone();
    bad[0] ^= 0xff;
    assert!(matches!(Ciphertext::from_bytes(&bad), Err(SteError::SerializationError(_))));
    assert!(matches!(Ciphertext::from_bytes(&bytes[..100].to_vec()), Err(SteError::SerializationError(_))));
}

#[test]
fn public_key_round_trip() {
    let tau = Fr::rand().unwrap();
    let lagrange = LagrangePowers::new(&tau, 4).unwrap();
    let pk = SecretKey::new().unwrap().lagrange_get_pk(3, &lagrange, 4).unwrap();
    let bytes = pk.to_bytes();
    assert_eq!(bytes.len(), 8 + 3 * 48 + 8 + 4 * 48 + 48);
    let back = PublicKey::from_bytes(&bytes).unwrap();
    assert_eq!(back.id, 3);
    assert_eq!(back.to_bytes(), bytes);
    assert!(matches!(PublicKey::from_bytes(&bytes[..bytes.len() - 1].to_vec()), Err(SteError::SerializationError(_))));
    let mut bad = bytes.clone();
    bad[152] = 200;
    assert!(matches!(PublicKey::from_bytes(&bad), Err(SteError::SerializationError(_))));
}

#[test]
fn aggregate_with_zero_slot_matches_zero_key() {
    let n = 4;
    let tau = Fr::rand().unwrap();
    let params = PowersOfTau::setup(n, &tau).unwrap();
    let lagrange = LagrangePowers::new(&tau, n).unwrap();
    let mut with_slot = Vec::new();
    let mut with_zero_key = Vec::new();
    for i in 0..n {
        if i == 2 {
            with_slot.push(PublicKey::zero_for_domain(i, n));
            with_zero_key.push(SecretKey::from_scalar(Fr::zero()).lagrange_get_pk(i, &lagrange, n).unwrap());
        } else {
            let k = SecretKey::new().unwrap().lagrange_get_pk(i, &lagrange, n).unwrap();
            with_slot.push(k.clone());
            with_zero_key.push(k);
        }
    }
    let a = AggregateKey::new(with_slot, &params).unwrap();
    let b = AggregateKey::new(with_zero_key, &params).unwrap();
    assert!(a.ask.equals(&b.ask));
    assert!(a.z_g2.equals(&b.z_g2));
    for j in 0..n {
        assert!(a.agg_sk_li_lj_z[j].equals(&b.agg_sk_li_lj_z[j]));
    }
}

#[test]
fn transcript_round_trip() {
    let params = PowersOfTau::setup(4, &Fr::rand().unwrap()).unwrap();
    let bytes = params.to_bytes();
    assert_eq!(bytes.len(), 8 + 5 * 48 + 8 + 5 * 96);
    let back = PowersOfTau::from_bytes(&bytes).unwrap();
    assert_eq!(back.to_bytes(), bytes);
    assert_eq!(back.powers_of_g.len(), 5);
    let mut longer = bytes.clone();
    longer.push(0);
    assert!(matches!(PowersOfTau::from_bytes(&longer), Err(SteError::SerializationError(_))));
    assert!(matches!(PowersOfTau::from_bytes(&vec![1, 0, 0]), Err(SteError::SerializationError(_))));
}

#[test]
fn partial_decryption_round_trip() {
    let p = parties(2);
    let ct = encrypt(&p.ak, 1, &p.params).unwrap();
    let pd = p.sk[1].partial_decryption(&ct);
    let bytes = pd.to_bytes();
    assert_eq!(bytes.len(), 96);
    assert!(G2::from_bytes(&bytes).unwrap().equals(&pd));
}

#[test]
fn lagrange_tables_round_trip() {
    let lagrange = LagrangePowers::new(&Fr::rand().unwrap(), 4).unwrap();
    let bytes = lagrange.to_bytes();
    assert_eq!(bytes.len(), 3 * (8 + 4 * 48) + 8 + 4 * (8 + 4 * 48));
    let back = LagrangePowers::from_bytes(&bytes).unwrap();
    assert_eq!(back.to_bytes(), bytes);
    assert_eq!(back.li_lj_z.len(), 4);
    assert!(back.li_lj_z[3][2].equals(&lagrange.li_lj_z[3][2]));
    assert!(matches!(LagrangePowers::from_bytes(&bytes[..bytes.len() - 48].to_vec()), Err(SteError::SerializationError(_))));
}

#[test]
fn ceremony_state_round_trip() {
    let mut ceremony = Ceremony::new(3).unwrap();
    ceremony.contribute().unwrap();
    let bytes = ceremony.to_bytes();
    assert_eq!(bytes.len(), 16 + 2 * (8 + 4 * 48 + 8 + 4 * 96 + 48 + 96));
    let back = Ceremony::from_bytes(&bytes).unwrap();
    assert_eq!(back.to_bytes(), bytes);
    assert_eq!(back.max_degree, 3);
    assert_eq!(back.num_participants(), 2);
    assert!(back.verify_contribution(1));
    assert!(matches!(Ceremony::from_bytes(&bytes[..bytes.len() - 1].to_vec()), Err(SteError::SerializationError(_))));
}

#[test]
fn aggregate_key_round_trip() {
    let p = parties(4);
    let bytes = p.ak.to_bytes();
    let back = AggregateKey::from_bytes(&bytes).unwrap();
    assert_eq!(back.to_bytes(), bytes);
    assert_eq!(back.pk.len(), 4);
    assert!(back.e_gh.equals(&p.ak.e_gh));
    let (ct, r) = run(&Parties { params: p.params, sk: p.sk, ak: back }, 1, &[0, 3]);
    assert!(r.unwrap().equals(&ct.enc_key));
    assert!(matches!(AggregateKey::from_bytes(&bytes[..bytes.len() - 1].to_vec()), Err(SteError::SerializationError(_))));
}

#[test]
fn nullified_key_hints_are_the_tables() {
    let tau = Fr::rand().unwrap();
    let lagrange = LagrangePowers::new(&tau, 4).unwrap();
    let mut sk = SecretKey::new().unwrap();
    sk.nullify();
    let pk = sk.lagrange_get_pk(1, &lagrange, 4).unwrap();
    assert!(pk.bls_pk.equals(&G1::generator()));
    assert!(pk.sk_li.equals(&lagrange.li[1]));
    assert!(pk.sk_li_x.equals(&lagrange.li_x[1]));
    let p = parties(2);
    let ct = encrypt(&p.ak, 1, &p.params).unwrap();
    assert!(sk.partial_decryption(&ct).equals(&ct.gamma_g2));
}

#[test]
fn decryption_error_messages() {
    let p = parties(4);
    let (_, r) = run(&p, 1, &[1, 2]);
    match r {
        Err(SteError::ValidationError(m)) => assert_eq!(m, "Party 0 (dummy party) must always be selected"),
        _ => panic!("expected a validation error"),
    }
}
