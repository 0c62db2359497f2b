use key_refresh::bigint::Bigint;
use key_refresh::bytes_util::{u16_be_bytes, xor_all_exec, xor_bytes};
use key_refresh::curve::{CurvePoint, CurveScalar};
use key_refresh::hashing::{hash_commit, verify_commit};
use key_refresh::key_share::{ErrorReason, IncompleteKeyShare, KeyShare, PartyAux};
use key_refresh::paillier::{PaillierDecKey, PaillierEncKey};
use key_refresh::ring_pedersen::{prm_prove, prm_verify};
use key_refresh::router::route_round;
use key_refresh::schnorr::{schnorr_commit, schnorr_prove, schnorr_verify};

fn scalar_of(v: u64) -> CurveScalar {
    let bytes: Vec<u8> = v.to_be_bytes().to_vec();
    CurveScalar::from_be_bytes_mod_order(&bytes)
}

#[test]
fn xor_bytes_combines_pointwise() {
    let a = vec![0b1010u8, 0xff, 0x00];
    let b = vec![0b0110u8, 0x0f, 0xaa];
    assert_eq!(xor_bytes(&a, &b), vec![0b1100u8, 0xf0, 0xaa]);
}

#[test]
fn xor_all_is_order_insensitive() {
    let a = vec![1u8, 2, 3];
    let b = vec![4u8, 5, 6];
    let c = vec![7u8, 8, 9];
    let one = xor_all_exec(&vec![a.clone(), b.clone(), c.clone()], 3);
    let two = xor_all_exec(&vec![c, a, b], 3);
    assert_eq!(one, two);
}

#[test]
fn sixteen_bit_big_endian_encoding() {
    assert_eq!(u16_be_bytes(0x1234), vec![0x12u8, 0x34]);
    assert_eq!(u16_be_bytes(7), vec![0u8, 7]);
}

#[test]
fn commitment_opens_with_its_nonce() {
    let frame = vec![1u8, 2, 3, 4];
    let (commitment, nonce) = hash_commit(&frame);
    assert!(verify_commit(&frame, &commitment, &nonce));
    let tampered = vec![1u8, 2, 3, 5];
    assert!(!verify_commit(&tampered, &commitment, &nonce));
    let wrong_nonce = vec![0u8; 32];
    assert!(!verify_commit(&frame, &commitment, &wrong_nonce));
}

#[test]
fn ring_pedersen_proof_round_trip() {
    let state = vec![11u8, 22, 33];
    let big_n = Bigint::from_u64(35);
    let t = Bigint::from_u64(4);
    let lambda = Bigint::from_u64(3);
    let phi = Bigint::from_u64(24);
    let s = t.modpow(&lambda, &big_n);
    let reps: usize = 64;
    let proof = prm_prove(&state, &big_n, &s, &t, &lambda, &phi, reps);
    assert!(prm_verify(&state, &big_n, &s, &t, &proof, reps));
    // the same proof against a different statement fails
    assert!(!prm_verify(&state, &big_n, &t, &s, &proof, reps));
    // a different session state fails
    let other_state = vec![11u8, 22, 34];
    assert!(!prm_verify(&other_state, &big_n, &s, &t, &proof, reps));
}

#[test]
fn schnorr_proof_round_trip() {
    let (eph, commit) = schnorr_commit();
    let challenge = scalar_of(77);
    let secret = scalar_of(99);
    let public = CurvePoint::generator_mul(&secret);
    let response = schnorr_prove(&eph, &challenge, &secret);
    assert!(schnorr_verify(&response, &commit, &challenge, &public));
    let wrong = CurvePoint::generator_mul(&scalar_of(98));
    assert!(!schnorr_verify(&response, &commit, &challenge, &wrong));
}

#[test]
fn paillier_encrypt_then_decrypt() {
    let p = Bigint::from_be_slice(&vec![
        0x84, 0xe9, 0x10, 0x8e, 0x77, 0xd5, 0xe6, 0x1d, 0x9f, 0xa9, 0x9d, 0x43, 0x63, 0x01, 0x6d,
        0xc0, 0xd7,
    ]);
    let q = Bigint::from_be_slice(&vec![
        0xd0, 0x38, 0xaf, 0x95, 0xa0, 0xb5, 0x06, 0x22, 0x1d, 0x5d, 0x34, 0xcd, 0x99, 0xfb, 0x20,
        0xfe, 0xc7,
    ]);
    let big_n = p.mul(&q);
    let dec = PaillierDecKey::from_primes(&p, &q).expect("key builds");
    let enc = PaillierEncKey::from_modulus(&big_n);
    let message = Bigint::from_u64(123456789);
    let nonce = Bigint::random_unit_below(&big_n).expect("a unit exists");
    let ciphertext = enc.encrypt(&message, &nonce).expect("message is in range");
    let plain = dec.decrypt(&ciphertext).expect("decryption succeeds");
    assert!(Bigint::from_be_slice(&plain).eq_bigint(&message));
}

#[test]
fn paillier_rejects_out_of_range_plaintext() {
    let n = Bigint::from_u64(35);
    let enc = PaillierEncKey::from_modulus(&n);
    let nonce = Bigint::from_u64(2);
    assert!(enc.encrypt(&Bigint::from_u64(0), &nonce).is_none());
    assert!(enc.encrypt(&Bigint::from_u64(35), &nonce).is_none());
    assert!(enc.encrypt(&Bigint::from_u64(34), &nonce).is_some());
}

#[test]
fn bigint_arithmetic_matches_its_model() {
    let a = Bigint::from_u64(1000);
    let b = Bigint::from_u64(24);
    assert!(a.gcd(&b).eq_bigint(&Bigint::from_u64(8)));
    assert_eq!(Bigint::from_u64(255).bit_length(), 8);
    assert_eq!(Bigint::from_u64(256).bit_length(), 9);
    assert_eq!(Bigint::from_u64(0).bit_length(), 0);
    let big_m = Bigint::from_u64(7);
    let r = Bigint::from_u64(3).modpow(&Bigint::from_u64(4), &big_m);
    assert!(r.eq_bigint(&Bigint::from_u64(4)));
}

fn tiny_core_share() -> IncompleteKeyShare {
    let x0 = scalar_of(11);
    let x1 = scalar_of(22);
    let p0 = CurvePoint::generator_mul(&x0);
    let p1 = CurvePoint::generator_mul(&x1);
    let spk = p0.add(&p1);
    IncompleteKeyShare {
        i: 0,
        shared_public_key: spk,
        rid: vec![1, 2],
        public_shares: vec![p0, p1],
        x: x0,
    }
}

#[test]
fn core_share_validation() {
    let share = tiny_core_share();
    assert!(share.validate().is_ok());
    let mut broken = tiny_core_share();
    broken.i = 2;
    assert_eq!(broken.validate().unwrap_err().0, ErrorReason::PartyIndexOutOfBounds);
    let mut broken = tiny_core_share();
    broken.x = scalar_of(12);
    assert_eq!(
        broken.validate().unwrap_err().0,
        ErrorReason::PartySecretShareDoesntMatchPublicShare
    );
    let mut broken = tiny_core_share();
    broken.shared_public_key = CurvePoint::zero();
    assert_eq!(broken.validate().unwrap_err().0, ErrorReason::SharesDontMatchPublicKey);
}

#[test]
fn full_share_validation() {
    let core = tiny_core_share();
    let p = Bigint::from_u64(11);
    let q = Bigint::from_u64(23);
    let y = scalar_of(5);
    let aux = |big_n: Bigint, y_pub: CurvePoint| PartyAux {
        N: big_n,
        s: Bigint::from_u64(4),
        t: Bigint::from_u64(9),
        Y: y_pub,
    };
    let good = KeyShare {
        core: tiny_core_share(),
        p: p.clone(),
        q: q.clone(),
        y: y.clone(),
        parties: vec![
            aux(Bigint::from_u64(253), CurvePoint::generator_mul(&y)),
            aux(Bigint::from_u64(253), CurvePoint::generator_mul(&scalar_of(6))),
        ],
    };
    assert!(good.validate().is_ok());
    let bad_primes = KeyShare {
        core: tiny_core_share(),
        p: p.clone(),
        q: Bigint::from_u64(29),
        y: y.clone(),
        parties: vec![
            aux(Bigint::from_u64(253), CurvePoint::generator_mul(&y)),
            aux(Bigint::from_u64(253), CurvePoint::generator_mul(&scalar_of(6))),
        ],
    };
    assert_eq!(bad_primes.validate().unwrap_err().0, ErrorReason::PrimesMul);
    let shared_factor = KeyShare {
        core,
        p,
        q,
        y: y.clone(),
        parties: vec![
            aux(Bigint::from_u64(253), CurvePoint::generator_mul(&y)),
            aux(Bigint::from_u64(12), CurvePoint::generator_mul(&scalar_of(6))),
        ],
    };
    assert_eq!(shared_factor.validate().unwrap_err().0, ErrorReason::StGcdN);
}

#[test]
fn router_is_order_insensitive() {
    let one = route_round(3, 0, 10u32, &mut vec![(1, 21u32), (2, 32u32)]).expect("routes");
    let two = route_round(3, 0, 10u32, &mut vec![(2, 32u32), (1, 21u32)]).expect("routes");
    assert_eq!(one, two);
    assert_eq!(one, vec![10u32, 21, 32]);
}

#[test]
fn router_rejects_bad_batches() {
    // duplicate sender
    assert!(route_round(3, 0, 0u32, &mut vec![(1, 1u32), (1, 2u32)]).is_none());
    // missing sender
    assert!(route_round(3, 0, 0u32, &mut vec![(1, 1u32)]).is_none());
    // own index among the senders
    assert!(route_round(3, 0, 0u32, &mut vec![(0, 1u32), (2, 2u32)]).is_none());
    // out of range
    assert!(route_round(3, 0, 0u32, &mut vec![(3, 1u32), (2, 2u32)]).is_none());
}
