use key_refresh::bigint::Bigint;
use key_refresh::curve::{CurvePoint, CurveScalar};
use key_refresh::errors::{KeyRefreshError, ProtocolAbortReason};
use key_refresh::hashing::hash_commit;
use key_refresh::key_refresh::{
    build_round2_frame, derive_session_id, finalize, process_round2, round2_msg, round3_msgs,
    KeyRefreshBuilder, MsgRound1, MsgRound2, MsgRound3, PregeneratedPrimes, R1State, R2State,
};
use key_refresh::key_share::{IncompleteKeyShare, KeyShare};
use key_refresh::paillier::PaillierEncKey;
use key_refresh::ring_pedersen::{prm_prove, PrmProof};

const SEC_BITS: usize = 32;
const PRM_REPS: usize = 16;

fn prime(idx: usize) -> Bigint {
    let bytes: Vec<u8> = match idx {
        0 => vec![0x84, 0xe9, 0x10, 0x8e, 0x77, 0xd5, 0xe6, 0x1d, 0x9f, 0xa9, 0x9d, 0x43, 0x63, 0x01, 0x6d, 0xc0, 0xd7],
        1 => vec![0xd0, 0x38, 0xaf, 0x95, 0xa0, 0xb5, 0x06, 0x22, 0x1d, 0x5d, 0x34, 0xcd, 0x99, 0xfb, 0x20, 0xfe, 0xc7],
        2 => vec![0xad, 0x96, 0xb4, 0x2e, 0xe2, 0xa3, 0x5a, 0x99, 0xf6, 0x1e, 0xe7, 0x52, 0x36, 0x5a, 0x4d, 0xfc, 0xe7],
        _ => vec![0x87, 0x68, 0x9b, 0xec, 0x11, 0xc6, 0xcf, 0xb6, 0x8a, 0x0e, 0xdc, 0x0f, 0xb2, 0x67, 0xf9, 0xb4, 0x17],
    };
    Bigint::from_be_slice(&bytes)
}

fn scalar_of(v: u64) -> CurveScalar {
    let bytes: Vec<u8> = v.to_be_bytes().to_vec();
    CurveScalar::from_be_bytes_mod_order(&bytes)
}

fn execution_id() -> Vec<u8> {
    b"test-session-1".to_vec()
}

fn make_core_shares(n: usize) -> Vec<IncompleteKeyShare> {
    let xs: Vec<CurveScalar> = (0..n).map(|_| CurveScalar::random()).collect();
    let publics: Vec<CurvePoint> = xs.iter().map(|x| CurvePoint::generator_mul(x)).collect();
    let mut spk = CurvePoint::zero();
    for p in &publics {
        spk = spk.add(p);
    }
    xs.into_iter()
        .enumerate()
        .map(|(i, x)| IncompleteKeyShare {
            i: i as u16,
            shared_public_key: spk.clone(),
            rid: vec![7, 7, 7],
            public_shares: publics.iter().map(|p| p.clone()).collect(),
            x,
        })
        .collect()
}

fn start_party(share: &IncompleteKeyShare) -> (R1State, MsgRound1) {
    let i = share.i as usize;
    KeyRefreshBuilder::new(share)
        .set_execution_id(execution_id())
        .set_security_level(SEC_BITS, PRM_REPS)
        .set_pregenerated_data(PregeneratedPrimes::new(prime(i % 2), prime(2 + i % 2)))
        .start()
        .expect("round one succeeds")
}

fn dummy_msg3() -> MsgRound3 {
    MsgRound3 {
        mod_proof: Vec::new(),
        fac_proof: Vec::new(),
        sch_proof_y: CurveScalar::zero(),
        C: Bigint::from_u64(0),
        sch_proofs_x: Vec::new(),
    }
}

fn run_through_round2(shares: &[IncompleteKeyShare]) -> Vec<R2State> {
    let n = shares.len();
    let mut r1: Vec<R1State> = Vec::new();
    let mut commitments: Vec<MsgRound1> = Vec::new();
    for share in shares {
        let (st, m1) = start_party(share);
        r1.push(st);
        commitments.push(m1);
    }
    let batches: Vec<Vec<MsgRound2>> = (0..n)
        .map(|_| r1.iter().map(|st| round2_msg(st)).collect())
        .collect();
    let mut states2: Vec<R2State> = Vec::new();
    for (st, batch) in r1.into_iter().zip(batches.into_iter()) {
        states2.push(process_round2(st, &commitments, batch).expect("round two succeeds"));
    }
    states2
}

fn run_round3(states2: &[R2State]) -> Vec<Vec<Option<MsgRound3>>> {
    let n = states2.len();
    states2
        .iter()
        .map(|st| {
            let fac: Vec<Vec<u8>> = (0..n).map(|_| Vec::new()).collect();
            round3_msgs(st, &Vec::new(), &fac)
                .expect("round three succeeds")
                .into_iter()
                .map(Some)
                .collect()
        })
        .collect()
}

fn inbox_for(outboxes: &mut [Vec<Option<MsgRound3>>], i: usize) -> Vec<MsgRound3> {
    let n = outboxes.len();
    (0..n)
        .map(|s| {
            if s == i {
                dummy_msg3()
            } else {
                outboxes[s][i].take().expect("each unicast is consumed once")
            }
        })
        .collect()
}

fn run_honest(shares: &[IncompleteKeyShare]) -> Vec<KeyShare> {
    let n = shares.len();
    let states2 = run_through_round2(shares);
    let mut outboxes = run_round3(&states2);
    let verdicts = vec![true; n];
    states2
        .into_iter()
        .enumerate()
        .map(|(i, st)| {
            let inbox = inbox_for(&mut outboxes, i);
            finalize(st, &shares[i], inbox, &verdicts, &verdicts).expect("finalize succeeds")
        })
        .collect()
}

fn must_abort_round2(
    r: Result<R2State, KeyRefreshError>,
) -> KeyRefreshError {
    match r {
        Ok(_) => panic!("expected the round-two checks to abort"),
        Err(e) => e,
    }
}

fn must_abort_finalize(
    r: Result<KeyShare, KeyRefreshError>,
) -> KeyRefreshError {
    match r {
        Ok(_) => panic!("expected finalization to abort"),
        Err(e) => e,
    }
}

fn abort_of(err: KeyRefreshError) -> (ProtocolAbortReason, Vec<u16>) {
    match err {
        KeyRefreshError::Aborted(ab) => {
            (ab.reason, ab.parties.iter().map(|b| b.party).collect())
        }
        other => panic!("expected an abort, got {:?}", other),
    }
}

#[test]
fn three_parties_honest_refresh() {
    let shares = make_core_shares(3);
    let outputs = run_honest(&shares);
    assert_eq!(outputs.len(), 3);
    for (i, ks) in outputs.iter().enumerate() {
        assert!(ks.core.shared_public_key.eq_point(&shares[i].shared_public_key));
        assert!(ks.validate().is_ok());
        // the party's new secret share matches its new public share
        let own = CurvePoint::generator_mul(&ks.core.x);
        assert!(own.eq_point(&ks.core.public_shares[ks.core.i as usize]));
        // the new public shares still sum to the group key
        let mut sum = CurvePoint::zero();
        for p in &ks.core.public_shares {
            sum = sum.add(p);
        }
        assert!(sum.eq_point(&shares[i].shared_public_key));
        // the shares were re-randomized
        assert!(!ks.core.public_shares[0].eq_point(&shares[i].public_shares[0]));
        // the El-Gamal key pair in the table is consistent
        let y_pub = CurvePoint::generator_mul(&ks.y);
        assert!(y_pub.eq_point(&ks.parties[i].Y));
        // the local modulus is the product of the secret primes
        assert!(ks.parties[i].N.eq_bigint(&ks.p.mul(&ks.q)));
    }
    // all parties agree on the new public shares
    for k in 0..3 {
        assert!(outputs[0].core.public_shares[k].eq_point(&outputs[1].core.public_shares[k]));
        assert!(outputs[1].core.public_shares[k].eq_point(&outputs[2].core.public_shares[k]));
    }
}

#[test]
fn refresh_twice_preserves_group_key() {
    let shares = make_core_shares(3);
    let first = run_honest(&shares);
    let cores: Vec<IncompleteKeyShare> = first.into_iter().map(|ks| ks.core).collect();
    let second = run_honest(&cores);
    for ks in &second {
        assert!(ks.core.shared_public_key.eq_point(&shares[0].shared_public_key));
    }
}

#[test]
fn two_parties_honest_refresh() {
    let shares = make_core_shares(2);
    let states2 = run_through_round2(&shares);
    // with two parties each Schnorr commitment list has exactly one entry
    for st in &states2 {
        assert_eq!(st.r1.sch_commits_a.len(), 1);
        for j in 0..2 {
            assert_eq!(st.decommitments[j].sch_commits_a.len(), 1);
        }
    }
    let mut outboxes = run_round3(&states2);
    let verdicts = vec![true; 2];
    for (i, st) in states2.into_iter().enumerate() {
        let inbox = inbox_for(&mut outboxes, i);
        let ks = finalize(st, &shares[i], inbox, &verdicts, &verdicts).expect("finalize succeeds");
        assert!(ks.core.shared_public_key.eq_point(&shares[i].shared_public_key));
    }
}

#[test]
fn sixteen_parties_complete() {
    let shares = make_core_shares(16);
    let outputs = run_honest(&shares);
    assert_eq!(outputs.len(), 16);
    for ks in &outputs {
        assert!(ks.core.shared_public_key.eq_point(&shares[0].shared_public_key));
        assert_eq!(ks.parties.len(), 16);
    }
}

#[test]
fn all_honest_parties_derive_same_randomness() {
    let shares = make_core_shares(3);
    let states2 = run_through_round2(&shares);
    assert_eq!(states2[0].rho, states2[1].rho);
    assert_eq!(states2[1].rho, states2[2].rho);
    assert_eq!(states2[0].rho.len(), SEC_BITS / 8);
}

#[test]
fn tampered_modulus_in_opening_is_invalid_decommitment() {
    let n = 3;
    let shares = make_core_shares(n);
    let mut r1: Vec<R1State> = Vec::new();
    let mut commitments: Vec<MsgRound1> = Vec::new();
    for share in &shares {
        let (st, m1) = start_party(share);
        r1.push(st);
        commitments.push(m1);
    }
    // party 1 reveals a different modulus than it committed to
    for receiver in [0usize, 2usize] {
        let batch: Vec<MsgRound2> = (0..n)
            .map(|a| {
                let mut m = round2_msg(&r1[a]);
                if a == 1 {
                    m.N = Bigint::from_u64(9999);
                }
                m
            })
            .collect();
        let st = if receiver == 0 {
            start_party(&shares[0]).0
        } else {
            start_party(&shares[2]).0
        };
        // receiver must use its own round-one state; rebuild the batch for it
        let own = receiver;
        let batch: Vec<MsgRound2> = batch
            .into_iter()
            .enumerate()
            .map(|(a, m)| if a == own { round2_msg(&st) } else { m })
            .collect();
        let mut coms = commitments.clone();
        coms[own] = MsgRound1 { commitment: st.commitment.clone() };
        let err = must_abort_round2(process_round2(st, &coms, batch));
        let (reason, culprits) = abort_of(err);
        assert_eq!(reason, ProtocolAbortReason::InvalidDecommitment);
        assert_eq!(culprits, vec![1u16]);
    }
}

fn cheater_round2(
    sid: &Vec<u8>,
    n: u16,
    author: u16,
    x: Vec<CurvePoint>,
    big_n: Bigint,
    s: Bigint,
    t: Bigint,
    params_proof: PrmProof,
    decommit: Vec<u8>,
) -> MsgRound2 {
    MsgRound2 {
        x,
        sch_commits_a: (0..n - 1)
            .map(|k| CurvePoint::generator_mul(&scalar_of(100 + k as u64)))
            .collect(),
        Y: CurvePoint::generator_mul(&scalar_of(5)),
        sch_commit_b: CurvePoint::generator_mul(&scalar_of(6)),
        N: big_n,
        s,
        t,
        params_proof,
        rho_bytes: vec![9; SEC_BITS / 8],
        decommit,
    }
}

fn junk_prm() -> PrmProof {
    PrmProof { commitments: Vec::new(), responses: Vec::new() }
}

/// Drive one honest receiver against two messages of which one is forged.
/// Returns the abort of `process_round2` seen by party 0.
fn receiver_processes(
    shares: &[IncompleteKeyShare],
    cheater: u16,
    make_cheater_msg: impl Fn(&Vec<u8>, Vec<u8>) -> MsgRound2,
) -> KeyRefreshError {
    let n = shares.len();
    let sid = derive_session_id(&execution_id());
    // forge the cheater's payload once to commit to it
    let probe = make_cheater_msg(&sid, Vec::new());
    let frame = build_round2_frame(&sid, n as u16, cheater, &probe);
    let (commitment, nonce) = hash_commit(&frame);
    let mut r1: Vec<Option<R1State>> = Vec::new();
    let mut commitments: Vec<MsgRound1> = Vec::new();
    for share in shares {
        if share.i == cheater {
            r1.push(None);
            commitments.push(MsgRound1 { commitment: commitment.clone() });
        } else {
            let (st, m1) = start_party(share);
            r1.push(Some(st));
            commitments.push(m1);
        }
    }
    let batch: Vec<MsgRound2> = (0..n)
        .map(|a| match &r1[a] {
            Some(st) => round2_msg(st),
            None => make_cheater_msg(&sid, nonce.clone()),
        })
        .collect();
    let st0 = r1[0].take().expect("party 0 is honest");
    must_abort_round2(process_round2(st0, &commitments, batch))
}

#[test]
fn short_contribution_list_is_invalid_data_size() {
    let shares = make_core_shares(3);
    let err = receiver_processes(&shares, 2, |sid, nonce| {
        let x: Vec<CurvePoint> = (0..2).map(|k| CurvePoint::generator_mul(&scalar_of(1 + k))).collect();
        cheater_round2(sid, 3, 2, x, Bigint::from_u64(35), Bigint::from_u64(29), Bigint::from_u64(4), junk_prm(), nonce)
    });
    let (reason, culprits) = abort_of(err);
    assert_eq!(reason, ProtocolAbortReason::InvalidDataSize);
    assert_eq!(culprits, vec![2u16]);
}

#[test]
fn small_modulus_is_invalid_ring_pedersen_parameters() {
    let shares = make_core_shares(3);
    let sid = derive_session_id(&execution_id());
    // a correct proof for a well-formed but far too small setup
    let big_n = Bigint::from_u64(35);
    let t = Bigint::from_u64(4);
    let lambda = Bigint::from_u64(3);
    let phi = Bigint::from_u64(24);
    let s = t.modpow(&lambda, &big_n);
    let prm = prm_prove(&sid, &big_n, &s, &t, &lambda, &phi, PRM_REPS);
    let err = receiver_processes(&shares, 2, move |sid2, nonce| {
        let x: Vec<CurvePoint> = vec![
            CurvePoint::generator_mul(&scalar_of(1)),
            CurvePoint::generator_mul(&scalar_of(2)),
            CurvePoint::generator_mul(&scalar_of(3)),
        ];
        cheater_round2(sid2, 3, 2, x, Bigint::from_u64(35), s.clone(), t.clone(), prm.clone(), nonce)
    });
    let (reason, culprits) = abort_of(err);
    assert_eq!(reason, ProtocolAbortReason::InvalidRingPedersenParameters);
    assert_eq!(culprits, vec![2u16]);
}

#[test]
fn nonzero_contribution_sum_is_invalid_x() {
    let shares = make_core_shares(3);
    let sid = derive_session_id(&execution_id());
    // a valid large Ring-Pedersen setup, so only the contribution sum fails
    let p = prime(1);
    let q = prime(3);
    let big_n = p.mul(&q);
    let one = Bigint::from_u64(1);
    let phi = p.sub(&one).mul(&q.sub(&one));
    let r = Bigint::random_unit_below(&big_n).expect("a unit exists");
    let t = r.modmul(&r, &big_n);
    let lambda = Bigint::random_below(&phi);
    let s = t.modpow(&lambda, &big_n);
    let prm = prm_prove(&sid, &big_n, &s, &t, &lambda, &phi, PRM_REPS);
    let err = receiver_processes(&shares, 2, move |sid2, nonce| {
        let x: Vec<CurvePoint> = vec![
            CurvePoint::generator_mul(&scalar_of(1)),
            CurvePoint::generator_mul(&scalar_of(2)),
            CurvePoint::generator_mul(&scalar_of(3)),
        ];
        cheater_round2(sid2, 3, 2, x, big_n.clone(), s.clone(), t.clone(), prm.clone(), nonce)
    });
    let (reason, culprits) = abort_of(err);
    assert_eq!(reason, ProtocolAbortReason::InvalidX);
    assert_eq!(culprits, vec![2u16]);
}

#[test]
fn mismatched_encrypted_share_is_invalid_x_share() {
    let shares = make_core_shares(3);
    let states2 = run_through_round2(&shares);
    let mut outboxes = run_round3(&states2);
    // party 0 replaces the ciphertext for party 1 by an encryption of an
    // unrelated value under party 1's modulus
    let n1 = states2[1].r1.N.clone();
    let nonce = Bigint::random_unit_below(&n1).expect("a unit exists");
    let forged = PaillierEncKey::from_modulus(&n1)
        .encrypt(&Bigint::from_u64(42), &nonce)
        .expect("encryption succeeds");
    outboxes[0][1].as_mut().expect("message exists").C = forged;
    let verdicts = vec![true; 3];
    let mut states2 = states2.into_iter();
    let st0 = states2.next().unwrap();
    let st1 = states2.next().unwrap();
    let st2 = states2.next().unwrap();
    drop(st0);
    let inbox1 = inbox_for(&mut outboxes, 1);
    let err = must_abort_finalize(finalize(st1, &shares[1], inbox1, &verdicts, &verdicts));
    let (reason, culprits) = abort_of(err);
    assert_eq!(reason, ProtocolAbortReason::InvalidXShare);
    assert_eq!(culprits, vec![0u16]);
    // party 2 received consistent shares and proceeds
    let inbox2 = inbox_for(&mut outboxes, 2);
    assert!(finalize(st2, &shares[2], inbox2, &verdicts, &verdicts).is_ok());
}

#[test]
fn tampered_schnorr_proof_is_invalid_schnorr_proof() {
    let shares = make_core_shares(3);
    let states2 = run_through_round2(&shares);
    let mut outboxes = run_round3(&states2);
    outboxes[2][0].as_mut().expect("message exists").sch_proof_y = CurveScalar::zero();
    let verdicts = vec![true; 3];
    let st0 = states2.into_iter().next().unwrap();
    let inbox0 = inbox_for(&mut outboxes, 0);
    let err = must_abort_finalize(finalize(st0, &shares[0], inbox0, &verdicts, &verdicts));
    let (reason, culprits) = abort_of(err);
    assert_eq!(reason, ProtocolAbortReason::InvalidSchnorrProof);
    assert_eq!(culprits, vec![2u16]);
}

#[test]
fn rejected_delegated_proofs_are_blamed() {
    let shares = make_core_shares(3);
    let states2 = run_through_round2(&shares);
    let mut outboxes = run_round3(&states2);
    let mut states2 = states2.into_iter();
    let st0 = states2.next().unwrap();
    let st1 = states2.next().unwrap();
    let all_ok = vec![true; 3];
    let mod_verdicts = vec![true, true, false];
    let inbox0 = inbox_for(&mut outboxes, 0);
    let err = must_abort_finalize(finalize(st0, &shares[0], inbox0, &mod_verdicts, &all_ok));
    let (reason, culprits) = abort_of(err);
    assert_eq!(reason, ProtocolAbortReason::InvalidModProof);
    assert_eq!(culprits, vec![2u16]);
    let fac_verdicts = vec![true, true, false];
    let inbox1 = inbox_for(&mut outboxes, 1);
    let err = must_abort_finalize(finalize(st1, &shares[1], inbox1, &all_ok, &fac_verdicts));
    let (reason, culprits) = abort_of(err);
    assert_eq!(reason, ProtocolAbortReason::InvalidFacProof);
    assert_eq!(culprits, vec![2u16]);
}
