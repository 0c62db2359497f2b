//! Schnorr proofs of knowledge of a discrete logarithm, carried out by
//! `generic_ec_zkp`. In the discrete-logarithm model the three steps are
//! plain modular arithmetic: the commitment is the point of the ephemeral
//! secret, the response is `eph + challenge * secret`, and verification
//! accepts exactly when the response is the discrete logarithm of
//! `commit + challenge * public`.
use vstd::prelude::*;

use generic_ec::SecretScalar;
use generic_ec_zkp::schnorr_pok::{prove, prover_commits_ephemeral_secret, Challenge, Commit, Proof, ProverSecret};

verus! {

use crate::curve::{group_order, CurvePoint, CurveScalar, RawPoint, RawScalar};

/// An unconstrained model value for a freshly wrapped curve element; the
/// wrapper's contract, not this placeholder, says what is known of it.
fn fresh_model() -> Ghost<nat> {
    Ghost(0)
}

/// Relies on `schnorr_pok::prover_commits_ephemeral_secret` of
/// `generic_ec_zkp`: samples an ephemeral field element and commits to it
/// as `G * eph`.
#[verifier::external_body]
pub fn schnorr_commit() -> (r: (CurveScalar, CurvePoint))
    ensures
        r.0.wf(),
        r.1.wf(),
        r.1.dlog() == r.0.val(),
{
    let mut rng = rand_core::OsRng;
    let (secret, commit) = prover_commits_ephemeral_secret::<generic_ec::curves::Secp256k1, _>(&mut rng);
    let eph = CurveScalar { inner: RawScalar(*secret.nonce.as_ref()), val: fresh_model() };
    let pt = CurvePoint { inner: RawPoint(commit.0), dlog: fresh_model() };
    (eph, pt)
}

/// Relies on `schnorr_pok::prove` of `generic_ec_zkp`: the response is
/// `eph + challenge * secret` in the scalar field.
#[verifier::external_body]
pub fn schnorr_prove(eph: &CurveScalar, challenge: &CurveScalar, secret: &CurveScalar) -> (r: CurveScalar)
    requires
        eph.wf(),
        challenge.wf(),
        secret.wf(),
    ensures
        r.wf(),
        r.val() == (eph.val() + challenge.val() * secret.val()) % group_order(),
{
    let mut nonce = eph.inner.0;
    let prover_secret = ProverSecret::<generic_ec::curves::Secp256k1> { nonce: SecretScalar::new(&mut nonce) };
    let ch = Challenge { nonce: challenge.inner.0 };
    let z = prove(&prover_secret, &ch, secret.inner.0);
    CurveScalar { inner: RawScalar(z.0), val: fresh_model() }
}

/// Relies on `schnorr_pok::Proof::verify` of `generic_ec_zkp`: accepts
/// exactly when `G * response == commit + challenge * public`, that is when
/// the response equals `dlog(commit) + challenge * dlog(public)` modulo the
/// group order.
#[verifier::external_body]
pub fn schnorr_verify(
    response: &CurveScalar,
    commit: &CurvePoint,
    challenge: &CurveScalar,
    public: &CurvePoint,
) -> (r: bool)
    requires
        response.wf(),
        commit.wf(),
        challenge.wf(),
        public.wf(),
    ensures
        r == (response.val() == (commit.dlog() + challenge.val() * public.dlog()) % group_order()),
{
    let proof_obj = Proof::<generic_ec::curves::Secp256k1>(response.inner.0);
    let ch = Challenge { nonce: challenge.inner.0 };
    proof_obj.verify(&Commit(commit.inner.0), &ch, &public.inner.0).is_ok()
}

} // verus!
