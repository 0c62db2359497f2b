//! Non-interactive proof that `(N, s, t)` is a well-formed Ring-Pedersen
//! setup: the prover knows `lambda` with `s = t^lambda mod N`.
//!
//! The proof is the classic sigma protocol made non-interactive: the prover
//! commits to `reps` masked exponents `a_i` as `A_i = t^{a_i} mod N`, the
//! challenge bits come from a digest over the statement and the
//! commitments, and each response is `z_i = a_i + e_i * lambda`, taken over
//! the integers. The verifier recomputes the challenge and checks
//! `t^{z_i} = A_i * s^{e_i} mod N`. Completeness is proved below; the
//! protocol treats an accepting proof from a peer as evidence only, so
//! soundness is not claimed in any contract.
use vstd::prelude::*;

verus! {

use vstd::arithmetic::power::{pow, lemma_pow_adds};
use vstd::arithmetic::div_mod::lemma_mul_mod_noop_general;
use crate::bigint::{bn_bytes, Bigint};
use crate::hashing::{concat_bytes, sha256, sha256_of};

/// A Ring-Pedersen well-formedness proof: one commitment and one response
/// per challenge bit.
pub struct PrmProof {
    /// `A_i = t^{a_i} mod N`
    pub commitments: Vec<Bigint>,
    /// `z_i = a_i + e_i * lambda`
    pub responses: Vec<Bigint>,
}

impl Clone for PrmProof {
    fn clone(&self) -> (r: Self)
        ensures
            r.commitments@ == self.commitments@,
            r.responses@ == self.responses@,
    {
        PrmProof {
            commitments: crate::bigint::clone_bigint_vec(&self.commitments),
            responses: crate::bigint::clone_bigint_vec(&self.responses),
        }
    }
}

/// The values of a vector of numbers.
pub open spec fn bigint_vals(v: Seq<Bigint>) -> Seq<nat> {
    v.map_values(|b: Bigint| b.val())
}

/// Concatenation of the byte encodings of a family of numbers.
pub open spec fn cat_bn_bytes(vals: Seq<nat>) -> Seq<u8>
    decreases vals.len(),
{
    if vals.len() == 0 {
        Seq::empty()
    } else {
        cat_bn_bytes(vals.drop_last()) + bn_bytes(vals.last())
    }
}

/// The byte frame whose digest yields the challenge bits: the session
/// state, the statement `(N, s, t)` and the commitments, in this order.
pub open spec fn prm_frame(state: Seq<u8>, n: nat, s: nat, t: nat, commitments: Seq<nat>) -> Seq<u8> {
    state + bn_bytes(n) + bn_bytes(s) + bn_bytes(t) + cat_bn_bytes(commitments)
}

/// Challenge bit `i`: bit `i mod 8` of byte `i / 8` of the frame digest.
pub open spec fn prm_challenge_bit(
    state: Seq<u8>,
    n: nat,
    s: nat,
    t: nat,
    commitments: Seq<nat>,
    i: int,
) -> bool {
    let d = sha256_of(prm_frame(state, n, s, t, commitments));
    ((d[i / 8] >> ((i % 8) as u8)) & 1u8) == 1u8
}

/// The verifier's acceptance predicate: right sizes, and for every
/// challenge bit `t^{z_i} = A_i * s^{e_i} mod N`.
pub open spec fn prm_ok(
    state: Seq<u8>,
    n: nat,
    s: nat,
    t: nat,
    commitments: Seq<nat>,
    responses: Seq<nat>,
    reps: nat,
) -> bool {
    &&& commitments.len() == reps
    &&& responses.len() == reps
    &&& forall|i: int|
        0 <= i < reps ==> #[trigger] (pow(t as int, responses[i]) % (n as int)) == (
        if prm_challenge_bit(state, n, s, t, commitments, i) {
            ((commitments[i] * s) as int) % (n as int)
        } else {
            (commitments[i] as int) % (n as int)
        })
}

/// Build the challenge digest of the statement and commitments.
fn challenge_digest(
    state: &Vec<u8>,
    n: &Bigint,
    s: &Bigint,
    t: &Bigint,
    commitments: &Vec<Bigint>,
) -> (r: Vec<u8>)
    ensures
        r@ == sha256_of(prm_frame(state@, n.val(), s.val(), t.val(), bigint_vals(commitments@))),
        r@.len() == 32,
{
    let ghost models = bigint_vals(commitments@);
    let mut frame = concat_bytes(state, &n.to_bytes());
    frame = concat_bytes(&frame, &s.to_bytes());
    frame = concat_bytes(&frame, &t.to_bytes());
    let mut k: usize = 0;
    proof {
        assert(models.take(0) =~= Seq::<nat>::empty());
        assert(cat_bn_bytes(Seq::<nat>::empty()) =~= Seq::<u8>::empty());
        assert(frame@ + Seq::<u8>::empty() =~= frame@);
    }
    while k < commitments.len()
        invariant
            k <= commitments@.len(),
            models == bigint_vals(commitments@),
            frame@ == state@ + bn_bytes(n.val()) + bn_bytes(s.val()) + bn_bytes(t.val())
                + cat_bn_bytes(models.take(k as int)),
        decreases commitments@.len() - k,
    {
        let next = concat_bytes(&frame, &commitments[k].to_bytes());
        proof {
            assert(models.take(k + 1).drop_last() =~= models.take(k as int));
            assert(models.take(k + 1).last() == models[k as int]);
            assert(next@ =~= state@ + bn_bytes(n.val()) + bn_bytes(s.val()) + bn_bytes(t.val())
                + cat_bn_bytes(models.take(k + 1)));
        }
        frame = next;
        k += 1;
    }
    proof {
        assert(models.take(commitments@.len() as int) =~= models);
    }
    sha256(&frame)
}

/// Challenge bit `i` from a digest, as the specification reads it.
fn challenge_bit(digest: &Vec<u8>, i: usize) -> (r: bool)
    requires
        digest@.len() == 32,
        i < 256,
    ensures
        r == (((digest@[i as int / 8] >> ((i as int % 8) as u8)) & 1u8) == 1u8),
{
    let byte = digest[i / 8];
    let shift = (i % 8) as u8;
    ((byte >> shift) & 1u8) == 1u8
}

/// Prove that `s = t^lambda mod N`. The proof it returns verifies: the
/// sigma protocol is complete, and this is checked, not sampled.
pub fn prm_prove(
    state: &Vec<u8>,
    n: &Bigint,
    s: &Bigint,
    t: &Bigint,
    lambda: &Bigint,
    phi: &Bigint,
    reps: usize,
) -> (r: PrmProof)
    requires
        n.val() >= 2,
        phi.val() >= 1,
        1 <= reps <= 256,
        s.val() == pow(t.val() as int, lambda.val()) % (n.val() as int),
    ensures
        prm_ok(
            state@,
            n.val(),
            s.val(),
            t.val(),
            bigint_vals(r.commitments@),
            bigint_vals(r.responses@),
            reps as nat,
        ),
{
    let mut masks: Vec<Bigint> = Vec::new();
    let mut commitments: Vec<Bigint> = Vec::new();
    let mut k: usize = 0;
    while k < reps
        invariant
            k <= reps,
            n.val() >= 2,
            phi.val() >= 1,
            masks@.len() == k,
            commitments@.len() == k,
            forall|i: int| 0 <= i < k ==> #[trigger] commitments@[i].val()
                == pow(t.val() as int, masks@[i].val()) % (n.val() as int),
        decreases reps - k,
    {
        let a = Bigint::random_below(phi);
        let big_a = t.modpow(&a, n);
        masks.push(a);
        commitments.push(big_a);
        k += 1;
    }
    let digest = challenge_digest(state, n, s, t, &commitments);
    let mut responses: Vec<Bigint> = Vec::new();
    let ghost commitment_vals = bigint_vals(commitments@);
    let mut k: usize = 0;
    while k < reps
        invariant
            k <= reps,
            reps <= 256,
            n.val() >= 2,
            s.val() == pow(t.val() as int, lambda.val()) % (n.val() as int),
            digest@.len() == 32,
            digest@ == sha256_of(prm_frame(state@, n.val(), s.val(), t.val(), commitment_vals)),
            commitment_vals == bigint_vals(commitments@),
            masks@.len() == reps,
            commitments@.len() == reps,
            responses@.len() == k,
            forall|i: int| 0 <= i < reps ==> #[trigger] commitments@[i].val()
                == pow(t.val() as int, masks@[i].val()) % (n.val() as int),
            forall|i: int|
                0 <= i < k ==> #[trigger] (pow(t.val() as int, responses@[i].val()) % (n.val() as int)) == (
                if prm_challenge_bit(state@, n.val(), s.val(), t.val(), commitment_vals, i) {
                    ((commitment_vals[i] * s.val()) as int) % (n.val() as int)
                } else {
                    (commitment_vals[i] as int) % (n.val() as int)
                }),
        decreases reps - k,
    {
        let e = challenge_bit(&digest, k);
        let z = if e {
            masks[k].add(lambda)
        } else {
            masks[k].clone()
        };
        proof {
            let ghost tv = t.val() as int;
            let ghost nv = n.val() as int;
            let ghost av = masks@[k as int].val();
            let ghost big_av = commitments@[k as int].val();
            assert(commitment_vals[k as int] == big_av);
            if e {
                assert(z.val() == av + lambda.val());
                lemma_pow_adds(tv, av, lambda.val());
                lemma_mul_mod_noop_general(pow(tv, av), pow(tv, lambda.val()), nv);
                assert(pow(tv, z.val()) % nv == (pow(tv, av) * pow(tv, lambda.val())) % nv);
                assert((pow(tv, av) * pow(tv, lambda.val())) % nv
                    == ((pow(tv, av) % nv) * (pow(tv, lambda.val()) % nv)) % nv);
                assert(pow(tv, z.val()) % nv == ((big_av * s.val()) as int) % nv);
            } else {
                assert(z.val() == av);
                assert(big_av == pow(tv, av) % nv);
                assert(0 <= pow(tv, av) % nv < nv) by {
                    vstd::arithmetic::div_mod::lemma_mod_bound(pow(tv, av), nv);
                };
                vstd::arithmetic::div_mod::lemma_small_mod(big_av, n.val());
                assert(pow(tv, z.val()) % nv == (big_av as int) % nv);
            }
        }
        responses.push(z);
        k += 1;
    }
    proof {
        assert forall|i: int| 0 <= i < reps implies #[trigger] bigint_vals(responses@)[i]
            == responses@[i].val() by {}
        assert forall|i: int| 0 <= i < reps implies #[trigger] commitment_vals[i]
            == commitments@[i].val() by {}
    }
    PrmProof { commitments, responses }
}

/// Verify a Ring-Pedersen well-formedness proof against `(N, s, t)`;
/// accepts exactly when the specification predicate holds.
pub fn prm_verify(
    state: &Vec<u8>,
    n: &Bigint,
    s: &Bigint,
    t: &Bigint,
    proof_arg: &PrmProof,
    reps: usize,
) -> (r: bool)
    requires
        n.val() >= 2,
        1 <= reps <= 256,
    ensures
        r == prm_ok(
            state@,
            n.val(),
            s.val(),
            t.val(),
            bigint_vals(proof_arg.commitments@),
            bigint_vals(proof_arg.responses@),
            reps as nat,
        ),
{
    if proof_arg.commitments.len() != reps || proof_arg.responses.len() != reps {
        return false;
    }
    let digest = challenge_digest(state, n, s, t, &proof_arg.commitments);
    let ghost commitment_vals = bigint_vals(proof_arg.commitments@);
    let ghost response_vals = bigint_vals(proof_arg.responses@);
    let mut k: usize = 0;
    while k < reps
        invariant
            k <= reps,
            reps <= 256,
            n.val() >= 2,
            digest@.len() == 32,
            digest@ == sha256_of(prm_frame(state@, n.val(), s.val(), t.val(), commitment_vals)),
            commitment_vals == bigint_vals(proof_arg.commitments@),
            response_vals == bigint_vals(proof_arg.responses@),
            proof_arg.commitments@.len() == reps,
            proof_arg.responses@.len() == reps,
            forall|i: int|
                0 <= i < k ==> #[trigger] (pow(t.val() as int, proof_arg.responses@[i].val()) % (n.val() as int)) == (
                if prm_challenge_bit(state@, n.val(), s.val(), t.val(), commitment_vals, i) {
                    ((commitment_vals[i] * s.val()) as int) % (n.val() as int)
                } else {
                    (commitment_vals[i] as int) % (n.val() as int)
                }),
        decreases reps - k,
    {
        let e = challenge_bit(&digest, k);
        let lhs = t.modpow(&proof_arg.responses[k], n);
        let rhs = if e {
            proof_arg.commitments[k].modmul(s, n)
        } else {
            proof_arg.commitments[k].nmod(n)
        };
        if !lhs.eq_bigint(&rhs) {
            proof {
                assert(commitment_vals[k as int] == proof_arg.commitments@[k as int].val());
                assert(response_vals[k as int] == proof_arg.responses@[k as int].val());
                assert(!prm_ok(
                    state@,
                    n.val(),
                    s.val(),
                    t.val(),
                    commitment_vals,
                    response_vals,
                    reps as nat,
                ));
            }
            return false;
        }
        k += 1;
    }
    proof {
        assert forall|i: int| 0 <= i < reps implies #[trigger] response_vals[i]
            == proof_arg.responses@[i].val() by {}
    }
    true
}

} // verus!
