//! The three-round auxiliary-info and key-refresh protocol.
//!
//! Round one commits to all data that round two reveals; round two opens
//! every commitment and is checked peer by peer, collecting blame; round
//! three proves knowledge of every secret involved and carries each peer's
//! additive contribution inside a Paillier ciphertext; finalization checks
//! the proofs, combines the contributions into the refreshed share, and
//! validates the result.
//!
//! The functions here are the decision core: they turn the indexed message
//! batches that the caller's transport collected into the next outgoing
//! messages or into an abort that names every offending party. Sending,
//! receiving and the two proofs delegated to a collaborating prover
//! (`Π_mod` and `Π_fac`, carried as opaque payloads) stay with the caller.
use vstd::prelude::*;

verus! {

use vstd::arithmetic::power::pow;
use vstd::arithmetic::power2::pow2;
use crate::bigint::{gcd_nat, Bigint};
use crate::bytes_util::{be_nat, u16_be_spec, u16_be_bytes, xor_all, xor_all_exec};
use crate::curve::{group_order, point_dlogs, scalar_vals, sum_mod, CurvePoint, CurveScalar};
use crate::errors::{AbortBlame, Bug, KeyRefreshError, ProtocolAborted, ProtocolAbortReason};
use crate::hashing::{commit_digest, concat_bytes, hash_commit, random_bytes, sha256, sha256_of, verify_commit};
use crate::paillier::{paillier_dec_some, paillier_enc, paillier_key_some, PaillierDecKey, PaillierEncKey};
use crate::ring_pedersen::{bigint_vals, prm_ok, prm_prove, prm_verify, PrmProof};
use crate::schnorr::{schnorr_commit, schnorr_prove, schnorr_verify};

/// Safe primes generated ahead of time, to amortize the dominant cost of
/// the protocol.
pub struct PregeneratedPrimes {
    /// The first safe prime.
    pub p: Bigint,
    /// The second safe prime.
    pub q: Bigint,
}

impl PregeneratedPrimes {
    /// Wrap a previously generated pair of primes.
    pub fn new(p: Bigint, q: Bigint) -> (r: Self)
        ensures
            r.p == p,
            r.q == q,
    {
        PregeneratedPrimes { p, q }
    }

    /// Take the pair apart.
    pub fn split(self) -> (r: (Bigint, Bigint))
        ensures
            r.0 == self.p,
            r.1 == self.q,
    {
        (self.p, self.q)
    }

    /// Generate two safe primes of `4 * security_bits` bits each.
    /// Takes some time.
    pub fn generate(security_bits: usize) -> (r: Self)
        requires
            32 <= security_bits <= 2048,
        ensures
            pregenerated_wf(r, security_bits as nat),
    {
        let bits = 4 * security_bits;
        let p = Bigint::safe_prime(bits);
        let q = Bigint::safe_prime(bits);
        PregeneratedPrimes { p, q }
    }

    /// The first prime.
    pub fn p(&self) -> (r: &Bigint)
        ensures
            *r == self.p,
    {
        &self.p
    }

    /// The second prime.
    pub fn q(&self) -> (r: &Bigint)
        ensures
            *r == self.q,
    {
        &self.q
    }
}

/// The primes have the size that the security level asks for.
pub open spec fn pregenerated_wf(pg: PregeneratedPrimes, security_bits: nat) -> bool {
    &&& pg.p.val() >= pow2((4 * security_bits - 1) as nat)
    &&& pg.q.val() >= pow2((4 * security_bits - 1) as nat)
    &&& pg.p.val() < pow2((4 * security_bits) as nat)
    &&& pg.q.val() < pow2((4 * security_bits) as nat)
}

/// Message of round one: the hash commitment alone.
pub struct MsgRound1 {
    /// Commitment to everything round two will reveal.
    pub commitment: Vec<u8>,
}

impl Clone for MsgRound1 {
    fn clone(&self) -> (r: Self)
        ensures
            r.commitment@ == self.commitment@,
    {
        MsgRound1 { commitment: crate::hashing::clone_bytes(&self.commitment) }
    }
}

/// Message of round two: the opening of the commitment.
#[allow(non_snake_case)]
pub struct MsgRound2 {
    /// Curve commitments to this party's additive contributions, one per
    /// party.
    pub x: Vec<CurvePoint>,
    /// Schnorr commitments for the contribution proofs, one per peer.
    pub sch_commits_a: Vec<CurvePoint>,
    /// El-Gamal public key.
    pub Y: CurvePoint,
    /// Schnorr commitment for the El-Gamal key proof.
    pub sch_commit_b: CurvePoint,
    /// Paillier modulus.
    pub N: Bigint,
    /// Ring-Pedersen parameter `s`.
    pub s: Bigint,
    /// Ring-Pedersen parameter `t`.
    pub t: Bigint,
    /// Proof that `(N, s, t)` is a well-formed Ring-Pedersen setup.
    pub params_proof: PrmProof,
    /// This party's share of the session randomness.
    pub rho_bytes: Vec<u8>,
    /// The nonce opening the round-one commitment.
    pub decommit: Vec<u8>,
}

/// Unicast message of round three, a distinct one per recipient.
#[allow(non_snake_case)]
pub struct MsgRound3 {
    /// Proof that `N` is a Paillier-Blum modulus, carried for the
    /// collaborating verifier as an opaque payload.
    pub mod_proof: Vec<u8>,
    /// Proof that `N` has no small factor, bound to the recipient's
    /// Ring-Pedersen parameters; opaque payload as well.
    pub fac_proof: Vec<u8>,
    /// Schnorr proof of knowledge of the El-Gamal secret.
    pub sch_proof_y: CurveScalar,
    /// The recipient's additive contribution, Paillier-encrypted under the
    /// recipient's modulus.
    pub C: Bigint,
    /// Schnorr proofs of knowledge for every additive contribution.
    pub sch_proofs_x: Vec<CurveScalar>,
}

/// Message of the key refresh protocol.
pub enum Msg {
    /// Broadcast commitment
    Round1(MsgRound1),
    /// Broadcast opening
    Round2(MsgRound2),
    /// Unicast proofs and encrypted share
    Round3(MsgRound3),
}

/// Concatenation of the encodings of a family of points.
pub open spec fn cat_point_bytes(dlogs: Seq<nat>) -> Seq<u8>
    decreases dlogs.len(),
{
    if dlogs.len() == 0 {
        Seq::empty()
    } else {
        cat_point_bytes(dlogs.drop_last()) + crate::curve::point_bytes(dlogs.last())
    }
}

/// The canonical frame of a round-two payload, the byte string that the
/// round-one commitment binds: session identifier, party count, author
/// index, the curve commitments, the Schnorr commitments, the El-Gamal
/// key, the Ring-Pedersen triple and the randomness share, in this order.
/// Committer and verifier share this one definition, so the field order
/// cannot drift between them. The Schnorr commitment for the El-Gamal key
/// and the Ring-Pedersen proof, though revealed in round two, stay outside
/// the frame: they are commitments and proofs in their own right, and the
/// protocol's commitment covers exactly the quantities listed here.
pub open spec fn round2_frame(
    sid: Seq<u8>,
    n: u16,
    j: u16,
    xs_dlogs: Seq<nat>,
    a_dlogs: Seq<nat>,
    y_dlog: nat,
    n_val: nat,
    s_val: nat,
    t_val: nat,
    rho: Seq<u8>,
) -> Seq<u8> {
    sid + u16_be_spec(n) + u16_be_spec(j) + cat_point_bytes(xs_dlogs)
        + cat_point_bytes(a_dlogs) + crate::curve::point_bytes(y_dlog)
        + crate::bigint::bn_bytes(n_val) + crate::bigint::bn_bytes(s_val)
        + crate::bigint::bn_bytes(t_val) + rho
}

/// The frame of a received round-two message.
pub open spec fn msg2_frame(sid: Seq<u8>, n: u16, j: u16, m: MsgRound2) -> Seq<u8> {
    round2_frame(
        sid,
        n,
        j,
        point_dlogs(m.x@),
        point_dlogs(m.sch_commits_a@),
        m.Y.dlog(),
        m.N.val(),
        m.s.val(),
        m.t.val(),
        m.rho_bytes@,
    )
}

/// Every curve value in a round-two message is a well-formed model value.
pub open spec fn msg2_types_wf(m: MsgRound2) -> bool {
    &&& m.Y.wf()
    &&& m.sch_commit_b.wf()
    &&& forall|k: int| 0 <= k < m.x@.len() ==> (#[trigger] m.x@[k]).wf()
    &&& forall|k: int| 0 <= k < m.sch_commits_a@.len() ==> (#[trigger] m.sch_commits_a@[k]).wf()
}

/// Append the encodings of a family of points to a frame.
fn push_point_bytes(frame: Vec<u8>, pts: &Vec<CurvePoint>) -> (r: Vec<u8>)
    ensures
        r@ == frame@ + cat_point_bytes(point_dlogs(pts@)),
{
    let ghost dlogs = point_dlogs(pts@);
    let ghost frame0 = frame@;
    let mut acc = frame;
    let mut k: usize = 0;
    proof {
        assert(dlogs.take(0) =~= Seq::<nat>::empty());
        assert(acc@ + cat_point_bytes(Seq::<nat>::empty()) =~= acc@);
    }
    while k < pts.len()
        invariant
            k <= pts@.len(),
            dlogs == point_dlogs(pts@),
            acc@ == frame0 + cat_point_bytes(dlogs.take(k as int)),
        decreases pts@.len() - k,
    {
        let next = concat_bytes(&acc, &pts[k].to_bytes());
        proof {
            assert(dlogs.take(k + 1).drop_last() =~= dlogs.take(k as int));
            assert(dlogs.take(k + 1).last() == dlogs[k as int]);
            assert(next@ =~= frame0 + cat_point_bytes(dlogs.take(k + 1)));
        }
        acc = next;
        k += 1;
    }
    proof {
        assert(dlogs.take(pts@.len() as int) =~= dlogs);
    }
    acc
}

/// Build the canonical frame of a round-two payload.
pub fn build_round2_frame(sid: &Vec<u8>, n: u16, j: u16, m: &MsgRound2) -> (r: Vec<u8>)
    ensures
        r@ == msg2_frame(sid@, n, j, *m),
{
    let mut frame = concat_bytes(sid, &u16_be_bytes(n));
    frame = concat_bytes(&frame, &u16_be_bytes(j));
    frame = push_point_bytes(frame, &m.x);
    frame = push_point_bytes(frame, &m.sch_commits_a);
    frame = concat_bytes(&frame, &m.Y.to_bytes());
    frame = concat_bytes(&frame, &m.N.to_bytes());
    frame = concat_bytes(&frame, &m.s.to_bytes());
    frame = concat_bytes(&frame, &m.t.to_bytes());
    frame = concat_bytes(&frame, &m.rho_bytes);
    proof {
        assert(frame@ =~= msg2_frame(sid@, n, j, *m));
    }
    frame
}


/// State of a party after it computed its round-one commitment.
#[allow(non_snake_case)]
pub struct R1State {
    /// Index of the local party.
    pub i: u16,
    /// Number of parties.
    pub n: u16,
    /// Session identifier, salt of every hash of this session.
    pub sid: Vec<u8>,
    /// Security parameter in bits; a multiple of eight.
    pub security_bits: usize,
    /// Number of challenge bits of the Ring-Pedersen proof.
    pub prm_reps: usize,
    /// First secret prime.
    pub p: Bigint,
    /// Second secret prime.
    pub q: Bigint,
    /// Paillier modulus `p * q`.
    pub N: Bigint,
    /// Euler totient of the modulus, `(p - 1) * (q - 1)`.
    pub phi: Bigint,
    /// Ring-Pedersen parameter `s = t^lambda mod N`.
    pub s: Bigint,
    /// Ring-Pedersen parameter `t = r^2 mod N`.
    pub t: Bigint,
    /// Secret Ring-Pedersen exponent.
    pub lambda: Bigint,
    /// El-Gamal secret key.
    pub y: CurveScalar,
    /// El-Gamal public key.
    pub Y: CurvePoint,
    /// Ephemeral secret of the Schnorr proof for `Y`.
    pub sch_secret_b: CurveScalar,
    /// Schnorr commitment for `Y`.
    pub sch_commit_b: CurvePoint,
    /// Additive contributions to every party's new share; they sum to zero.
    pub xs: Vec<CurveScalar>,
    /// Curve commitments to the contributions.
    pub Xs: Vec<CurvePoint>,
    /// Ephemeral secrets of the per-peer Schnorr proofs.
    pub sch_secrets_a: Vec<CurveScalar>,
    /// Schnorr commitments for the per-peer proofs.
    pub sch_commits_a: Vec<CurvePoint>,
    /// This party's share of the session randomness.
    pub rho_bytes: Vec<u8>,
    /// Proof of the Ring-Pedersen setup.
    pub params_proof: PrmProof,
    /// The round-one commitment.
    pub commitment: Vec<u8>,
    /// The nonce that opens it in round two.
    pub decommit_nonce: Vec<u8>,
}

/// Everything the round-one computation guarantees about the state.
pub open spec fn r1_wf(st: R1State) -> bool {
    &&& st.n >= 2
    &&& st.i < st.n
    &&& st.security_bits % 8 == 0
    &&& st.security_bits >= 8
    &&& 1 <= st.prm_reps <= 256
    &&& st.p.val() >= 2
    &&& st.q.val() >= 2
    &&& st.N.val() == st.p.val() * st.q.val()
    &&& st.N.val() >= 2
    &&& st.phi.val() >= 1
    &&& st.s.val() == pow(st.t.val() as int, st.lambda.val()) % (st.N.val() as int)
    &&& st.y.wf()
    &&& st.Y.wf()
    &&& st.Y.dlog() == st.y.val()
    &&& st.sch_secret_b.wf()
    &&& st.sch_commit_b.wf()
    &&& st.sch_commit_b.dlog() == st.sch_secret_b.val()
    &&& st.xs@.len() == st.n
    &&& forall|k: int| 0 <= k < st.xs@.len() ==> (#[trigger] st.xs@[k]).wf()
    &&& sum_mod(scalar_vals(st.xs@), group_order()) == 0
    &&& st.Xs@.len() == st.n
    &&& forall|k: int| 0 <= k < st.Xs@.len()
        ==> (#[trigger] st.Xs@[k]).wf() && st.Xs@[k].dlog() == st.xs@[k].val()
    &&& st.sch_secrets_a@.len() == st.n - 1
    &&& forall|k: int| 0 <= k < st.sch_secrets_a@.len() ==> (#[trigger] st.sch_secrets_a@[k]).wf()
    &&& st.sch_commits_a@.len() == st.n - 1
    &&& forall|k: int| 0 <= k < st.sch_commits_a@.len()
        ==> (#[trigger] st.sch_commits_a@[k]).wf()
            && st.sch_commits_a@[k].dlog() == st.sch_secrets_a@[k].val()
    &&& st.rho_bytes@.len() == st.security_bits / 8
    &&& prm_ok(
        st.sid@,
        st.N.val(),
        st.s.val(),
        st.t.val(),
        bigint_vals(st.params_proof.commitments@),
        bigint_vals(st.params_proof.responses@),
        st.prm_reps as nat,
    )
    &&& st.commitment@ == commit_digest(
        round2_frame(
            st.sid@,
            st.n,
            st.i,
            point_dlogs(st.Xs@),
            point_dlogs(st.sch_commits_a@),
            st.Y.dlog(),
            st.N.val(),
            st.s.val(),
            st.t.val(),
            st.rho_bytes@,
        ),
        st.decommit_nonce@,
    )
    &&& st.commitment@.len() == 32
    &&& st.decommit_nonce@.len() == 32
}

/// Compute everything of round one and the commitment that is broadcast.
///
/// `sid` is the session identifier derived from the caller's execution
/// identifier; `pregenerated` supplies the two safe primes, generated
/// inline or ahead of time.
pub fn round1_commit(
    i: u16,
    n: u16,
    sid: Vec<u8>,
    security_bits: usize,
    prm_reps: usize,
    pregenerated: PregeneratedPrimes,
) -> (r: Result<(R1State, MsgRound1), Bug>)
    requires
        2 <= n,
        i < n,
        security_bits % 8 == 0,
        8 <= security_bits <= 2048,
        1 <= prm_reps <= 256,
        pregenerated.p.val() >= 2,
        pregenerated.q.val() >= 2,
    ensures
        r matches Ok(out) ==> {
            &&& r1_wf(out.0)
            &&& out.0.i == i
            &&& out.0.n == n
            &&& out.0.sid@ == sid@
            &&& out.0.security_bits == security_bits
            &&& out.0.prm_reps == prm_reps
            &&& out.0.p.val() == pregenerated.p.val()
            &&& out.0.q.val() == pregenerated.q.val()
            &&& out.1.commitment@ == out.0.commitment@
        },
        r matches Err(b) ==> b == Bug::PaillierKeyError,
{
    let (p, q) = pregenerated.split();
    let big_n = p.mul(&q);
    let one = Bigint::from_u64(1);
    let phi = p.sub(&one).mul(&q.sub(&one));
    proof {
        assert(phi.val() >= 1) by (nonlinear_arith)
            requires
                phi.val() == (p.val() - 1) * (q.val() - 1),
                p.val() >= 2,
                q.val() >= 2,
        ;
        assert(big_n.val() >= 2) by (nonlinear_arith)
            requires
                big_n.val() == p.val() * q.val(),
                p.val() >= 2,
                q.val() >= 2,
        ;
    }
    let r_unit = match Bigint::random_unit_below(&big_n) {
        Some(u) => u,
        None => {
            return Err(Bug::PaillierKeyError);
        }
    };
    let t = r_unit.modmul(&r_unit, &big_n);
    let lambda = Bigint::random_below(&phi);
    let s = t.modpow(&lambda, &big_n);
    let params_proof = prm_prove(&sid, &big_n, &s, &t, &lambda, &phi, prm_reps);

    let y = CurveScalar::random();
    let big_y = CurvePoint::generator_mul(&y);
    let (sch_secret_b, sch_commit_b) = schnorr_commit();

    let ghost q_ord = group_order();
    let mut xs: Vec<CurveScalar> = Vec::new();
    let mut acc = CurveScalar::zero();
    let mut k: usize = 0;
    proof {
        assert(scalar_vals(xs@).take(0) =~= Seq::<nat>::empty());
        assert(sum_mod(Seq::<nat>::empty(), q_ord) == 0);
    }
    while k < (n - 1) as usize
        invariant
            k <= n - 1,
            xs@.len() == k,
            forall|j: int| 0 <= j < k ==> (#[trigger] xs@[j]).wf(),
            acc.wf(),
            acc.val() == sum_mod(scalar_vals(xs@), q_ord),
            q_ord == group_order(),
        decreases n - 1 - k,
    {
        let ghost xs_before = xs@;
        let x = CurveScalar::random();
        let next = acc.add(&x);
        xs.push(x);
        proof {
            assert(xs@.drop_last() =~= xs_before);
            assert(scalar_vals(xs@).drop_last() =~= scalar_vals(xs_before));
            assert(scalar_vals(xs@).last() == x.val());
        }
        acc = next;
        k += 1;
    }
    let ghost xs_before = xs@;
    let last = acc.neg();
    xs.push(last.clone());
    proof {
        assert(xs@.drop_last() =~= xs_before);
        assert(scalar_vals(xs@).drop_last() =~= scalar_vals(xs_before));
        assert(scalar_vals(xs@).last() == last.val());
        if acc.val() == 0 {
            assert(sum_mod(scalar_vals(xs@), q_ord) == (0nat + 0nat) % q_ord);
            assert((0nat + 0nat) % q_ord == 0) by (nonlinear_arith)
                requires
                    q_ord >= 2,
            ;
        } else {
            assert(acc.val() + last.val() == q_ord);
            vstd::arithmetic::div_mod::lemma_mod_self_0(q_ord as int);
            assert(sum_mod(scalar_vals(xs@), q_ord) == q_ord % q_ord);
        }
    }

    let mut big_xs: Vec<CurvePoint> = Vec::new();
    let mut k: usize = 0;
    while k < xs.len()
        invariant
            k <= xs@.len(),
            forall|j: int| 0 <= j < xs@.len() ==> (#[trigger] xs@[j]).wf(),
            big_xs@.len() == k,
            forall|j: int| 0 <= j < k
                ==> (#[trigger] big_xs@[j]).wf() && big_xs@[j].dlog() == xs@[j].val(),
        decreases xs@.len() - k,
    {
        big_xs.push(CurvePoint::generator_mul(&xs[k]));
        k += 1;
    }

    let mut sch_secrets_a: Vec<CurveScalar> = Vec::new();
    let mut sch_commits_a: Vec<CurvePoint> = Vec::new();
    let mut k: usize = 0;
    while k < (n - 1) as usize
        invariant
            k <= n - 1,
            sch_secrets_a@.len() == k,
            sch_commits_a@.len() == k,
            forall|j: int| 0 <= j < k ==> (#[trigger] sch_secrets_a@[j]).wf(),
            forall|j: int| 0 <= j < k
                ==> (#[trigger] sch_commits_a@[j]).wf()
                    && sch_commits_a@[j].dlog() == sch_secrets_a@[j].val(),
        decreases n - 1 - k,
    {
        let (sec, com) = schnorr_commit();
        sch_secrets_a.push(sec);
        sch_commits_a.push(com);
        k += 1;
    }

    let rho_bytes = random_bytes(security_bits / 8);

    let own_msg = MsgRound2 {
        x: crate::curve::clone_point_vec(&big_xs),
        sch_commits_a: crate::curve::clone_point_vec(&sch_commits_a),
        Y: big_y.clone(),
        sch_commit_b: sch_commit_b.clone(),
        N: big_n.clone(),
        s: s.clone(),
        t: t.clone(),
        params_proof: params_proof.clone(),
        rho_bytes: crate::hashing::clone_bytes(&rho_bytes),
        decommit: Vec::new(),
    };
    let frame = build_round2_frame(&sid, n, i, &own_msg);
    let (commitment, decommit_nonce) = hash_commit(&frame);
    let msg1 = MsgRound1 { commitment: crate::hashing::clone_bytes(&commitment) };

    let st = R1State {
        i,
        n,
        sid,
        security_bits,
        prm_reps,
        p,
        q,
        N: big_n,
        phi,
        s,
        t,
        lambda,
        y,
        Y: big_y,
        sch_secret_b,
        sch_commit_b,
        xs,
        Xs: big_xs,
        sch_secrets_a,
        sch_commits_a,
        rho_bytes,
        params_proof,
        commitment,
        decommit_nonce,
    };
    Ok((st, msg1))
}

/// The opening that round two broadcasts: the committed payload and the
/// nonce.
pub fn round2_msg(st: &R1State) -> (r: MsgRound2)
    requires
        r1_wf(*st),
    ensures
        r.x@ == st.Xs@,
        r.sch_commits_a@ == st.sch_commits_a@,
        r.Y == st.Y,
        r.sch_commit_b == st.sch_commit_b,
        r.N.val() == st.N.val(),
        r.s.val() == st.s.val(),
        r.t.val() == st.t.val(),
        r.params_proof.commitments@ == st.params_proof.commitments@,
        r.params_proof.responses@ == st.params_proof.responses@,
        r.rho_bytes@ == st.rho_bytes@,
        r.decommit@ == st.decommit_nonce@,
        msg2_types_wf(r),
{
    MsgRound2 {
        x: crate::curve::clone_point_vec(&st.Xs),
        sch_commits_a: crate::curve::clone_point_vec(&st.sch_commits_a),
        Y: st.Y.clone(),
        sch_commit_b: st.sch_commit_b.clone(),
        N: st.N.clone(),
        s: st.s.clone(),
        t: st.t.clone(),
        params_proof: st.params_proof.clone(),
        rho_bytes: crate::hashing::clone_bytes(&st.rho_bytes),
        decommit: crate::hashing::clone_bytes(&st.decommit_nonce),
    }
}


/// The round-one commitment of party `j` opens correctly to its round-two
/// message.
pub open spec fn decommit_ok(sid: Seq<u8>, n: u16, commitment: Seq<u8>, m: MsgRound2, j: u16) -> bool {
    commitment == commit_digest(msg2_frame(sid, n, j, m), m.decommit@)
}

/// Party `j` sent data of the right sizes.
pub open spec fn sizes_ok(n: u16, security_bits: nat, m: MsgRound2) -> bool {
    &&& m.x@.len() == n
    &&& m.sch_commits_a@.len() == n - 1
    &&& m.rho_bytes@.len() == security_bits / 8
}

/// Party `j`'s modulus is large enough and its Ring-Pedersen proof checks.
pub open spec fn ring_pedersen_ok(sid: Seq<u8>, security_bits: nat, reps: nat, m: MsgRound2) -> bool {
    &&& m.N.val() >= pow2((security_bits - 1) as nat)
    &&& prm_ok(
        sid,
        m.N.val(),
        m.s.val(),
        m.t.val(),
        bigint_vals(m.params_proof.commitments@),
        bigint_vals(m.params_proof.responses@),
        reps,
    )
}

/// Party `j`'s curve commitments sum to the identity.
pub open spec fn xs_sum_ok(m: MsgRound2) -> bool {
    sum_mod(point_dlogs(m.x@), group_order()) == 0
}

/// The blame list charges exactly the peers for which `bad` holds: every
/// entry names a peer that `bad` holds of, with both message references,
/// every such peer has an entry, and the entries are in strictly ascending
/// party order, so no peer is charged twice.
pub open spec fn blames_exactly(parties: Seq<AbortBlame>, n: u16, own: u16, bad: spec_fn(int) -> bool) -> bool {
    &&& forall|k: int| 0 <= k < parties.len() ==> ((#[trigger] parties[k]).party < n
            && parties[k].party != own && bad(parties[k].party as int)
            && parties[k].commitment_msg == parties[k].party
            && parties[k].opening_msg == parties[k].party)
    &&& forall|j: int| 0 <= j < n && j != own && #[trigger] bad(j)
        ==> exists|k: int| 0 <= k < parties.len() && (#[trigger] parties[k]).party == j
    &&& forall|k1: int, k2: int| 0 <= k1 < k2 < parties.len()
        ==> (#[trigger] parties[k1]).party < (#[trigger] parties[k2]).party
}

/// The abort that round-two processing produces: the first category, in
/// the order the protocol fixes, for which some peer misbehaved, with
/// exactly those peers blamed.
pub open spec fn round2_abort_ok(
    sid: Seq<u8>,
    n: u16,
    own: u16,
    security_bits: nat,
    reps: nat,
    commitments: Seq<MsgRound1>,
    decoms: Seq<MsgRound2>,
    ab: ProtocolAborted,
) -> bool {
    let bad_dec = |j: int| !decommit_ok(sid, n, commitments[j].commitment@, decoms[j], j as u16);
    let bad_size = |j: int| !sizes_ok(n, security_bits, decoms[j]);
    let bad_prm = |j: int| !ring_pedersen_ok(sid, security_bits, reps, decoms[j]);
    let bad_x = |j: int| !xs_sum_ok(decoms[j]);
    let some = |bad: spec_fn(int) -> bool| exists|j: int| 0 <= j < n && j != own && #[trigger] bad(j);
    if some(bad_dec) {
        ab.reason == ProtocolAbortReason::InvalidDecommitment && blames_exactly(ab.parties@, n, own, bad_dec)
    } else if some(bad_size) {
        ab.reason == ProtocolAbortReason::InvalidDataSize && blames_exactly(ab.parties@, n, own, bad_size)
    } else if some(bad_prm) {
        ab.reason == ProtocolAbortReason::InvalidRingPedersenParameters && blames_exactly(ab.parties@, n, own, bad_prm)
    } else if some(bad_x) {
        ab.reason == ProtocolAbortReason::InvalidX && blames_exactly(ab.parties@, n, own, bad_x)
    } else {
        false
    }
}

/// The randomness shares of every party, as sent in round two.
pub open spec fn rho_views(decoms: Seq<MsgRound2>) -> Seq<Seq<u8>> {
    decoms.map_values(|m: MsgRound2| m.rho_bytes@)
}

/// State of a party that validated every round-two opening.
pub struct R2State {
    /// The round-one state.
    pub r1: R1State,
    /// The validated openings, indexed by party; the local party's slot
    /// holds its own opening.
    pub decommitments: Vec<MsgRound2>,
    /// The global session randomness: exclusive-or of every party's share.
    pub rho: Vec<u8>,
}

/// Everything round-two processing guarantees about the state.
pub open spec fn r2_wf(st: R2State) -> bool {
    &&& r1_wf(st.r1)
    &&& st.decommitments@.len() == st.r1.n
    &&& forall|j: int| 0 <= j < st.decommitments@.len()
        ==> msg2_types_wf(#[trigger] st.decommitments@[j])
            && sizes_ok(st.r1.n, st.r1.security_bits as nat, st.decommitments@[j])
            && xs_sum_ok(st.decommitments@[j])
    &&& forall|j: int| 0 <= j < st.decommitments@.len() ==> (#[trigger] st.decommitments@[j]).N.val() >= 2
    &&& st.decommitments@[st.r1.i as int].x@ == st.r1.Xs@
    &&& st.decommitments@[st.r1.i as int].Y == st.r1.Y
    &&& st.decommitments@[st.r1.i as int].sch_commit_b == st.r1.sch_commit_b
    &&& st.decommitments@[st.r1.i as int].N.val() == st.r1.N.val()
    &&& st.rho@ == xor_all(rho_views(st.decommitments@), (st.r1.security_bits / 8) as nat)
    &&& st.rho@.len() == st.r1.security_bits / 8
}

/// A blame entry for party `jj` stays in the list when another entry is
/// appended.
proof fn lemma_blame_extend(before: Seq<AbortBlame>, pushed: AbortBlame, jj: int)
    requires
        exists|k: int| 0 <= k < before.len() && (#[trigger] before[k]).party == jj,
    ensures
        exists|k: int|
            0 <= k < before.push(pushed).len() && (#[trigger] before.push(pushed)[k]).party == jj,
{
    let k0 = choose|k: int| 0 <= k < before.len() && (#[trigger] before[k]).party == jj;
    assert(before.push(pushed)[k0].party == jj);
}

/// Validate every round-two opening against the round-one commitments and
/// combine the randomness shares.
///
/// The four checks run in the protocol's fixed order — opening matches
/// commitment, data sizes, Ring-Pedersen parameters, contributions sum to
/// zero — and each check is evaluated for every peer before the protocol
/// aborts, so the abort names every peer that failed it.
pub fn process_round2(
    st: R1State,
    commitments: &Vec<MsgRound1>,
    decommitments: Vec<MsgRound2>,
) -> (r: Result<R2State, KeyRefreshError>)
    requires
        r1_wf(st),
        commitments@.len() == st.n,
        decommitments@.len() == st.n,
        forall|j: int| 0 <= j < decommitments@.len() ==> msg2_types_wf(#[trigger] decommitments@[j]),
        decommitments@[st.i as int].x@ == st.Xs@,
        decommitments@[st.i as int].sch_commits_a@ == st.sch_commits_a@,
        decommitments@[st.i as int].Y == st.Y,
        decommitments@[st.i as int].sch_commit_b == st.sch_commit_b,
        decommitments@[st.i as int].rho_bytes@ == st.rho_bytes@,
        decommitments@[st.i as int].N.val() == st.N.val(),
    ensures
        match r {
            Ok(st2) => {
                &&& st2.r1 == st
                &&& st2.decommitments@ == decommitments@
                &&& r2_wf(st2)
                &&& forall|j: int| 0 <= j < st.n && j != st.i
                    ==> decommit_ok(st.sid@, st.n, commitments@[j].commitment@, #[trigger] decommitments@[j], j as u16)
                        && sizes_ok(st.n, st.security_bits as nat, decommitments@[j])
                        && ring_pedersen_ok(st.sid@, st.security_bits as nat, st.prm_reps as nat, decommitments@[j])
                        && xs_sum_ok(decommitments@[j])
            },
            Err(e) => e matches KeyRefreshError::Aborted(ab) && ab.parties@.len() >= 1
                && round2_abort_ok(
                st.sid@,
                st.n,
                st.i,
                st.security_bits as nat,
                st.prm_reps as nat,
                commitments@,
                decommitments@,
                ab,
            ),
        },
{
    let n = st.n;
    let i = st.i;
    let ghost sid_v = st.sid@;
    let ghost sb = st.security_bits as nat;
    let ghost reps = st.prm_reps as nat;
    let ghost decoms_v = decommitments@;
    let ghost coms_v = commitments@;
    let ghost bad_dec = |j: int| !decommit_ok(sid_v, n, coms_v[j].commitment@, decoms_v[j], j as u16);

    // Check 1: every opening matches its commitment.
    let mut blame: Vec<AbortBlame> = Vec::new();
    let mut j: usize = 0;
    while j < n as usize
        invariant
            j <= n,
            n == st.n,
            i == st.i,
            sid_v == st.sid@,
            decoms_v == decommitments@,
            coms_v == commitments@,
            commitments@.len() == n,
            decommitments@.len() == n,
            bad_dec == (|j: int| !decommit_ok(sid_v, n, coms_v[j].commitment@, decoms_v[j], j as u16)),
            forall|k: int| 0 <= k < blame@.len() ==> ((#[trigger] blame@[k]).party < n
                && blame@[k].party != i && bad_dec(blame@[k].party as int)
                && blame@[k].commitment_msg == blame@[k].party
                && blame@[k].opening_msg == blame@[k].party),
            forall|k: int| 0 <= k < blame@.len() ==> (#[trigger] blame@[k]).party < j as u16,
            forall|k1: int, k2: int| 0 <= k1 < k2 < blame@.len()
                ==> (#[trigger] blame@[k1]).party < (#[trigger] blame@[k2]).party,
            forall|jj: int| 0 <= jj < j && jj != i && #[trigger] bad_dec(jj)
                ==> exists|k: int| 0 <= k < blame@.len() && (#[trigger] blame@[k]).party == jj,
        decreases n - j,
    {
        if j != i as usize {
            let frame = build_round2_frame(&st.sid, n, j as u16, &decommitments[j]);
            let ok = verify_commit(&frame, &commitments[j].commitment, &decommitments[j].decommit);
            let ghost blame_before = blame@;
            if !ok {
                blame.push(AbortBlame::new(j as u16));
                proof {
                    assert forall|k1: int, k2: int| 0 <= k1 < k2 < blame@.len()
                        implies (#[trigger] blame@[k1]).party < (#[trigger] blame@[k2]).party by {
                        if k2 == blame@.len() - 1 {
                            assert(blame@[k1] == blame_before[k1]);
                            assert(blame_before[k1].party < j as u16);
                        }
                    }
                    assert forall|jj: int| 0 <= jj < j + 1 && jj != i && #[trigger] bad_dec(jj)
                        implies exists|k: int|
                            0 <= k < blame@.len() && (#[trigger] blame@[k]).party == jj by {
                        if jj < j {
                            lemma_blame_extend(blame_before, blame@.last(), jj);
                            assert(blame@ == blame_before.push(blame@.last()));
                        } else {
                            assert(blame@.last().party == j as u16);
                        }
                    }
                }
            } else {
                proof {
                    assert(!bad_dec(j as int));
                }
            }
        }
        j += 1;
    }
    if blame.len() > 0 {
        proof {
            assert(bad_dec(blame@[0].party as int));
        }
        return Err(KeyRefreshError::Aborted(ProtocolAborted::new(
            ProtocolAbortReason::InvalidDecommitment,
            blame,
        )));
    }
    proof {
        assert forall|jj: int| 0 <= jj < n && jj != i implies !(#[trigger] bad_dec(jj)) by {
            if bad_dec(jj) {
                assert(exists|k: int| 0 <= k < blame@.len() && (#[trigger] blame@[k]).party == jj);
            }
        }
    }

    // Check 2: nobody skipped any data.
    let ghost bad_size = |j: int| !sizes_ok(n, sb, decoms_v[j]);
    let mut blame: Vec<AbortBlame> = Vec::new();
    let mut j: usize = 0;
    while j < n as usize
        invariant
            j <= n,
            n == st.n,
            i == st.i,
            sb == st.security_bits as nat,
            decoms_v == decommitments@,
            decommitments@.len() == n,
            bad_size == (|j: int| !sizes_ok(n, sb, decoms_v[j])),
            forall|k: int| 0 <= k < blame@.len() ==> ((#[trigger] blame@[k]).party < n
                && blame@[k].party != i && bad_size(blame@[k].party as int)
                && blame@[k].commitment_msg == blame@[k].party
                && blame@[k].opening_msg == blame@[k].party),
            forall|k: int| 0 <= k < blame@.len() ==> (#[trigger] blame@[k]).party < j as u16,
            forall|k1: int, k2: int| 0 <= k1 < k2 < blame@.len()
                ==> (#[trigger] blame@[k1]).party < (#[trigger] blame@[k2]).party,
            forall|jj: int| 0 <= jj < j && jj != i && #[trigger] bad_size(jj)
                ==> exists|k: int| 0 <= k < blame@.len() && (#[trigger] blame@[k]).party == jj,
        decreases n - j,
    {
        if j != i as usize {
            let m = &decommitments[j];
            let ok = m.x.len() == n as usize && m.sch_commits_a.len() == (n - 1) as usize
                && m.rho_bytes.len() == st.security_bits / 8;
            let ghost blame_before = blame@;
            if !ok {
                blame.push(AbortBlame::new(j as u16));
                proof {
                    assert forall|k1: int, k2: int| 0 <= k1 < k2 < blame@.len()
                        implies (#[trigger] blame@[k1]).party < (#[trigger] blame@[k2]).party by {
                        if k2 == blame@.len() - 1 {
                            assert(blame@[k1] == blame_before[k1]);
                            assert(blame_before[k1].party < j as u16);
                        }
                    }
                    assert forall|jj: int| 0 <= jj < j + 1 && jj != i && #[trigger] bad_size(jj)
                        implies exists|k: int|
                            0 <= k < blame@.len() && (#[trigger] blame@[k]).party == jj by {
                        if jj < j {
                            lemma_blame_extend(blame_before, blame@.last(), jj);
                            assert(blame@ == blame_before.push(blame@.last()));
                        } else {
                            assert(blame@.last().party == j as u16);
                        }
                    }
                }
            } else {
                proof {
                    assert(!bad_size(j as int));
                }
            }
        }
        j += 1;
    }
    if blame.len() > 0 {
        proof {
            assert(bad_size(blame@[0].party as int));
            assert forall|jj: int| 0 <= jj < n && jj != i implies !(#[trigger] bad_dec(jj)) by {}
        }
        return Err(KeyRefreshError::Aborted(ProtocolAborted::new(
            ProtocolAbortReason::InvalidDataSize,
            blame,
        )));
    }
    proof {
        assert forall|jj: int| 0 <= jj < n && jj != i implies !(#[trigger] bad_size(jj)) by {
            if bad_size(jj) {
                assert(exists|k: int| 0 <= k < blame@.len() && (#[trigger] blame@[k]).party == jj);
            }
        }
    }

    // Check 3: the Ring-Pedersen parameters are well formed.
    let ghost bad_prm = |j: int| !ring_pedersen_ok(sid_v, sb, reps, decoms_v[j]);
    let mut blame: Vec<AbortBlame> = Vec::new();
    let mut j: usize = 0;
    while j < n as usize
        invariant
            j <= n,
            n == st.n,
            i == st.i,
            sid_v == st.sid@,
            sb == st.security_bits as nat,
            reps == st.prm_reps as nat,
            st.security_bits >= 8,
            1 <= st.prm_reps <= 256,
            decoms_v == decommitments@,
            decommitments@.len() == n,
            bad_prm == (|j: int| !ring_pedersen_ok(sid_v, sb, reps, decoms_v[j])),
            forall|k: int| 0 <= k < blame@.len() ==> ((#[trigger] blame@[k]).party < n
                && blame@[k].party != i && bad_prm(blame@[k].party as int)
                && blame@[k].commitment_msg == blame@[k].party
                && blame@[k].opening_msg == blame@[k].party),
            forall|k: int| 0 <= k < blame@.len() ==> (#[trigger] blame@[k]).party < j as u16,
            forall|k1: int, k2: int| 0 <= k1 < k2 < blame@.len()
                ==> (#[trigger] blame@[k1]).party < (#[trigger] blame@[k2]).party,
            forall|jj: int| 0 <= jj < j && jj != i && #[trigger] bad_prm(jj)
                ==> exists|k: int| 0 <= k < blame@.len() && (#[trigger] blame@[k]).party == jj,
        decreases n - j,
    {
        if j != i as usize {
            let m = &decommitments[j];
            let bitlen = m.N.bit_length();
            let mut ok: bool = false;
            if bitlen >= st.security_bits {
                proof {
                    vstd::arithmetic::power2::lemma_pow2_pos((st.security_bits - 1) as nat);
                    vstd::arithmetic::power2::lemma_pow2_pos((bitlen - 1) as nat);
                    if m.N.val() == 0 {
                        assert(false);
                    }
                    if bitlen > st.security_bits {
                        vstd::arithmetic::power2::lemma_pow2_strictly_increases(
                            (st.security_bits - 1) as nat,
                            (bitlen - 1) as nat,
                        );
                    }
                    assert(m.N.val() >= pow2((sb - 1) as nat));
                    vstd::arithmetic::power2::lemma2_to64();
                    assert(pow2(7) == 128);
                    if st.security_bits > 8 {
                        vstd::arithmetic::power2::lemma_pow2_strictly_increases(7nat, (st.security_bits - 1) as nat);
                    }
                    assert(m.N.val() >= 2);
                }
                ok = prm_verify(&st.sid, &m.N, &m.s, &m.t, &m.params_proof, st.prm_reps);
            } else {
                proof {
                    if m.N.val() >= pow2((sb - 1) as nat) {
                        if m.N.val() > 0 {
                            if bitlen < st.security_bits {
                                if (bitlen as nat) < (st.security_bits - 1) as nat {
                                    vstd::arithmetic::power2::lemma_pow2_strictly_increases(
                                        bitlen as nat,
                                        (st.security_bits - 1) as nat,
                                    );
                                }
                                assert(m.N.val() < pow2(bitlen as nat));
                                assert(false);
                            }
                        } else {
                            vstd::arithmetic::power2::lemma_pow2_pos((sb - 1) as nat);
                            assert(false);
                        }
                    }
                }
            }
            let ghost blame_before = blame@;
            if !ok {
                blame.push(AbortBlame::new(j as u16));
                proof {
                    assert forall|k1: int, k2: int| 0 <= k1 < k2 < blame@.len()
                        implies (#[trigger] blame@[k1]).party < (#[trigger] blame@[k2]).party by {
                        if k2 == blame@.len() - 1 {
                            assert(blame@[k1] == blame_before[k1]);
                            assert(blame_before[k1].party < j as u16);
                        }
                    }
                    assert forall|jj: int| 0 <= jj < j + 1 && jj != i && #[trigger] bad_prm(jj)
                        implies exists|k: int|
                            0 <= k < blame@.len() && (#[trigger] blame@[k]).party == jj by {
                        if jj < j {
                            lemma_blame_extend(blame_before, blame@.last(), jj);
                            assert(blame@ == blame_before.push(blame@.last()));
                        } else {
                            assert(blame@.last().party == j as u16);
                        }
                    }
                }
            } else {
                proof {
                    assert(!bad_prm(j as int));
                }
            }
        }
        j += 1;
    }
    if blame.len() > 0 {
        proof {
            assert(bad_prm(blame@[0].party as int));
            assert forall|jj: int| 0 <= jj < n && jj != i implies !(#[trigger] bad_dec(jj)) by {}
            assert forall|jj: int| 0 <= jj < n && jj != i implies !(#[trigger] bad_size(jj)) by {}
        }
        return Err(KeyRefreshError::Aborted(ProtocolAborted::new(
            ProtocolAbortReason::InvalidRingPedersenParameters,
            blame,
        )));
    }
    proof {
        assert forall|jj: int| 0 <= jj < n && jj != i implies !(#[trigger] bad_prm(jj)) by {
            if bad_prm(jj) {
                assert(exists|k: int| 0 <= k < blame@.len() && (#[trigger] blame@[k]).party == jj);
            }
        }
    }

    // Check 4: everyone's contributions sum to the identity.
    let ghost bad_x = |j: int| !xs_sum_ok(decoms_v[j]);
    let mut blame: Vec<AbortBlame> = Vec::new();
    let mut j: usize = 0;
    while j < n as usize
        invariant
            j <= n,
            n == st.n,
            i == st.i,
            decoms_v == decommitments@,
            decommitments@.len() == n,
            forall|jj: int| 0 <= jj < decommitments@.len() ==> msg2_types_wf(#[trigger] decommitments@[jj]),
            bad_x == (|j: int| !xs_sum_ok(decoms_v[j])),
            forall|k: int| 0 <= k < blame@.len() ==> ((#[trigger] blame@[k]).party < n
                && blame@[k].party != i && bad_x(blame@[k].party as int)
                && blame@[k].commitment_msg == blame@[k].party
                && blame@[k].opening_msg == blame@[k].party),
            forall|k: int| 0 <= k < blame@.len() ==> (#[trigger] blame@[k]).party < j as u16,
            forall|k1: int, k2: int| 0 <= k1 < k2 < blame@.len()
                ==> (#[trigger] blame@[k1]).party < (#[trigger] blame@[k2]).party,
            forall|jj: int| 0 <= jj < j && jj != i && #[trigger] bad_x(jj)
                ==> exists|k: int| 0 <= k < blame@.len() && (#[trigger] blame@[k]).party == jj,
        decreases n - j,
    {
        if j != i as usize {
            let total = crate::curve::sum_points(&decommitments[j].x);
            let zero = CurvePoint::zero();
            let ok = total.eq_point(&zero);
            let ghost blame_before = blame@;
            if !ok {
                blame.push(AbortBlame::new(j as u16));
                proof {
                    assert forall|k1: int, k2: int| 0 <= k1 < k2 < blame@.len()
                        implies (#[trigger] blame@[k1]).party < (#[trigger] blame@[k2]).party by {
                        if k2 == blame@.len() - 1 {
                            assert(blame@[k1] == blame_before[k1]);
                            assert(blame_before[k1].party < j as u16);
                        }
                    }
                    assert forall|jj: int| 0 <= jj < j + 1 && jj != i && #[trigger] bad_x(jj)
                        implies exists|k: int|
                            0 <= k < blame@.len() && (#[trigger] blame@[k]).party == jj by {
                        if jj < j {
                            lemma_blame_extend(blame_before, blame@.last(), jj);
                            assert(blame@ == blame_before.push(blame@.last()));
                        } else {
                            assert(blame@.last().party == j as u16);
                        }
                    }
                }
            } else {
                proof {
                    assert(!bad_x(j as int));
                }
            }
        }
        j += 1;
    }
    if blame.len() > 0 {
        proof {
            assert(bad_x(blame@[0].party as int));
            assert forall|jj: int| 0 <= jj < n && jj != i implies !(#[trigger] bad_dec(jj)) by {}
            assert forall|jj: int| 0 <= jj < n && jj != i implies !(#[trigger] bad_size(jj)) by {}
            assert forall|jj: int| 0 <= jj < n && jj != i implies !(#[trigger] bad_prm(jj)) by {}
        }
        return Err(KeyRefreshError::Aborted(ProtocolAborted::new(
            ProtocolAbortReason::InvalidX,
            blame,
        )));
    }
    proof {
        assert forall|jj: int| 0 <= jj < n && jj != i implies !(#[trigger] bad_x(jj)) by {
            if bad_x(jj) {
                assert(exists|k: int| 0 <= k < blame@.len() && (#[trigger] blame@[k]).party == jj);
            }
        }
    }

    // Combine the randomness shares.
    let mut rhos: Vec<Vec<u8>> = Vec::new();
    let mut j: usize = 0;
    while j < n as usize
        invariant
            j <= n,
            n == st.n,
            decoms_v == decommitments@,
            decommitments@.len() == n,
            rhos@.len() == j,
            forall|jj: int| 0 <= jj < j ==> (#[trigger] rhos@[jj])@ == decommitments@[jj].rho_bytes@,
        decreases n - j,
    {
        rhos.push(crate::hashing::clone_bytes(&decommitments[j].rho_bytes));
        j += 1;
    }
    proof {
        assert(rhos@.map_values(|v: Vec<u8>| v@) =~= rho_views(decommitments@));
        assert forall|jj: int| 0 <= jj < rhos@.len() implies (#[trigger] rhos@[jj])@.len() == st.security_bits / 8 by {
            if jj == st.i as int {
                assert(decommitments@[jj].rho_bytes@ == st.rho_bytes@);
            } else {
                assert(!bad_size(jj));
                assert(sizes_ok(n, sb, decommitments@[jj]));
            }
        }
    }
    let rho = xor_all_exec(&rhos, st.security_bits / 8);
    proof {
        assert(rho@.len() == st.security_bits / 8) by {
            lemma_xor_all_len(rho_views(decommitments@), (st.security_bits / 8) as nat);
        }
    }

    let st2 = R2State { r1: st, decommitments, rho };
    proof {
        let ghost ii = st2.r1.i as int;
        assert forall|jj: int| 0 <= jj < st2.decommitments@.len() && jj != ii
            implies sizes_ok(st2.r1.n, st2.r1.security_bits as nat, #[trigger] st2.decommitments@[jj])
                && xs_sum_ok(st2.decommitments@[jj]) by {
            assert(!bad_size(jj));
            assert(!bad_x(jj));
        }
        assert forall|jj: int| 0 <= jj < st2.decommitments@.len()
            implies (#[trigger] st2.decommitments@[jj]).N.val() >= 2 by {
            vstd::arithmetic::power2::lemma2_to64();
            if jj == ii {
                assert(st2.decommitments@[jj].N.val() == st2.r1.N.val());
            } else {
                assert(!bad_prm(jj));
                assert(st2.decommitments@[jj].N.val() >= pow2((sb - 1) as nat));
                if sb > 8 {
                    vstd::arithmetic::power2::lemma_pow2_strictly_increases(7nat, (sb - 1) as nat);
                }
            }
        }
        assert forall|jj: int| 0 <= jj < st2.r1.n && jj != st2.r1.i
            implies decommit_ok(st2.r1.sid@, st2.r1.n, coms_v[jj].commitment@, #[trigger] decoms_v[jj], jj as u16)
                && ring_pedersen_ok(st2.r1.sid@, st2.r1.security_bits as nat, st2.r1.prm_reps as nat, decoms_v[jj]) by {
            assert(!bad_dec(jj));
            assert(!bad_prm(jj));
        }
        assert(sizes_ok(st2.r1.n, st2.r1.security_bits as nat, st2.decommitments@[ii])) by {
            assert(st2.decommitments@[ii].x@.len() == st2.r1.Xs@.len());
            assert(st2.decommitments@[ii].sch_commits_a@.len() == st2.r1.sch_commits_a@.len());
            assert(st2.decommitments@[ii].rho_bytes@ == st2.r1.rho_bytes@);
        }
        assert(xs_sum_ok(st2.decommitments@[ii])) by {
            assert(point_dlogs(st2.decommitments@[ii].x@) =~= scalar_vals(st2.r1.xs@));
        }
    }
    Ok(st2)
}

/// The exclusive-or of byte strings of one length has that length.
proof fn lemma_xor_all_len(seqs: Seq<Seq<u8>>, len: nat)
    requires
        forall|j: int| 0 <= j < seqs.len() ==> (#[trigger] seqs[j]).len() == len,
    ensures
        xor_all(seqs, len).len() == len,
    decreases seqs.len(),
{
    if seqs.len() == 0 {
    } else {
        lemma_xor_all_len(seqs.drop_last(), len);
    }
}


/// The Schnorr challenge that the session binds to author `j`: the digest
/// of the session identifier, the author index and the global randomness,
/// read as a scalar.
pub open spec fn challenge_val(sid: Seq<u8>, j: u16, rho: Seq<u8>) -> nat {
    be_nat(sha256_of(sid + u16_be_spec(j) + rho)) % group_order()
}

/// Compute the Schnorr challenge bound to author `j`.
pub fn challenge_scalar(sid: &Vec<u8>, j: u16, rho: &Vec<u8>) -> (r: CurveScalar)
    ensures
        r.wf(),
        r.val() == challenge_val(sid@, j, rho@),
{
    let mut buf = concat_bytes(sid, &u16_be_bytes(j));
    buf = concat_bytes(&buf, rho);
    proof {
        assert(buf@ =~= sid@ + u16_be_spec(j) + rho@);
    }
    let digest = sha256(&buf);
    CurveScalar::from_be_bytes_mod_order(&digest)
}

/// The position of party `member` in the peer list of `owner`, which skips
/// `owner` itself.
pub open spec fn peer_slot(owner: u16, member: int) -> int {
    if member < owner {
        member
    } else {
        member - 1
    }
}

/// What a round-three message for recipient `j` must hold, over the
/// round-two state, the two delegated payloads and the author's challenge.
pub open spec fn msg3_entry_ok(
    st: R2State,
    mod_p: Seq<u8>,
    fac: Seq<Vec<u8>>,
    m: MsgRound3,
    j: int,
) -> bool {
    let e = challenge_val(st.r1.sid@, st.r1.i, st.rho@);
    &&& m.mod_proof@ == mod_p
    &&& m.fac_proof@ == fac[j]@
    &&& m.sch_proof_y.wf()
    &&& m.sch_proof_y.val() == (st.r1.sch_secret_b.val() + e * st.r1.y.val()) % group_order()
    &&& m.sch_proofs_x@.len() == st.r1.n
    &&& forall|k: int| 0 <= k < st.r1.n
        ==> (#[trigger] m.sch_proofs_x@[k]).wf()
            && m.sch_proofs_x@[k].val() == (st.r1.sch_secrets_a@[peer_slot(st.r1.i, j)].val()
                + e * st.r1.xs@[k].val()) % group_order()
    &&& exists|nc: nat|
        1 <= nc < st.decommitments@[j].N.val() && gcd_nat(nc, st.decommitments@[j].N.val()) == 1
            && m.C.val() == paillier_enc(st.decommitments@[j].N.val(), st.r1.xs@[j].val(), nc)
}

/// Build the unicast messages of round three, one per peer: the shared
/// Schnorr proof of the El-Gamal secret, a Schnorr proof of every additive
/// contribution under the commitment meant for that peer, the contribution
/// for the peer encrypted under the peer's Paillier modulus with a fresh
/// unit nonce, and the two delegated proofs as opaque payloads. The entry
/// at the local index is a placeholder that is never sent.
pub fn round3_msgs(st: &R2State, mod_proof: &Vec<u8>, fac_proofs: &Vec<Vec<u8>>) -> (r: Result<
    Vec<MsgRound3>,
    KeyRefreshError,
>)
    requires
        r2_wf(*st),
        fac_proofs@.len() == st.r1.n,
    ensures
        match r {
            Ok(msgs) => {
                &&& msgs@.len() == st.r1.n
                &&& forall|j: int| 0 <= j < st.r1.n && j != st.r1.i
                    ==> msg3_entry_ok(*st, mod_proof@, fac_proofs@, #[trigger] msgs@[j], j)
            },
            Err(e) => e matches KeyRefreshError::InternalError(b) && b == Bug::PaillierEnc,
        },
{
    let n = st.r1.n;
    let i = st.r1.i;
    let e_i = challenge_scalar(&st.r1.sid, i, &st.rho);
    let sch_proof_y = schnorr_prove(&st.r1.sch_secret_b, &e_i, &st.r1.y);
    let mut msgs: Vec<MsgRound3> = Vec::new();
    let mut j: usize = 0;
    while j < n as usize
        invariant
            j <= n,
            r2_wf(*st),
            n == st.r1.n,
            i == st.r1.i,
            fac_proofs@.len() == n,
            e_i.wf(),
            e_i.val() == challenge_val(st.r1.sid@, i, st.rho@),
            sch_proof_y.wf(),
            sch_proof_y.val() == (st.r1.sch_secret_b.val() + e_i.val() * st.r1.y.val())
                % group_order(),
            msgs@.len() == j,
            forall|jj: int| 0 <= jj < j && jj != i
                ==> msg3_entry_ok(*st, mod_proof@, fac_proofs@, #[trigger] msgs@[jj], jj),
        decreases n - j,
    {
        if j == i as usize {
            msgs.push(MsgRound3 {
                mod_proof: Vec::new(),
                fac_proof: Vec::new(),
                sch_proof_y: CurveScalar::zero(),
                C: Bigint::from_u64(0),
                sch_proofs_x: Vec::new(),
            });
        } else {
            let slot = if j < i as usize {
                j
            } else {
                j - 1
            };
            let mut sch_proofs_x: Vec<CurveScalar> = Vec::new();
            let mut k: usize = 0;
            while k < n as usize
                invariant
                    k <= n,
                    r2_wf(*st),
                    n == st.r1.n,
                    i == st.r1.i,
                    j < n,
                    j != i,
                    slot == peer_slot(i, j as int),
                    0 <= slot < st.r1.sch_secrets_a@.len(),
                    e_i.wf(),
                    sch_proofs_x@.len() == k,
                    forall|kk: int| 0 <= kk < k
                        ==> (#[trigger] sch_proofs_x@[kk]).wf()
                            && sch_proofs_x@[kk].val() == (
                            st.r1.sch_secrets_a@[slot as int].val()
                                + e_i.val() * st.r1.xs@[kk].val()) % group_order(),
                decreases n - k,
            {
                sch_proofs_x.push(schnorr_prove(&st.r1.sch_secrets_a[slot], &e_i, &st.r1.xs[k]));
                k += 1;
            }
            let peer_n = &st.decommitments[j].N;
            let enc_key = PaillierEncKey::from_modulus(peer_n);
            let nonce = match Bigint::random_unit_below(peer_n) {
                Some(u) => u,
                None => {
                    return Err(KeyRefreshError::InternalError(Bug::PaillierEnc));
                }
            };
            let m_plain = Bigint::from_be_slice(&st.r1.xs[j].to_be_bytes());
            let ciphertext = match enc_key.encrypt(&m_plain, &nonce) {
                Some(c) => c,
                None => {
                    return Err(KeyRefreshError::InternalError(Bug::PaillierEnc));
                }
            };
            msgs.push(MsgRound3 {
                mod_proof: crate::hashing::clone_bytes(mod_proof),
                fac_proof: crate::hashing::clone_bytes(&fac_proofs[j]),
                sch_proof_y: sch_proof_y.clone(),
                C: ciphertext,
                sch_proofs_x,
            });
            proof {
                let ghost m = msgs@.last();
                assert(msgs@[j as int] == m);
                assert(1 <= nonce.val() < st.decommitments@[j as int].N.val());
                assert(gcd_nat(nonce.val(), st.decommitments@[j as int].N.val()) == 1);
                assert(m_plain.val() == st.r1.xs@[j as int].val());
                assert(m.C.val() == paillier_enc(
                    st.decommitments@[j as int].N.val(),
                    st.r1.xs@[j as int].val(),
                    nonce.val(),
                ));
                assert(msg3_entry_ok(*st, mod_proof@, fac_proofs@, m, j as int));
            }
        }
        j += 1;
    }
    Ok(msgs)
}


/// The scalar that the local party decrypts from ciphertext value `c`
/// under its Paillier key with primes `p` and `q`.
pub open spec fn share_val(p: nat, q: nat, c: nat) -> nat {
    be_nat(crate::paillier::paillier_dec(p, q, c)) % group_order()
}

/// The contribution that `j` sent the local party decrypts to the scalar
/// that `j` announced for it in round two.
pub open spec fn xshare_ok(st: R2State, m: MsgRound3, j: int) -> bool {
    share_val(st.r1.p.val(), st.r1.q.val(), m.C.val())
        == st.decommitments@[j].x@[st.r1.i as int].dlog()
}

/// All Schnorr proofs of author `j` verify: the one for its El-Gamal key
/// under its round-two commitment, and one for every announced
/// contribution under the commitment meant for the local party.
pub open spec fn schnorr_ok(st: R2State, m: MsgRound3, j: int) -> bool {
    let e = challenge_val(st.r1.sid@, j as u16, st.rho@);
    let d = st.decommitments@[j];
    &&& m.sch_proof_y.val() == (d.sch_commit_b.dlog() + e * d.Y.dlog()) % group_order()
    &&& m.sch_proofs_x@.len() == d.x@.len()
    &&& forall|k: int| 0 <= k < d.x@.len()
        ==> (#[trigger] m.sch_proofs_x@[k]).val() == (
        d.sch_commits_a@[peer_slot(j as u16, st.r1.i as int)].dlog() + e * d.x@[k].dlog())
            % group_order()
}

/// Every scalar in a round-three message is a well-formed model value.
pub open spec fn msg3_types_wf(m: MsgRound3) -> bool {
    &&& m.sch_proof_y.wf()
    &&& forall|k: int| 0 <= k < m.sch_proofs_x@.len() ==> (#[trigger] m.sch_proofs_x@[k]).wf()
}

/// The abort that finalization produces: the first category, in the order
/// the protocol fixes, for which some peer misbehaved, with exactly those
/// peers blamed.
pub open spec fn round3_abort_ok(
    st: R2State,
    msgs: Seq<MsgRound3>,
    mod_ok: Seq<bool>,
    fac_ok: Seq<bool>,
    ab: ProtocolAborted,
) -> bool {
    let n = st.r1.n;
    let own = st.r1.i;
    let bad_share = |j: int| !xshare_ok(st, msgs[j], j);
    let bad_sch = |j: int| !schnorr_ok(st, msgs[j], j);
    let bad_mod = |j: int| !mod_ok[j];
    let bad_fac = |j: int| !fac_ok[j];
    let some = |bad: spec_fn(int) -> bool| exists|j: int| 0 <= j < n && j != own && #[trigger] bad(j);
    if some(bad_share) {
        ab.reason == ProtocolAbortReason::InvalidXShare && blames_exactly(ab.parties@, n, own, bad_share)
    } else if some(bad_sch) {
        ab.reason == ProtocolAbortReason::InvalidSchnorrProof && blames_exactly(ab.parties@, n, own, bad_sch)
    } else if some(bad_mod) {
        ab.reason == ProtocolAbortReason::InvalidModProof && blames_exactly(ab.parties@, n, own, bad_mod)
    } else if some(bad_fac) {
        ab.reason == ProtocolAbortReason::InvalidFacProof && blames_exactly(ab.parties@, n, own, bad_fac)
    } else {
        false
    }
}

/// Every party's Ring-Pedersen parameters are units modulo its modulus:
/// the one part of the final share validation that only the run itself can
/// decide.
pub open spec fn aux_units_ok(decoms: Seq<MsgRound2>) -> bool {
    forall|j: int| 0 <= j < decoms.len()
        ==> gcd_nat((#[trigger] decoms[j]).s.val(), decoms[j].N.val()) == 1
            && gcd_nat(decoms[j].t.val(), decoms[j].N.val()) == 1
}

/// Every peer's ciphertext decrypts under the local Paillier key.
pub open spec fn decrypts_ok(st: R2State, msgs: Seq<MsgRound3>) -> bool {
    forall|j: int| 0 <= j < st.r1.n && j != st.r1.i
        ==> paillier_dec_some(st.r1.p.val(), st.r1.q.val(), (#[trigger] msgs[j]).C.val())
}

/// Every finalization check passes for every peer: the decrypted shares
/// match the announcements, the Schnorr proofs verify, and the caller's
/// verifier accepted both delegated proofs.
pub open spec fn round3_checks_ok(
    st: R2State,
    msgs: Seq<MsgRound3>,
    mod_ok: Seq<bool>,
    fac_ok: Seq<bool>,
) -> bool {
    forall|j: int| 0 <= j < st.r1.n && j != st.r1.i
        ==> xshare_ok(st, #[trigger] msgs[j], j) && schnorr_ok(st, msgs[j], j) && mod_ok[j]
            && fac_ok[j]
}

/// Column `k` of the announced contributions: what each party contributed
/// to party `k`'s new share, as discrete logarithms.
pub open spec fn xs_column(decoms: Seq<MsgRound2>, k: int) -> Seq<nat> {
    Seq::new(decoms.len(), |j: int| decoms[j].x@[k].dlog())
}

/// The contribution scalars that finalization combines: the local party's
/// own contribution to itself, and for every peer the scalar decrypted
/// from that peer's ciphertext.
pub open spec fn finalize_share_vals(st: R2State, msgs: Seq<MsgRound3>) -> Seq<nat> {
    Seq::new(
        st.r1.n as nat,
        |j: int|
            if j == st.r1.i as int {
                st.r1.xs@[j].val()
            } else {
                share_val(st.r1.p.val(), st.r1.q.val(), msgs[j].C.val())
            },
    )
}

/// The fold that accumulates the contribution scalars into the secret
/// share: one modular reduction per step.
pub open spec fn fold_add_mod(acc: nat, vals: Seq<nat>, q: nat) -> nat
    decreases vals.len(),
{
    if vals.len() == 0 {
        acc
    } else {
        (fold_add_mod(acc, vals.drop_last(), q) + vals.last()) % q
    }
}

/// Folding values into an accumulator with a reduction at every step is
/// the same as adding their reduced sum once.
proof fn lemma_fold_is_sum(acc: nat, vals: Seq<nat>, q: nat)
    requires
        q >= 1,
        acc < q,
    ensures
        fold_add_mod(acc, vals, q) == (acc + sum_mod(vals, q)) % q,
    decreases vals.len(),
{
    if vals.len() == 0 {
        vstd::arithmetic::div_mod::lemma_small_mod(acc, q);
    } else {
        lemma_fold_is_sum(acc, vals.drop_last(), q);
        let qi = q as int;
        let prev = sum_mod(vals.drop_last(), q) as int;
        let l = vals.last() as int;
        let a = acc as int;
        assert((((a + prev) % qi) + l) % qi == (a + prev + l) % qi) by {
            vstd::arithmetic::div_mod::lemma_add_mod_noop(a + prev, l, qi);
            vstd::arithmetic::div_mod::lemma_mod_twice(l, qi);
            assert((l % qi) % qi == l % qi);
            vstd::arithmetic::div_mod::lemma_add_mod_noop((a + prev) % qi, l, qi);
            vstd::arithmetic::div_mod::lemma_mod_twice(a + prev, qi);
        }
        assert((a + ((prev + l) % qi)) % qi == (a + prev + l) % qi) by {
            vstd::arithmetic::div_mod::lemma_add_mod_noop(a, prev + l, qi);
            vstd::arithmetic::div_mod::lemma_mod_twice(a, qi);
            assert((a % qi) % qi == a % qi);
            vstd::arithmetic::div_mod::lemma_add_mod_noop(a, (prev + l) % qi, qi);
            vstd::arithmetic::div_mod::lemma_mod_twice(prev + l, qi);
        }
    }
}

/// Decrypt every received contribution, check every proof, and assemble
/// the refreshed key share.
///
/// The five checks run in the protocol's fixed order — the share matches
/// the announced commitment, the Schnorr proofs, the two delegated proof
/// verdicts handed in by the caller's verifier — and each is evaluated
/// for every peer before the protocol aborts. On success the new public
/// share of every party is its old one plus the sum of all announced
/// contributions for it, and the assembled share passes full validation.
pub fn finalize(
    st: R2State,
    old_share: &crate::key_share::IncompleteKeyShare,
    shares_msgs: Vec<MsgRound3>,
    mod_ok: &Vec<bool>,
    fac_ok: &Vec<bool>,
) -> (r: Result<crate::key_share::KeyShare, KeyRefreshError>)
    requires
        r2_wf(st),
        crate::key_share::incomplete_share_types_wf(*old_share),
        crate::key_share::incomplete_share_consistent(*old_share),
        old_share.i == st.r1.i,
        old_share.public_shares@.len() == st.r1.n,
        shares_msgs@.len() == st.r1.n,
        forall|j: int| 0 <= j < shares_msgs@.len() ==> msg3_types_wf(#[trigger] shares_msgs@[j]),
        mod_ok@.len() == st.r1.n,
        fac_ok@.len() == st.r1.n,
    ensures
        match r {
            Ok(ks) => {
                &&& crate::key_share::share_types_wf(ks)
                &&& crate::key_share::share_consistent(ks)
                &&& ks.core.i == st.r1.i
                &&& ks.core.shared_public_key.dlog() == old_share.shared_public_key.dlog()
                &&& ks.core.rid@ == old_share.rid@
                &&& ks.p.val() == st.r1.p.val()
                &&& ks.q.val() == st.r1.q.val()
                &&& ks.y.val() == st.r1.y.val()
                &&& ks.parties@.len() == st.r1.n
                &&& forall|j: int| 0 <= j < st.r1.n ==> {
                    let d = st.decommitments@[j];
                    let a = #[trigger] ks.parties@[j];
                    a.N.val() == d.N.val() && a.s.val() == d.s.val() && a.t.val() == d.t.val()
                        && a.Y.dlog() == d.Y.dlog()
                }
                &&& ks.core.public_shares@.len() == st.r1.n
                &&& forall|k: int| 0 <= k < st.r1.n
                    ==> (#[trigger] ks.core.public_shares@[k]).dlog() == (
                    old_share.public_shares@[k].dlog()
                        + sum_mod(xs_column(st.decommitments@, k), group_order()))
                        % group_order()
                &&& ks.core.x.val() == (old_share.x.val()
                    + sum_mod(finalize_share_vals(st, shares_msgs@), group_order()))
                    % group_order()
                &&& round3_checks_ok(st, shares_msgs@, mod_ok@, fac_ok@)
            },
            Err(e) => match e {
                KeyRefreshError::Aborted(ab) => ab.parties@.len() >= 1
                    && round3_abort_ok(st, shares_msgs@, mod_ok@, fac_ok@, ab),
                KeyRefreshError::PaillierDec => !decrypts_ok(st, shares_msgs@),
                KeyRefreshError::InternalError(b) => (b == Bug::PaillierKeyError
                    && !paillier_key_some(st.r1.p.val(), st.r1.q.val())) || (b
                    == Bug::InvalidShareGenerated && !aux_units_ok(st.decommitments@)),
            },
        },
        r is Ok <==> (paillier_key_some(st.r1.p.val(), st.r1.q.val()) && decrypts_ok(
            st,
            shares_msgs@,
        ) && round3_checks_ok(st, shares_msgs@, mod_ok@, fac_ok@) && aux_units_ok(
            st.decommitments@,
        )),
{
    let n = st.r1.n;
    let i = st.r1.i;
    let ghost pv = st.r1.p.val();
    let ghost qv = st.r1.q.val();
    let dec_key = match PaillierDecKey::from_primes(&st.r1.p, &st.r1.q) {
        Some(k) => k,
        None => {
            return Err(KeyRefreshError::InternalError(Bug::PaillierKeyError));
        }
    };

    // Decrypt the received contributions; the local one was never sent.
    let mut shares: Vec<CurveScalar> = Vec::new();
    let mut j: usize = 0;
    while j < n as usize
        invariant
            j <= n,
            r2_wf(st),
            n == st.r1.n,
            i == st.r1.i,
            pv == st.r1.p.val(),
            qv == st.r1.q.val(),
            dec_key.p() == pv,
            dec_key.q() == qv,
            shares_msgs@.len() == n,
            shares@.len() == j,
            forall|jj: int| 0 <= jj < j ==> (#[trigger] shares@[jj]).wf(),
            forall|jj: int| 0 <= jj < j && jj != i
                ==> (#[trigger] shares@[jj]).val() == share_val(pv, qv, shares_msgs@[jj].C.val()),
            forall|jj: int| 0 <= jj < j && jj != i
                ==> paillier_dec_some(pv, qv, (#[trigger] shares_msgs@[jj]).C.val()),
            i < j ==> shares@[i as int].val() == st.r1.xs@[i as int].val(),
        decreases n - j,
    {
        if j == i as usize {
            shares.push(st.r1.xs[j].clone());
        } else {
            let bytes = match dec_key.decrypt(&shares_msgs[j].C) {
                Some(b) => b,
                None => {
                    proof {
                        assert(!paillier_dec_some(pv, qv, shares_msgs@[j as int].C.val()));
                        assert(!decrypts_ok(st, shares_msgs@));
                    }
                    return Err(KeyRefreshError::PaillierDec);
                }
            };
            shares.push(CurveScalar::from_be_bytes_mod_order(&bytes));
        }
        j += 1;
    }

    // Check 1: each contribution matches what its author announced.
    let ghost bad_share = |j: int| !xshare_ok(st, shares_msgs@[j], j);
    let mut blame: Vec<AbortBlame> = Vec::new();
    let mut j: usize = 0;
    while j < n as usize
        invariant
            j <= n,
            r2_wf(st),
            n == st.r1.n,
            i == st.r1.i,
            pv == st.r1.p.val(),
            qv == st.r1.q.val(),
            shares_msgs@.len() == n,
            shares@.len() == n,
            forall|jj: int| 0 <= jj < n ==> (#[trigger] shares@[jj]).wf(),
            forall|jj: int| 0 <= jj < n && jj != i
                ==> (#[trigger] shares@[jj]).val() == share_val(pv, qv, shares_msgs@[jj].C.val()),
            bad_share == (|j: int| !xshare_ok(st, shares_msgs@[j], j)),
            forall|k: int| 0 <= k < blame@.len() ==> ((#[trigger] blame@[k]).party < n
                && blame@[k].party != i && bad_share(blame@[k].party as int)
                && blame@[k].commitment_msg == blame@[k].party
                && blame@[k].opening_msg == blame@[k].party),
            forall|k: int| 0 <= k < blame@.len() ==> (#[trigger] blame@[k]).party < j as u16,
            forall|k1: int, k2: int| 0 <= k1 < k2 < blame@.len()
                ==> (#[trigger] blame@[k1]).party < (#[trigger] blame@[k2]).party,
            forall|jj: int| 0 <= jj < j && jj != i && #[trigger] bad_share(jj)
                ==> exists|k: int| 0 <= k < blame@.len() && (#[trigger] blame@[k]).party == jj,
        decreases n - j,
    {
        if j != i as usize {
            let expected = CurvePoint::generator_mul(&shares[j]);
            let announced = &st.decommitments[j].x[i as usize];
            let ok = expected.eq_point(announced);
            let ghost blame_before = blame@;
            if !ok {
                blame.push(AbortBlame::new(j as u16));
                proof {
                    assert forall|k1: int, k2: int| 0 <= k1 < k2 < blame@.len()
                        implies (#[trigger] blame@[k1]).party < (#[trigger] blame@[k2]).party by {
                        if k2 == blame@.len() - 1 {
                            assert(blame@[k1] == blame_before[k1]);
                            assert(blame_before[k1].party < j as u16);
                        }
                    }
                    assert forall|jj: int| 0 <= jj < j + 1 && jj != i && #[trigger] bad_share(jj)
                        implies exists|k: int|
                            0 <= k < blame@.len() && (#[trigger] blame@[k]).party == jj by {
                        if jj < j {
                            lemma_blame_extend(blame_before, blame@.last(), jj);
                            assert(blame@ == blame_before.push(blame@.last()));
                        } else {
                            assert(blame@.last().party == j as u16);
                        }
                    }
                }
            } else {
                proof {
                    assert(!bad_share(j as int));
                }
            }
        }
        j += 1;
    }
    if blame.len() > 0 {
        proof {
            assert(bad_share(blame@[0].party as int));
        }
        proof {
            let ghost j0 = blame@[0].party as int;
            assert(blame@[0].party < st.r1.n && blame@[0].party != st.r1.i);
            assert(bad_share(j0));
            assert(!xshare_ok(st, shares_msgs@[j0], j0));
            assert(!round3_checks_ok(st, shares_msgs@, mod_ok@, fac_ok@)) by {
                let ghost w = shares_msgs@[j0];
                if round3_checks_ok(st, shares_msgs@, mod_ok@, fac_ok@) {
                    assert(xshare_ok(st, shares_msgs@[j0], j0));
                }
            }
        }
        return Err(KeyRefreshError::Aborted(ProtocolAborted::new(
            ProtocolAbortReason::InvalidXShare,
            blame,
        )));
    }
    proof {
        assert forall|jj: int| 0 <= jj < n && jj != i implies !(#[trigger] bad_share(jj)) by {
            if bad_share(jj) {
                assert(exists|k: int| 0 <= k < blame@.len() && (#[trigger] blame@[k]).party == jj);
            }
        }
    }

    // Check 2: every Schnorr proof verifies.
    let ghost bad_sch = |j: int| !schnorr_ok(st, shares_msgs@[j], j);
    let mut blame: Vec<AbortBlame> = Vec::new();
    let mut j: usize = 0;
    while j < n as usize
        invariant
            j <= n,
            r2_wf(st),
            n == st.r1.n,
            i == st.r1.i,
            shares_msgs@.len() == n,
            forall|jj: int| 0 <= jj < shares_msgs@.len()
                ==> msg3_types_wf(#[trigger] shares_msgs@[jj]),
            bad_sch == (|j: int| !schnorr_ok(st, shares_msgs@[j], j)),
            forall|k: int| 0 <= k < blame@.len() ==> ((#[trigger] blame@[k]).party < n
                && blame@[k].party != i && bad_sch(blame@[k].party as int)
                && blame@[k].commitment_msg == blame@[k].party
                && blame@[k].opening_msg == blame@[k].party),
            forall|k: int| 0 <= k < blame@.len() ==> (#[trigger] blame@[k]).party < j as u16,
            forall|k1: int, k2: int| 0 <= k1 < k2 < blame@.len()
                ==> (#[trigger] blame@[k1]).party < (#[trigger] blame@[k2]).party,
            forall|jj: int| 0 <= jj < j && jj != i && #[trigger] bad_sch(jj)
                ==> exists|k: int| 0 <= k < blame@.len() && (#[trigger] blame@[k]).party == jj,
        decreases n - j,
    {
        if j != i as usize {
            let m = &shares_msgs[j];
            let e_j = challenge_scalar(&st.r1.sid, j as u16, &st.rho);
            let d = &st.decommitments[j];
            let mut ok = schnorr_verify(&m.sch_proof_y, &d.sch_commit_b, &e_j, &d.Y);
            if m.sch_proofs_x.len() != d.x.len() {
                ok = false;
            } else {
                let slot = if (i as usize) < j {
                    i as usize
                } else {
                    (i as usize) - 1
                };
                proof {
                    assert(slot == peer_slot(j as u16, i as int));
                }
                let mut k: usize = 0;
                while k < m.sch_proofs_x.len()
                    invariant
                        k <= m.sch_proofs_x@.len(),
                        r2_wf(st),
                        n == st.r1.n,
                        i == st.r1.i,
                        j < n,
                        j != i,
                        shares_msgs@.len() == n,
                        m == &shares_msgs[j as int],
                        d == &st.decommitments[j as int],
                        msg3_types_wf(*m),
                        m.sch_proofs_x@.len() == d.x@.len(),
                        slot == peer_slot(j as u16, i as int),
                        0 <= slot < d.sch_commits_a@.len(),
                        e_j.wf(),
                        e_j.val() == challenge_val(st.r1.sid@, j as u16, st.rho@),
                        ok ==> m.sch_proof_y.val() == (d.sch_commit_b.dlog()
                            + e_j.val() * d.Y.dlog()) % group_order(),
                        !ok ==> !schnorr_ok(st, shares_msgs@[j as int], j as int),
                        ok ==> forall|kk: int| 0 <= kk < k
                            ==> (#[trigger] m.sch_proofs_x@[kk]).val() == (
                            d.sch_commits_a@[slot as int].dlog() + e_j.val() * d.x@[kk].dlog())
                                % group_order(),
                    decreases m.sch_proofs_x@.len() - k,
                {
                    let this_ok = schnorr_verify(
                        &m.sch_proofs_x[k],
                        &d.sch_commits_a[slot],
                        &e_j,
                        &d.x[k],
                    );
                    if !this_ok {
                        proof {
                            if schnorr_ok(st, shares_msgs@[j as int], j as int) {
                                assert(m.sch_proofs_x@[k as int].val() == (
                                    d.sch_commits_a@[slot as int].dlog()
                                        + e_j.val() * d.x@[k as int].dlog()) % group_order());
                            }
                        }
                        ok = false;
                    }
                    k += 1;
                }
            }
            let ghost blame_before = blame@;
            proof {
                if ok {
                    assert(schnorr_ok(st, shares_msgs@[j as int], j as int));
                }
            }
            if !ok {
                blame.push(AbortBlame::new(j as u16));
                proof {
                    assert forall|k1: int, k2: int| 0 <= k1 < k2 < blame@.len()
                        implies (#[trigger] blame@[k1]).party < (#[trigger] blame@[k2]).party by {
                        if k2 == blame@.len() - 1 {
                            assert(blame@[k1] == blame_before[k1]);
                            assert(blame_before[k1].party < j as u16);
                        }
                    }
                    assert forall|jj: int| 0 <= jj < j + 1 && jj != i && #[trigger] bad_sch(jj)
                        implies exists|k: int|
                            0 <= k < blame@.len() && (#[trigger] blame@[k]).party == jj by {
                        if jj < j {
                            lemma_blame_extend(blame_before, blame@.last(), jj);
                            assert(blame@ == blame_before.push(blame@.last()));
                        } else {
                            assert(blame@.last().party == j as u16);
                        }
                    }
                }
            } else {
                proof {
                    assert(!bad_sch(j as int));
                }
            }
        }
        j += 1;
    }
    if blame.len() > 0 {
        proof {
            assert(bad_sch(blame@[0].party as int));
            assert forall|jj: int| 0 <= jj < n && jj != i implies !(#[trigger] bad_share(jj)) by {}
        }
        proof {
            let ghost j0 = blame@[0].party as int;
            assert(blame@[0].party < st.r1.n && blame@[0].party != st.r1.i);
            assert(bad_sch(j0));
            assert(!schnorr_ok(st, shares_msgs@[j0], j0));
            assert(!round3_checks_ok(st, shares_msgs@, mod_ok@, fac_ok@)) by {
                if round3_checks_ok(st, shares_msgs@, mod_ok@, fac_ok@) {
                    assert(xshare_ok(st, shares_msgs@[j0], j0) && schnorr_ok(st, shares_msgs@[j0], j0)
                        && mod_ok@[j0] && fac_ok@[j0]);
                }
            }
        }
        return Err(KeyRefreshError::Aborted(ProtocolAborted::new(
            ProtocolAbortReason::InvalidSchnorrProof,
            blame,
        )));
    }
    proof {
        assert forall|jj: int| 0 <= jj < n && jj != i implies !(#[trigger] bad_sch(jj)) by {
            if bad_sch(jj) {
                assert(exists|k: int| 0 <= k < blame@.len() && (#[trigger] blame@[k]).party == jj);
            }
        }
    }

    // Checks 3 and 4: the verdicts of the collaborating proof verifier.
    let ghost bad_mod = |j: int| !mod_ok@[j];
    let mut blame: Vec<AbortBlame> = Vec::new();
    let mut j: usize = 0;
    while j < n as usize
        invariant
            j <= n,
            n == st.r1.n,
            i == st.r1.i,
            mod_ok@.len() == n,
            bad_mod == (|j: int| !mod_ok@[j]),
            forall|k: int| 0 <= k < blame@.len() ==> ((#[trigger] blame@[k]).party < n
                && blame@[k].party != i && bad_mod(blame@[k].party as int)
                && blame@[k].commitment_msg == blame@[k].party
                && blame@[k].opening_msg == blame@[k].party),
            forall|k: int| 0 <= k < blame@.len() ==> (#[trigger] blame@[k]).party < j as u16,
            forall|k1: int, k2: int| 0 <= k1 < k2 < blame@.len()
                ==> (#[trigger] blame@[k1]).party < (#[trigger] blame@[k2]).party,
            forall|jj: int| 0 <= jj < j && jj != i && #[trigger] bad_mod(jj)
                ==> exists|k: int| 0 <= k < blame@.len() && (#[trigger] blame@[k]).party == jj,
        decreases n - j,
    {
        if j != i as usize {
            let ok = mod_ok[j];
            let ghost blame_before = blame@;
            if !ok {
                blame.push(AbortBlame::new(j as u16));
                proof {
                    assert forall|k1: int, k2: int| 0 <= k1 < k2 < blame@.len()
                        implies (#[trigger] blame@[k1]).party < (#[trigger] blame@[k2]).party by {
                        if k2 == blame@.len() - 1 {
                            assert(blame@[k1] == blame_before[k1]);
                            assert(blame_before[k1].party < j as u16);
                        }
                    }
                    assert forall|jj: int| 0 <= jj < j + 1 && jj != i && #[trigger] bad_mod(jj)
                        implies exists|k: int|
                            0 <= k < blame@.len() && (#[trigger] blame@[k]).party == jj by {
                        if jj < j {
                            lemma_blame_extend(blame_before, blame@.last(), jj);
                            assert(blame@ == blame_before.push(blame@.last()));
                        } else {
                            assert(blame@.last().party == j as u16);
                        }
                    }
                }
            }
        }
        j += 1;
    }
    if blame.len() > 0 {
        proof {
            assert(bad_mod(blame@[0].party as int));
            assert forall|jj: int| 0 <= jj < n && jj != i implies !(#[trigger] bad_share(jj)) by {}
            assert forall|jj: int| 0 <= jj < n && jj != i implies !(#[trigger] bad_sch(jj)) by {}
        }
        proof {
            let ghost j0 = blame@[0].party as int;
            assert(blame@[0].party < st.r1.n && blame@[0].party != st.r1.i);
            assert(bad_mod(j0));
            assert(!mod_ok@[j0]);
            assert(!round3_checks_ok(st, shares_msgs@, mod_ok@, fac_ok@)) by {
                let ghost w = shares_msgs@[j0];
                if round3_checks_ok(st, shares_msgs@, mod_ok@, fac_ok@) {
                    assert(xshare_ok(st, shares_msgs@[j0], j0) && schnorr_ok(st, shares_msgs@[j0], j0)
                        && mod_ok@[j0] && fac_ok@[j0]);
                }
            }
        }
        return Err(KeyRefreshError::Aborted(ProtocolAborted::new(
            ProtocolAbortReason::InvalidModProof,
            blame,
        )));
    }
    proof {
        assert forall|jj: int| 0 <= jj < n && jj != i implies !(#[trigger] bad_mod(jj)) by {
            if bad_mod(jj) {
                assert(exists|k: int| 0 <= k < blame@.len() && (#[trigger] blame@[k]).party == jj);
            }
        }
    }

    let ghost bad_fac = |j: int| !fac_ok@[j];
    let mut blame: Vec<AbortBlame> = Vec::new();
    let mut j: usize = 0;
    while j < n as usize
        invariant
            j <= n,
            n == st.r1.n,
            i == st.r1.i,
            fac_ok@.len() == n,
            bad_fac == (|j: int| !fac_ok@[j]),
            forall|k: int| 0 <= k < blame@.len() ==> ((#[trigger] blame@[k]).party < n
                && blame@[k].party != i && bad_fac(blame@[k].party as int)
                && blame@[k].commitment_msg == blame@[k].party
                && blame@[k].opening_msg == blame@[k].party),
            forall|k: int| 0 <= k < blame@.len() ==> (#[trigger] blame@[k]).party < j as u16,
            forall|k1: int, k2: int| 0 <= k1 < k2 < blame@.len()
                ==> (#[trigger] blame@[k1]).party < (#[trigger] blame@[k2]).party,
            forall|jj: int| 0 <= jj < j && jj != i && #[trigger] bad_fac(jj)
                ==> exists|k: int| 0 <= k < blame@.len() && (#[trigger] blame@[k]).party == jj,
        decreases n - j,
    {
        if j != i as usize {
            let ok = fac_ok[j];
            let ghost blame_before = blame@;
            if !ok {
                blame.push(AbortBlame::new(j as u16));
                proof {
                    assert forall|k1: int, k2: int| 0 <= k1 < k2 < blame@.len()
                        implies (#[trigger] blame@[k1]).party < (#[trigger] blame@[k2]).party by {
                        if k2 == blame@.len() - 1 {
                            assert(blame@[k1] == blame_before[k1]);
                            assert(blame_before[k1].party < j as u16);
                        }
                    }
                    assert forall|jj: int| 0 <= jj < j + 1 && jj != i && #[trigger] bad_fac(jj)
                        implies exists|k: int|
                            0 <= k < blame@.len() && (#[trigger] blame@[k]).party == jj by {
                        if jj < j {
                            lemma_blame_extend(blame_before, blame@.last(), jj);
                            assert(blame@ == blame_before.push(blame@.last()));
                        } else {
                            assert(blame@.last().party == j as u16);
                        }
                    }
                }
            }
        }
        j += 1;
    }
    if blame.len() > 0 {
        proof {
            assert(bad_fac(blame@[0].party as int));
            assert forall|jj: int| 0 <= jj < n && jj != i implies !(#[trigger] bad_share(jj)) by {}
            assert forall|jj: int| 0 <= jj < n && jj != i implies !(#[trigger] bad_sch(jj)) by {}
            assert forall|jj: int| 0 <= jj < n && jj != i implies !(#[trigger] bad_mod(jj)) by {}
        }
        proof {
            let ghost j0 = blame@[0].party as int;
            assert(blame@[0].party < st.r1.n && blame@[0].party != st.r1.i);
            assert(bad_fac(j0));
            assert(!fac_ok@[j0]);
            assert(!round3_checks_ok(st, shares_msgs@, mod_ok@, fac_ok@)) by {
                let ghost w = shares_msgs@[j0];
                if round3_checks_ok(st, shares_msgs@, mod_ok@, fac_ok@) {
                    assert(xshare_ok(st, shares_msgs@[j0], j0) && schnorr_ok(st, shares_msgs@[j0], j0)
                        && mod_ok@[j0] && fac_ok@[j0]);
                }
            }
        }
        return Err(KeyRefreshError::Aborted(ProtocolAborted::new(
            ProtocolAbortReason::InvalidFacProof,
            blame,
        )));
    }

    proof {
        assert forall|jj: int| 0 <= jj < n && jj != i implies !(#[trigger] bad_fac(jj)) by {
            if bad_fac(jj) {
                assert(exists|k: int| 0 <= k < blame@.len() && (#[trigger] blame@[k]).party == jj);
            }
        }
        assert forall|jj: int| 0 <= jj < n && jj != i
            implies xshare_ok(st, #[trigger] shares_msgs@[jj], jj)
                && schnorr_ok(st, shares_msgs@[jj], jj) && mod_ok@[jj] && fac_ok@[jj] by {
            assert(!bad_share(jj));
            assert(!bad_sch(jj));
            assert(!bad_mod(jj));
            assert(!bad_fac(jj));
        }
    }

    // Combine: new secret share, new public shares, auxiliary table.
    let ghost q_ord = group_order();
    let ghost svals = finalize_share_vals(st, shares_msgs@);
    proof {
        assert forall|jj: int| 0 <= jj < n implies (#[trigger] shares@[jj]).val() == svals[jj] by {
            if jj == i as int {
                assert(shares@[jj].val() == st.r1.xs@[jj].val());
            }
        }
        assert(svals.take(0) =~= Seq::<nat>::empty());
    }
    let mut x_star = old_share.x.clone();
    let mut j: usize = 0;
    while j < n as usize
        invariant
            j <= n,
            n == st.r1.n,
            shares@.len() == n,
            q_ord == group_order(),
            svals == finalize_share_vals(st, shares_msgs@),
            svals.len() == n,
            forall|jj: int| 0 <= jj < n ==> (#[trigger] shares@[jj]).wf(),
            forall|jj: int| 0 <= jj < n ==> (#[trigger] shares@[jj]).val() == svals[jj],
            x_star.wf(),
            x_star.val() == fold_add_mod(old_share.x.val(), svals.take(j as int), q_ord),
        decreases n - j,
    {
        let next = x_star.add(&shares[j]);
        proof {
            assert(svals.take(j + 1).drop_last() =~= svals.take(j as int));
            assert(svals.take(j + 1).last() == svals[j as int]);
        }
        x_star = next;
        j += 1;
    }
    proof {
        assert(svals.take(n as int) =~= svals);
        lemma_fold_is_sum(old_share.x.val(), svals, q_ord);
        assert(x_star.val() == (old_share.x.val() + sum_mod(svals, q_ord)) % q_ord);
    }

    let mut new_shares: Vec<CurvePoint> = Vec::new();
    let mut k: usize = 0;
    while k < n as usize
        invariant
            k <= n,
            r2_wf(st),
            n == st.r1.n,
            old_share.public_shares@.len() == n,
            crate::key_share::incomplete_share_types_wf(*old_share),
            new_shares@.len() == k,
            forall|kk: int| 0 <= kk < k ==> (#[trigger] new_shares@[kk]).wf()
                && new_shares@[kk].dlog() == (old_share.public_shares@[kk].dlog()
                    + sum_mod(xs_column(st.decommitments@, kk), group_order())) % group_order(),
        decreases n - k,
    {
        let mut col: Vec<CurvePoint> = Vec::new();
        let mut j: usize = 0;
        while j < n as usize
            invariant
                j <= n,
                r2_wf(st),
                n == st.r1.n,
                k < n,
                col@.len() == j,
                forall|jj: int| 0 <= jj < j ==> (#[trigger] col@[jj]).wf()
                    && col@[jj].dlog() == st.decommitments@[jj].x@[k as int].dlog(),
            decreases n - j,
        {
            col.push(st.decommitments[j].x[k].clone());
            j += 1;
        }
        let total = crate::curve::sum_points(&col);
        proof {
            assert(point_dlogs(col@) =~= xs_column(st.decommitments@, k as int));
        }
        let newpt = old_share.public_shares[k].add(&total);
        new_shares.push(newpt);
        k += 1;
    }

    let mut parties: Vec<crate::key_share::PartyAux> = Vec::new();
    let mut j: usize = 0;
    while j < n as usize
        invariant
            j <= n,
            r2_wf(st),
            n == st.r1.n,
            parties@.len() == j,
            forall|jj: int| 0 <= jj < j ==> {
                let d = st.decommitments@[jj];
                let a = #[trigger] parties@[jj];
                a.N.val() == d.N.val() && a.s.val() == d.s.val() && a.t.val() == d.t.val()
                    && a.Y.dlog() == d.Y.dlog() && a.Y.wf()
            },
        decreases n - j,
    {
        let d = &st.decommitments[j];
        parties.push(crate::key_share::PartyAux {
            N: d.N.clone(),
            s: d.s.clone(),
            t: d.t.clone(),
            Y: d.Y.clone(),
        });
        j += 1;
    }

    let new_core = crate::key_share::IncompleteKeyShare {
        i,
        shared_public_key: old_share.shared_public_key.clone(),
        rid: crate::hashing::clone_bytes(&old_share.rid),
        public_shares: new_shares,
        x: x_star,
    };
    let key_share = crate::key_share::KeyShare {
        core: new_core,
        p: st.r1.p.clone(),
        q: st.r1.q.clone(),
        y: st.r1.y.clone(),
        parties,
    };
    proof {
        assert(crate::key_share::share_types_wf(key_share));
        // The two sum laws discharge every consistency conjunct that does
        // not turn on the Ring-Pedersen units.
        let ghost decoms = st.decommitments@;
        let ghost q_mod = group_order();
        let ghost old_dlogs = point_dlogs(old_share.public_shares@);
        let ghost new_dlogs = point_dlogs(key_share.core.public_shares@);
        assert forall|k: int| 0 <= k < new_dlogs.len() implies #[trigger] new_dlogs[k] == (
            old_dlogs[k] + sum_mod(xs_column(decoms, k), q_mod)) % q_mod by {
            assert(key_share.core.public_shares@[k].dlog() == (old_share.public_shares@[k].dlog()
                + sum_mod(xs_column(decoms, k), q_mod)) % q_mod);
        }
        assert forall|jj: int| 0 <= jj < decoms.len() implies xs_sum_ok(#[trigger] decoms[jj])
            && decoms[jj].x@.len() == old_dlogs.len() by {}
        lemma_group_key_preserved(
            decoms,
            old_dlogs,
            new_dlogs,
            old_share.shared_public_key.dlog(),
        );
        lemma_new_share_consistent(
            st,
            shares_msgs@,
            old_share.x.val(),
            old_share.public_shares@[st.r1.i as int].dlog(),
            key_share.core.x.val(),
            key_share.core.public_shares@[st.r1.i as int].dlog(),
        );
        // Validation therefore turns exactly on the units condition.
        assert(crate::key_share::share_consistent(key_share) <==> aux_units_ok(decoms)) by {
            if aux_units_ok(decoms) {
                assert forall|k: int| 0 <= k < key_share.parties@.len()
                    implies gcd_nat(
                        (#[trigger] key_share.parties@[k]).s.val(),
                        key_share.parties@[k].N.val(),
                    ) == 1 && gcd_nat(
                        key_share.parties@[k].t.val(),
                        key_share.parties@[k].N.val(),
                    ) == 1 by {
                    assert(key_share.parties@[k].N.val() == decoms[k].N.val());
                    assert(gcd_nat(decoms[k].s.val(), decoms[k].N.val()) == 1);
                }
                assert(crate::key_share::incomplete_share_consistent(key_share.core));
                assert(crate::key_share::share_consistent(key_share));
            } else {
                let j0 = choose|jj: int|
                    0 <= jj < decoms.len() && !(gcd_nat(
                        (#[trigger] decoms[jj]).s.val(),
                        decoms[jj].N.val(),
                    ) == 1 && gcd_nat(decoms[jj].t.val(), decoms[jj].N.val()) == 1);
                assert(key_share.parties@[j0].N.val() == decoms[j0].N.val());
                assert(!crate::key_share::share_consistent(key_share));
            }
        }
    }
    match key_share.validate() {
        Ok(()) => {
            proof {
                assert(aux_units_ok(st.decommitments@));
                assert(decrypts_ok(st, shares_msgs@));
                assert(round3_checks_ok(st, shares_msgs@, mod_ok@, fac_ok@));
            }
            Ok(key_share)
        }
        Err(_) => {
            proof {
                assert(!aux_units_ok(st.decommitments@));
            }
            Err(KeyRefreshError::InternalError(Bug::InvalidShareGenerated))
        }
    }
}


/// The domain tag mixed into the session identifier, the ASCII bytes of
/// the word naming the protocol family.
pub open spec fn keygen_tag() -> Seq<u8> {
    seq![75u8, 101u8, 121u8, 103u8, 101u8, 110u8]
}

/// The session identifier: the digest of the caller's execution identifier
/// and the protocol tag. Two sessions with distinct execution identifiers
/// salt their hashes differently, so messages cannot be replayed across
/// sessions.
pub open spec fn session_id_of(execution_id: Seq<u8>) -> Seq<u8> {
    sha256_of(execution_id + keygen_tag())
}

/// Derive the session identifier from an execution identifier.
pub fn derive_session_id(execution_id: &Vec<u8>) -> (r: Vec<u8>)
    ensures
        r@ == session_id_of(execution_id@),
        r@.len() == 32,
{
    let mut tag: Vec<u8> = Vec::new();
    tag.push(75u8);
    tag.push(101u8);
    tag.push(121u8);
    tag.push(103u8);
    tag.push(101u8);
    tag.push(110u8);
    proof {
        assert(tag@ =~= keygen_tag());
    }
    let joined = concat_bytes(execution_id, &tag);
    sha256(&joined)
}

/// Builder of a key refresh run: collects the session parameters, then
/// starts the protocol by computing round one. The caller drives the
/// rounds from there, passing each received batch to the processing
/// functions.
pub struct KeyRefreshBuilder {
    /// Index of the local party.
    pub i: u16,
    /// Number of parties.
    pub n: u16,
    /// The caller's execution identifier.
    pub execution_id: Vec<u8>,
    /// Security parameter in bits; a multiple of eight.
    pub security_bits: usize,
    /// Number of challenge bits of the Ring-Pedersen proof.
    pub prm_reps: usize,
    /// Safe primes supplied ahead of time, if any.
    pub pregenerated: Option<PregeneratedPrimes>,
}

impl KeyRefreshBuilder {
    /// Build an auxiliary-info generation run for the party holding the
    /// given core share.
    pub fn new(core_share: &crate::key_share::IncompleteKeyShare) -> (r: Self)
        requires
            core_share.public_shares@.len() <= 65535,
        ensures
            r.i == core_share.i,
            r.n == core_share.public_shares@.len(),
            r.execution_id@.len() == 0,
            r.security_bits == 256,
            r.prm_reps == 64,
            r.pregenerated is None,
    {
        KeyRefreshBuilder {
            i: core_share.i,
            n: core_share.public_shares.len() as u16,
            execution_id: Vec::new(),
            security_bits: 256,
            prm_reps: 64,
            pregenerated: None,
        }
    }

    /// Build a key refresh run for the party holding the given full share.
    pub fn new_refresh(key_share: &crate::key_share::KeyShare) -> (r: Self)
        requires
            key_share.core.public_shares@.len() <= 65535,
        ensures
            r.i == key_share.core.i,
            r.n == key_share.core.public_shares@.len(),
            r.execution_id@.len() == 0,
            r.security_bits == 256,
            r.prm_reps == 64,
            r.pregenerated is None,
    {
        KeyRefreshBuilder::new(&key_share.core)
    }

    /// Set the execution identifier that this session is bound to.
    pub fn set_execution_id(self, execution_id: Vec<u8>) -> (r: Self)
        ensures
            r.execution_id == execution_id,
            r.i == self.i,
            r.n == self.n,
            r.security_bits == self.security_bits,
            r.prm_reps == self.prm_reps,
            r.pregenerated == self.pregenerated,
    {
        KeyRefreshBuilder { execution_id, ..self }
    }

    /// Set the security level: the bit size parameter and the number of
    /// challenge bits of the Ring-Pedersen proof.
    pub fn set_security_level(self, security_bits: usize, prm_reps: usize) -> (r: Self)
        ensures
            r.security_bits == security_bits,
            r.prm_reps == prm_reps,
            r.i == self.i,
            r.n == self.n,
            r.execution_id == self.execution_id,
            r.pregenerated == self.pregenerated,
    {
        KeyRefreshBuilder { security_bits, prm_reps, ..self }
    }

    /// Set safe primes generated ahead of time; without them `start`
    /// generates a pair inline, which takes a lot of time.
    pub fn set_pregenerated_data(self, pregenerated: PregeneratedPrimes) -> (r: Self)
        ensures
            r.pregenerated matches Some(pg) && pg.p == pregenerated.p && pg.q == pregenerated.q,
            r.i == self.i,
            r.n == self.n,
            r.execution_id == self.execution_id,
            r.security_bits == self.security_bits,
            r.prm_reps == self.prm_reps,
    {
        KeyRefreshBuilder { pregenerated: Some(pregenerated), ..self }
    }

    /// Start the refresh: compute round one and the commitment to
    /// broadcast. The caller then collects the peers' commitments and
    /// continues with `round2_msg` and `process_round2`.
    pub fn start(self) -> (r: Result<(R1State, MsgRound1), Bug>)
        requires
            2 <= self.n,
            self.i < self.n,
            self.security_bits % 8 == 0,
            8 <= self.security_bits <= 512,
            1 <= self.prm_reps <= 256,
            self.pregenerated matches Some(pg) ==> pg.p.val() >= 2 && pg.q.val() >= 2,
            self.pregenerated is None ==> 32 <= self.security_bits,
        ensures
            r matches Ok(out) ==> r1_wf(out.0) && out.0.i == self.i && out.0.n == self.n
                && out.1.commitment@ == out.0.commitment@
                && out.0.sid@ == session_id_of(self.execution_id@),
            r matches Err(b) ==> b == Bug::PaillierKeyError,
    {
        let sid = derive_session_id(&self.execution_id);
        let primes = match self.pregenerated {
            Some(pg) => pg,
            None => {
                let pg = PregeneratedPrimes::generate(self.security_bits);
                proof {
                    let b = (4 * self.security_bits - 1) as nat;
                    vstd::arithmetic::power2::lemma2_to64();
                    if b > 1 {
                        vstd::arithmetic::power2::lemma_pow2_strictly_increases(1nat, b);
                    }
                    assert(pg.p.val() >= 2);
                    assert(pg.q.val() >= 2);
                }
                pg
            }
        };
        round1_commit(self.i, self.n, sid, self.security_bits, self.prm_reps, primes)
    }
}


/// The refreshed secret share matches the refreshed public share of the
/// local party: when every decrypted contribution equals the scalar its
/// author announced for the local party — which finalization checks — the
/// new secret share, the old one plus all contributions, is exactly the
/// discrete logarithm of the new local public share.
pub proof fn lemma_new_share_consistent(
    st: R2State,
    msgs: Seq<MsgRound3>,
    old_x: nat,
    old_pub_i: nat,
    new_x: nat,
    new_pub_i: nat,
)
    requires
        r2_wf(st),
        msgs.len() == st.r1.n,
        forall|j: int| 0 <= j < st.r1.n && j != st.r1.i ==> xshare_ok(st, #[trigger] msgs[j], j),
        old_pub_i == old_x,
        new_x == (old_x + sum_mod(finalize_share_vals(st, msgs), group_order())) % group_order(),
        new_pub_i == (old_pub_i + sum_mod(
            xs_column(st.decommitments@, st.r1.i as int),
            group_order(),
        )) % group_order(),
    ensures
        new_x == new_pub_i,
{
    let own = st.r1.i as int;
    let svals = finalize_share_vals(st, msgs);
    let col = xs_column(st.decommitments@, own);
    assert(svals =~= col) by {
        assert forall|j: int| 0 <= j < st.r1.n implies #[trigger] svals[j] == col[j] by {
            if j == own {
                assert(st.decommitments@[own].x@ == st.r1.Xs@);
                assert(st.r1.Xs@[own].dlog() == st.r1.xs@[own].val());
            } else {
                assert(xshare_ok(st, msgs[j], j));
            }
        }
    }
}

/// Sum of a family of zeros is zero.
proof fn lemma_sum_mod_zeros(width: nat, q: nat)
    requires
        q >= 1,
    ensures
        sum_mod(Seq::new(width, |k: int| 0nat), q) == 0,
    decreases width,
{
    let zeros = Seq::new(width, |k: int| 0nat);
    if width == 0 {
    } else {
        lemma_sum_mod_zeros((width - 1) as nat, q);
        assert(zeros.drop_last() =~= Seq::new((width - 1) as nat, |k: int| 0nat));
        assert(zeros.last() == 0);
        assert(sum_mod(zeros, q) == (sum_mod(zeros.drop_last(), q) + 0) % q);
        assert((0nat + 0nat) % q == 0) by (nonlinear_arith)
            requires
                q >= 1,
        ;
    }
}

/// Summing pointwise modular sums is the same as summing both families
/// and reducing once.
proof fn lemma_sum_mod_pointwise_add(a: Seq<nat>, b: Seq<nat>, q: nat)
    requires
        q >= 1,
        a.len() == b.len(),
    ensures
        sum_mod(Seq::new(a.len(), |k: int| (a[k] + b[k]) % q), q)
            == (sum_mod(a, q) + sum_mod(b, q)) % q,
    decreases a.len(),
{
    let c = Seq::new(a.len(), |k: int| (a[k] + b[k]) % q);
    if a.len() == 0 {
        assert(sum_mod(c, q) == 0);
        assert((0nat + 0nat) % q == 0) by (nonlinear_arith)
            requires
                q >= 1,
        ;
    } else {
        let a0 = a.drop_last();
        let b0 = b.drop_last();
        lemma_sum_mod_pointwise_add(a0, b0, q);
        assert(c.drop_last() =~= Seq::new(a0.len(), |k: int| (a0[k] + b0[k]) % q));
        let sa = sum_mod(a0, q) as int;
        let sb = sum_mod(b0, q) as int;
        let la = a.last() as int;
        let lb = b.last() as int;
        let qi = q as int;
        assert(sum_mod(c, q) == (((sa + sb) % qi) + ((la + lb) % qi)) % qi);
        assert((((sa + sb) % qi) + ((la + lb) % qi)) % qi == (sa + sb + la + lb) % qi) by {
            vstd::arithmetic::div_mod::lemma_add_mod_noop(sa + sb, la + lb, qi);
        }
        assert((sum_mod(a, q) + sum_mod(b, q)) % q == (((sa + la) % qi) + ((sb + lb) % qi)) % qi);
        assert((((sa + la) % qi) + ((sb + lb) % qi)) % qi == (sa + la + sb + lb) % qi) by {
            vstd::arithmetic::div_mod::lemma_add_mod_noop(sa + la, sb + lb, qi);
        }
    }
}

/// Column `k` of an abstract matrix of contributions.
pub open spec fn matrix_column(m: Seq<Seq<nat>>, k: int) -> Seq<nat> {
    Seq::new(m.len(), |j: int| m[j][k])
}

/// If every row of a matrix sums to zero modulo `q`, so does the family
/// of its column sums.
proof fn lemma_zero_rows_zero_columns(m: Seq<Seq<nat>>, width: nat, q: nat)
    requires
        q >= 1,
        forall|j: int| 0 <= j < m.len() ==> (#[trigger] m[j]).len() == width,
        forall|j: int| 0 <= j < m.len() ==> sum_mod(#[trigger] m[j], q) == 0,
    ensures
        sum_mod(Seq::new(width, |k: int| sum_mod(matrix_column(m, k), q)), q) == 0,
    decreases m.len(),
{
    let colsums = Seq::new(width, |k: int| sum_mod(matrix_column(m, k), q));
    if m.len() == 0 {
        assert forall|k: int| 0 <= k < width implies #[trigger] colsums[k] == 0 by {
            assert(matrix_column(m, k) =~= Seq::<nat>::empty());
        }
        assert(colsums =~= Seq::new(width, |k: int| 0nat));
        lemma_sum_mod_zeros(width, q);
    } else {
        let m0 = m.drop_last();
        let last = m.last();
        lemma_zero_rows_zero_columns(m0, width, q);
        let colsums0 = Seq::new(width, |k: int| sum_mod(matrix_column(m0, k), q));
        assert forall|k: int| 0 <= k < width
            implies #[trigger] colsums[k] == (colsums0[k] + last[k]) % q by {
            assert(matrix_column(m, k).drop_last() =~= matrix_column(m0, k));
            assert(matrix_column(m, k).last() == last[k]);
        }
        assert(colsums =~= Seq::new(width, |k: int| (colsums0[k] + last[k]) % q));
        lemma_sum_mod_pointwise_add(colsums0, last, q);
        assert(last =~= Seq::new(width, |k: int| last[k]));
        assert(sum_mod(Seq::new(width, |k: int| (colsums0[k] + last[k]) % q), q)
            == (sum_mod(colsums0, q) + sum_mod(last, q)) % q) by {
            assert(Seq::new(width, |k: int| (colsums0[k] + last[k]) % q)
                =~= Seq::new(colsums0.len(), |k: int| (colsums0[k] + last[k]) % q));
        }
        assert((0nat + 0nat) % q == 0) by (nonlinear_arith)
            requires
                q >= 1,
        ;
    }
}

/// The group key is preserved: when every party's announced contributions
/// sum to the identity — which round-two processing checks — the
/// refreshed public shares, each the old share plus the matching column
/// of contributions, still sum to the shared public key. The refresh is
/// additive, so this holds however the contributions arrived.
pub proof fn lemma_group_key_preserved(
    decoms: Seq<MsgRound2>,
    old_shares: Seq<nat>,
    new_shares: Seq<nat>,
    group_key: nat,
)
    requires
        new_shares.len() == old_shares.len(),
        forall|j: int| 0 <= j < decoms.len()
            ==> xs_sum_ok(#[trigger] decoms[j]) && decoms[j].x@.len() == old_shares.len(),
        forall|k: int| 0 <= k < new_shares.len() ==> #[trigger] new_shares[k] == (old_shares[k]
            + sum_mod(xs_column(decoms, k), group_order())) % group_order(),
        sum_mod(old_shares, group_order()) == group_key,
        group_key < group_order(),
    ensures
        sum_mod(new_shares, group_order()) == group_key,
{
    let q = group_order();
    let width = old_shares.len();
    let m = Seq::new(decoms.len(), |j: int| point_dlogs(decoms[j].x@));
    assert forall|j: int| 0 <= j < m.len() implies (#[trigger] m[j]).len() == width
        && sum_mod(m[j], q) == 0 by {
        assert(xs_sum_ok(decoms[j]));
    }
    lemma_zero_rows_zero_columns(m, width, q);
    let colsums = Seq::new(width, |k: int| sum_mod(matrix_column(m, k), q));
    assert forall|k: int| 0 <= k < width
        implies #[trigger] matrix_column(m, k) =~= xs_column(decoms, k) by {
        assert forall|j: int| 0 <= j < m.len()
            implies #[trigger] matrix_column(m, k)[j] == xs_column(decoms, k)[j] by {
            assert(m[j] == point_dlogs(decoms[j].x@));
        }
    }
    assert(new_shares =~= Seq::new(width, |k: int| (old_shares[k] + colsums[k]) % q));
    assert(old_shares =~= Seq::new(width, |k: int| old_shares[k]));
    lemma_sum_mod_pointwise_add(old_shares, colsums, q);
    assert(sum_mod(Seq::new(width, |k: int| (old_shares[k] + colsums[k]) % q), q)
        == (sum_mod(old_shares, q) + sum_mod(colsums, q)) % q) by {
        assert(Seq::new(width, |k: int| (old_shares[k] + colsums[k]) % q)
            =~= Seq::new(old_shares.len(), |k: int| (old_shares[k] + colsums[k]) % q));
    }
    assert((group_key + 0) % q == group_key) by {
        vstd::arithmetic::div_mod::lemma_small_mod(group_key, q);
    }
}

} // verus!
