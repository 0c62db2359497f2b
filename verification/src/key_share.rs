//! Key shares: the core share that comes out of key generation, and the
//! full share produced by the refresh protocol, together with the
//! consistency checks that every share must pass.
use vstd::prelude::*;

verus! {

use crate::bigint::{gcd_nat, Bigint};
use crate::curve::{group_order, sum_mod, point_dlogs, CurvePoint, CurveScalar};

/// Party public auxiliary data.
#[allow(non_snake_case)]
pub struct PartyAux {
    /// The party's Paillier modulus, the product of its two secret primes.
    pub N: Bigint,
    /// Ring-Pedersen parameter `s`.
    pub s: Bigint,
    /// Ring-Pedersen parameter `t`.
    pub t: Bigint,
    /// El-Gamal public key.
    pub Y: CurvePoint,
}

/// Core key share, output of key generation: lacks the auxiliary data
/// needed for signing, which the refresh protocol supplies.
pub struct IncompleteKeyShare {
    /// Index of the local party.
    pub i: u16,
    /// Public key corresponding to the shared secret key.
    pub shared_public_key: CurvePoint,
    /// Randomness derived at key generation.
    pub rid: Vec<u8>,
    /// Public shares of all parties; entry `k` belongs to party `k`.
    pub public_shares: Vec<CurvePoint>,
    /// This party's additive secret share.
    pub x: CurveScalar,
}

/// Full key share: the core share plus fresh auxiliary data of every party.
pub struct KeyShare {
    /// Core key share.
    pub core: IncompleteKeyShare,
    /// Secret prime `p`.
    pub p: Bigint,
    /// Secret prime `q`.
    pub q: Bigint,
    /// El-Gamal secret key.
    pub y: CurveScalar,
    /// Auxiliary data of all parties; entry `k` belongs to party `k`.
    pub parties: Vec<PartyAux>,
}

/// Which consistency check a share failed.
#[derive(Clone, Copy, Debug, PartialEq, Eq, Structural)]
pub enum ErrorReason {
    /// Number of parties overflows a sixteen-bit index
    PartiesNumberOverflowU16,
    /// Party index out of bounds: `i >= n`
    PartyIndexOutOfBounds,
    /// Party secret share doesn't match its public share
    PartySecretShareDoesntMatchPublicShare,
    /// Public shares don't sum to the shared public key
    SharesDontMatchPublicKey,
    /// Auxiliary data list length doesn't match the number of parties
    AuxWrongLength,
    /// El-Gamal secret key doesn't match the public key in the table
    ElGamalKey,
    /// The local modulus is not the product of the secret primes
    PrimesMul,
    /// A Ring-Pedersen parameter is not coprime with its modulus
    StGcdN,
}

/// Error indicating that a key share is not valid.
#[derive(Clone, Copy, Debug, PartialEq, Eq, Structural)]
pub struct InvalidKeyShare(pub ErrorReason);

/// Every curve value in the share is a well-formed model value.
pub open spec fn incomplete_share_types_wf(share: IncompleteKeyShare) -> bool {
    &&& share.shared_public_key.wf()
    &&& share.x.wf()
    &&& forall|k: int| 0 <= k < share.public_shares@.len() ==> (#[trigger] share.public_shares@[k]).wf()
}

/// The consistency statement of a core share: the local index is in range,
/// the secret share matches the local public share, and the public shares
/// sum to the shared public key.
pub open spec fn incomplete_share_consistent(share: IncompleteKeyShare) -> bool {
    &&& share.public_shares@.len() <= 65535
    &&& (share.i as int) < share.public_shares@.len()
    &&& share.public_shares@[share.i as int].dlog() == share.x.val()
    &&& sum_mod(point_dlogs(share.public_shares@), group_order()) == share.shared_public_key.dlog()
}

/// Every model value in the full share is well formed.
pub open spec fn share_types_wf(share: KeyShare) -> bool {
    &&& incomplete_share_types_wf(share.core)
    &&& share.y.wf()
    &&& forall|k: int| 0 <= k < share.parties@.len() ==> (#[trigger] share.parties@[k]).Y.wf()
}

/// The consistency statement of a full share, on top of the core one:
/// the auxiliary table has one entry per party, the local El-Gamal keys
/// match, the local modulus is the product of the secret primes, and every
/// party's Ring-Pedersen parameters are units modulo its modulus.
pub open spec fn share_consistent(share: KeyShare) -> bool {
    &&& incomplete_share_consistent(share.core)
    &&& share.parties@.len() == share.core.public_shares@.len()
    &&& share.parties@[share.core.i as int].Y.dlog() == share.y.val()
    &&& share.parties@[share.core.i as int].N.val() == share.p.val() * share.q.val()
    &&& forall|k: int| 0 <= k < share.parties@.len()
        ==> gcd_nat((#[trigger] share.parties@[k]).s.val(), share.parties@[k].N.val()) == 1
            && gcd_nat(share.parties@[k].t.val(), share.parties@[k].N.val()) == 1
}

/// The reason a core share fails validation: the first check, in the
/// fixed order, that does not hold. Meaningful only when some check fails.
pub open spec fn core_failure_reason(share: IncompleteKeyShare) -> ErrorReason {
    if share.public_shares@.len() > 65535 {
        ErrorReason::PartiesNumberOverflowU16
    } else if share.public_shares@.len() <= share.i as int {
        ErrorReason::PartyIndexOutOfBounds
    } else if share.public_shares@[share.i as int].dlog() != share.x.val() {
        ErrorReason::PartySecretShareDoesntMatchPublicShare
    } else {
        ErrorReason::SharesDontMatchPublicKey
    }
}

/// The reason a full share fails validation: the first check, in the fixed
/// order core, auxiliary length, El-Gamal key, primes product, units, that
/// does not hold. Meaningful only when some check fails.
pub open spec fn failure_reason(share: KeyShare) -> ErrorReason {
    if !incomplete_share_consistent(share.core) {
        core_failure_reason(share.core)
    } else if share.parties@.len() != share.core.public_shares@.len() {
        ErrorReason::AuxWrongLength
    } else if share.parties@[share.core.i as int].Y.dlog() != share.y.val() {
        ErrorReason::ElGamalKey
    } else if share.parties@[share.core.i as int].N.val() != share.p.val() * share.q.val() {
        ErrorReason::PrimesMul
    } else {
        ErrorReason::StGcdN
    }
}

impl IncompleteKeyShare {
    /// Validates a share: returns `Ok` exactly when the core consistency
    /// statement holds, and otherwise names the first check that failed.
    pub fn validate(&self) -> (r: Result<(), InvalidKeyShare>)
        requires
            incomplete_share_types_wf(*self),
        ensures
            r is Ok <==> incomplete_share_consistent(*self),
            r matches Err(e) ==> e.0 == core_failure_reason(*self),
    {
        if self.public_shares.len() > 65535 {
            return Err(InvalidKeyShare(ErrorReason::PartiesNumberOverflowU16));
        }
        if self.public_shares.len() <= self.i as usize {
            return Err(InvalidKeyShare(ErrorReason::PartyIndexOutOfBounds));
        }
        let expected = CurvePoint::generator_mul(&self.x);
        if !self.public_shares[self.i as usize].eq_point(&expected) {
            return Err(InvalidKeyShare(ErrorReason::PartySecretShareDoesntMatchPublicShare));
        }
        let total = crate::curve::sum_points(&self.public_shares);
        if !total.eq_point(&self.shared_public_key) {
            return Err(InvalidKeyShare(ErrorReason::SharesDontMatchPublicKey));
        }
        Ok(())
    }
}

impl KeyShare {
    /// Validates a share: returns `Ok` exactly when the full consistency
    /// statement holds, and otherwise names the first check that failed.
    /// In particular, on `Ok`, the local modulus is the product of the two
    /// secret primes, both Ring-Pedersen parameters of every party are
    /// coprime with that party's modulus, and the local El-Gamal secret
    /// matches the public key in the table.
    #[verifier::loop_isolation(false)]
    pub fn validate(&self) -> (r: Result<(), InvalidKeyShare>)
        requires
            share_types_wf(*self),
        ensures
            r is Ok <==> share_consistent(*self),
            r matches Err(e) ==> e.0 == failure_reason(*self),
    {
        match self.core.validate() {
            Ok(()) => {}
            Err(e) => {
                return Err(e);
            }
        }
        if self.parties.len() != self.core.public_shares.len() {
            return Err(InvalidKeyShare(ErrorReason::AuxWrongLength));
        }
        let el_gamal_public = &self.parties[self.core.i as usize].Y;
        let expected = CurvePoint::generator_mul(&self.y);
        if !el_gamal_public.eq_point(&expected) {
            return Err(InvalidKeyShare(ErrorReason::ElGamalKey));
        }
        let n_i = &self.parties[self.core.i as usize].N;
        let pq = self.p.mul(&self.q);
        if !n_i.eq_bigint(&pq) {
            return Err(InvalidKeyShare(ErrorReason::PrimesMul));
        }
        let one = Bigint::from_u64(1);
        let mut k: usize = 0;
        while k < self.parties.len()
            invariant
                k <= self.parties@.len(),
                one.val() == 1,
                forall|j: int| 0 <= j < k
                    ==> gcd_nat((#[trigger] self.parties@[j]).s.val(), self.parties@[j].N.val()) == 1
                        && gcd_nat(self.parties@[j].t.val(), self.parties@[j].N.val()) == 1,
            decreases self.parties@.len() - k,
        {
            let aux = &self.parties[k];
            let gs = aux.s.gcd(&aux.N);
            let gt = aux.t.gcd(&aux.N);
            if !gs.eq_bigint(&one) || !gt.eq_bigint(&one) {
                return Err(InvalidKeyShare(ErrorReason::StGcdN));
            }
            k += 1;
        }
        Ok(())
    }
}

} // verus!
