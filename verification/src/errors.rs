//! Error taxonomy of the refresh protocol: identifiable aborts caused by a
//! misbehaving peer, and internal bugs that no peer can trigger.
use vstd::prelude::*;

verus! {

/// Reason for protocol abort: which exact check has failed.
#[derive(Clone, Copy, Debug, PartialEq, Eq, Structural)]
pub enum ProtocolAbortReason {
    /// Decommitment doesn't match commitment
    InvalidDecommitment,
    /// Provided invalid schnorr proof
    InvalidSchnorrProof,
    /// Provided invalid proof for Rmod
    InvalidModProof,
    /// Provided invalid proof for Rfac
    InvalidFacProof,
    /// N, s and t parameters are invalid
    InvalidRingPedersenParameters,
    /// X is malformed
    InvalidX,
    /// x doesn't correspond to X
    InvalidXShare,
    /// Party sent a message with missing data
    InvalidDataSize,
}

/// Reference to the offending party and to the messages that prove its guilt:
/// the commitment and the opening it no longer matches. Messages are referred
/// to by the index of their author, under which the router stored them.
#[derive(Clone, Copy, Debug, PartialEq, Eq, Structural)]
pub struct AbortBlame {
    /// Index of the party blamed
    pub party: u16,
    /// Reference to the message carrying its commitment
    pub commitment_msg: u16,
    /// Reference to the message carrying the opening
    pub opening_msg: u16,
}

impl AbortBlame {
    /// Blame a party, referring to both messages it authored.
    pub fn new(party: u16) -> (r: Self)
        ensures
            r.party == party,
            r.commitment_msg == party,
            r.opening_msg == party,
    {
        AbortBlame { party, commitment_msg: party, opening_msg: party }
    }
}

/// Error indicating that protocol was aborted by a malicious party.
///
/// It can be cryptographically proven, but we do not support it yet.
#[derive(Clone, Debug)]
pub struct ProtocolAborted {
    /// Which check has failed
    pub reason: ProtocolAbortReason,
    /// Non-empty list of culprits, one entry per party that failed the check
    pub parties: Vec<AbortBlame>,
}

impl ProtocolAborted {
    /// Record an abort for the given reason, blaming the given parties.
    pub fn new(reason: ProtocolAbortReason, parties: Vec<AbortBlame>) -> (r: Self)
        ensures
            r.reason == reason,
            r.parties == parties,
    {
        ProtocolAborted { reason, parties }
    }
}

/// Unexpected error in operation not caused by other parties.
#[derive(Clone, Copy, Debug, PartialEq, Eq, Structural)]
pub enum Bug {
    /// Unexpected error when creating paillier decryption key
    PaillierKeyError,
    /// Paillier encryption failed
    PaillierEnc,
    /// Invalid key share generated
    InvalidShareGenerated,
}

/// Error of the key refresh protocol as far as the core decides it; failures
/// of the transport layer stay with the caller that owns the channels.
#[derive(Clone, Debug)]
pub enum KeyRefreshError {
    /// Protocol was maliciously aborted by another party
    Aborted(ProtocolAborted),
    /// Unexpected internal error, not caused by another party
    InternalError(Bug),
    /// Couldn't decrypt a message
    PaillierDec,
}

} // verus!
