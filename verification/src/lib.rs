//! Distributed refresh of threshold ECDSA key shares with fresh auxiliary
//! cryptographic material, after CGGMP21.
//!
//! A quorum that already shares an additive ECDSA key runs three rounds:
//! each party commits to fresh material, opens the commitment, proves
//! knowledge of every secret involved, and hands every peer an encrypted
//! additive contribution. Each party ends with a re-randomized share of
//! the same group key and a table of every party's auxiliary data —
//! Paillier modulus, Ring-Pedersen parameters and El-Gamal key — or with
//! an abort naming every peer that misbehaved.
//!
//! The protocol core is transport-agnostic: the `key_refresh` module turns
//! indexed message batches into the next outgoing messages, the `router`
//! module turns a transport's unordered batch into those indexed tables,
//! and the caller owns delivery and the two proofs it delegates to a
//! collaborating prover.

pub mod bigint;
pub mod bytes_util;
pub mod curve;
pub mod errors;
pub mod hashing;
pub mod key_refresh;
pub mod key_share;
pub mod paillier;
pub mod ring_pedersen;
pub mod router;
pub mod schnorr;
