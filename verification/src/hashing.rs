//! The 256-bit digest, the randomness source, and the hash commitment
//! scheme built on them.
//!
//! A round-one commitment is the digest of the canonical frame of the data
//! being committed, concatenated with a fresh 32-byte nonce; opening reveals
//! frame and nonce, and the verifier recomputes the digest. Committing and
//! verifying share the digest specification, so a correctly opened
//! commitment always verifies.
use vstd::prelude::*;

use sha2::Digest;

verus! {

/// The SHA-256 digest of a byte string.
pub uninterp spec fn sha256_of(data: Seq<u8>) -> Seq<u8>;

/// Relies on `sha2::Sha256`: a 32-byte digest, a function of the input
/// bytes alone.
#[verifier::external_body]
pub fn sha256(data: &Vec<u8>) -> (r: Vec<u8>)
    ensures
        r@ == sha256_of(data@),
        r@.len() == 32,
{
    let mut hasher = sha2::Sha256::new();
    hasher.update(data.as_slice());
    hasher.finalize().to_vec()
}

/// Relies on `rand_core::OsRng::fill_bytes`: `len` bytes from the operating
/// system's randomness source; nothing is known of their values.
#[verifier::external_body]
pub fn random_bytes(len: usize) -> (r: Vec<u8>)
    ensures
        r@.len() == len,
{
    let mut buf = vec![0u8; len];
    rand_core::RngCore::fill_bytes(&mut rand_core::OsRng, &mut buf);
    buf
}

/// Concatenation of two byte strings.
pub fn concat_bytes(a: &Vec<u8>, b: &Vec<u8>) -> (r: Vec<u8>)
    ensures
        r@ == a@ + b@,
{
    let mut r: Vec<u8> = Vec::new();
    let mut k: usize = 0;
    while k < a.len()
        invariant
            k <= a@.len(),
            r@ == a@.take(k as int),
        decreases a@.len() - k,
    {
        r.push(a[k]);
        proof {
            assert(a@.take(k + 1) =~= a@.take(k as int).push(a@[k as int]));
        }
        k += 1;
    }
    proof {
        assert(a@.take(a@.len() as int) =~= a@);
    }
    let mut k: usize = 0;
    while k < b.len()
        invariant
            k <= b@.len(),
            r@ == a@ + b@.take(k as int),
        decreases b@.len() - k,
    {
        r.push(b[k]);
        proof {
            assert(a@ + b@.take(k + 1) =~= (a@ + b@.take(k as int)).push(b@[k as int]));
        }
        k += 1;
    }
    proof {
        assert(a@ + b@.take(b@.len() as int) =~= a@ + b@);
    }
    r
}

/// Copy of a byte string.
pub fn clone_bytes(v: &Vec<u8>) -> (r: Vec<u8>)
    ensures
        r@ == v@,
{
    let mut r: Vec<u8> = Vec::new();
    let mut k: usize = 0;
    while k < v.len()
        invariant
            k <= v@.len(),
            r@ == v@.take(k as int),
        decreases v@.len() - k,
    {
        r.push(v[k]);
        proof {
            assert(v@.take(k + 1) =~= v@.take(k as int).push(v@[k as int]));
        }
        k += 1;
    }
    proof {
        assert(v@.take(v@.len() as int) =~= v@);
    }
    r
}

/// Equality of two byte strings.
pub fn eq_bytes(a: &Vec<u8>, b: &Vec<u8>) -> (r: bool)
    ensures
        r == (a@ == b@),
{
    if a.len() != b.len() {
        proof {
            assert(a@.len() != b@.len());
        }
        return false;
    }
    let mut k: usize = 0;
    while k < a.len()
        invariant
            k <= a@.len(),
            a@.len() == b@.len(),
            forall|j: int| 0 <= j < k ==> a@[j] == b@[j],
        decreases a@.len() - k,
    {
        if a[k] != b[k] {
            return false;
        }
        k += 1;
    }
    proof {
        assert(a@ =~= b@);
    }
    true
}

/// The commitment to a frame under an opening nonce.
pub open spec fn commit_digest(frame: Seq<u8>, nonce: Seq<u8>) -> Seq<u8> {
    sha256_of(frame + nonce)
}

/// Commit to a frame: sample a fresh 32-byte nonce and digest frame and
/// nonce together. Returns the commitment and the nonce that opens it.
pub fn hash_commit(frame: &Vec<u8>) -> (r: (Vec<u8>, Vec<u8>))
    ensures
        r.0@ == commit_digest(frame@, r.1@),
        r.0@.len() == 32,
        r.1@.len() == 32,
{
    let nonce = random_bytes(32);
    let joined = concat_bytes(frame, &nonce);
    let commitment = sha256(&joined);
    (commitment, nonce)
}

/// Check an opening: the commitment must be the digest of the revealed
/// frame under the revealed nonce.
pub fn verify_commit(frame: &Vec<u8>, commitment: &Vec<u8>, nonce: &Vec<u8>) -> (r: bool)
    ensures
        r == (commitment@ == commit_digest(frame@, nonce@)),
{
    let joined = concat_bytes(frame, nonce);
    let expected = sha256(&joined);
    eq_bytes(commitment, &expected)
}

} // verus!
