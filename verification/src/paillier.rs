//! Paillier encryption, used to carry each additive contribution to a peer
//! confidentially. Encryption and decryption are carried out by the
//! `libpaillier` crate; the wrappers model a key by its modulus, or by the
//! two primes it was built from, and a ciphertext by its value.
use vstd::prelude::*;

use libpaillier::{DecryptionKey, EncryptionKey};

verus! {

use crate::bigint::{bn_bytes, gcd_nat, Bigint, RawBn};

/// The Paillier ciphertext value produced from modulus `n`, plaintext `m`
/// and nonce `nonce`.
pub uninterp spec fn paillier_enc(n: nat, m: nat, nonce: nat) -> nat;

/// The plaintext bytes recovered by the key with primes `p`, `q` from the
/// ciphertext value `c`.
pub uninterp spec fn paillier_dec(p: nat, q: nat, c: nat) -> Seq<u8>;

/// Whether the key with primes `p`, `q` decrypts the ciphertext value `c`
/// at all; like the plaintext, a function of key and ciphertext alone.
pub uninterp spec fn paillier_dec_some(p: nat, q: nat, c: nat) -> bool;

/// Whether a decryption key can be built from the primes `p`, `q`; a
/// function of the two values alone.
pub uninterp spec fn paillier_key_some(p: nat, q: nat) -> bool;

/// Primality, as the contracts here use it.
pub open spec fn is_prime_nat(v: nat) -> bool {
    v >= 2 && forall|d: nat| 2 <= d < v ==> #[trigger] (v % d) != 0
}

/// Holds the raw encryption key; opaque to the verifier.
#[verifier::external_body]
pub struct RawEncKey(EncryptionKey);

/// Holds the raw decryption key; opaque to the verifier.
#[verifier::external_body]
pub struct RawDecKey(DecryptionKey);

/// An unconstrained model value for a freshly wrapped key; the wrapper's
/// contract, not this placeholder, says what is known of it.
fn fresh_model() -> Ghost<nat> {
    Ghost(0)
}

/// A Paillier encryption key, modeled by its modulus.
pub struct PaillierEncKey {
    pub(crate) inner: RawEncKey,
    pub(crate) n: Ghost<nat>,
}

impl PaillierEncKey {
    /// The modulus `N` of the key; sealed like every model here.
    pub closed spec fn n(&self) -> nat {
        self.n@
    }
}

/// A Paillier decryption key, modeled by the primes it was built from.
pub struct PaillierDecKey {
    pub(crate) inner: RawDecKey,
    pub(crate) p: Ghost<nat>,
    pub(crate) q: Ghost<nat>,
}

impl PaillierDecKey {
    /// The first prime the key was built from; sealed.
    pub closed spec fn p(&self) -> nat {
        self.p@
    }

    /// The second prime the key was built from; sealed.
    pub closed spec fn q(&self) -> nat {
        self.q@
    }
}

impl PaillierEncKey {
    /// Relies on `EncryptionKey::from_n` of `libpaillier`: the key with the
    /// given modulus.
    #[verifier::external_body]
    pub fn from_modulus(n: &Bigint) -> (r: PaillierEncKey)
        requires
            n.val() >= 1,
        ensures
            r.n() == n.val(),
    {
        PaillierEncKey { inner: RawEncKey(EncryptionKey::from_n(n.inner.0.clone())), n: fresh_model() }
    }

    /// Relies on `EncryptionKey::encrypt` of `libpaillier` with an explicit
    /// nonce: succeeds exactly when plaintext and nonce lie in `[1, N)`, and
    /// the ciphertext is a function of modulus, plaintext and nonce.
    #[verifier::external_body]
    pub fn encrypt(&self, m: &Bigint, nonce: &Bigint) -> (r: Option<Bigint>)
        ensures
            r is Some <==> (1 <= m.val() < self.n() && 1 <= nonce.val() < self.n()),
            r is Some ==> r.unwrap().val() == paillier_enc(self.n(), m.val(), nonce.val()),
    {
        let bytes = m.inner.0.to_bytes();
        match self.inner.0.encrypt(&bytes, Some(nonce.inner.0.clone())) {
            Some((c, _)) => Some(Bigint { inner: RawBn(c), val: fresh_model() }),
            None => None,
        }
    }
}

impl PaillierDecKey {
    /// Relies on `DecryptionKey::with_primes_unchecked` of `libpaillier`:
    /// builds the key for modulus `p * q`; whether it succeeds depends on
    /// the two values alone (it fails, among others, when they are equal).
    #[verifier::external_body]
    pub fn from_primes(p: &Bigint, q: &Bigint) -> (r: Option<PaillierDecKey>)
        requires
            p.val() >= 2,
            q.val() >= 2,
        ensures
            r is Some <==> paillier_key_some(p.val(), q.val()),
            r is Some ==> r.unwrap().p() == p.val() && r.unwrap().q() == q.val(),
    {
        match DecryptionKey::with_primes_unchecked(&p.inner.0, &q.inner.0) {
            Some(k) => Some(PaillierDecKey { inner: RawDecKey(k), p: fresh_model(), q: fresh_model() }),
            None => None,
        }
    }

    /// Relies on `DecryptionKey::decrypt` of `libpaillier`: whether it
    /// succeeds, and which plaintext bytes it returns, are functions of the
    /// key and the ciphertext; and when the
    /// ciphertext was produced under this key's modulus from a plaintext in
    /// `[1, N)` and a nonce coprime with `N`, with `p` and `q` distinct
    /// primes, decryption returns exactly that plaintext's bytes.
    #[verifier::external_body]
    pub fn decrypt(&self, c: &Bigint) -> (r: Option<Vec<u8>>)
        ensures
            r is Some <==> paillier_dec_some(self.p(), self.q(), c.val()),
            r is Some ==> r.unwrap()@ == paillier_dec(self.p(), self.q(), c.val()),
            forall|m: nat, nonce: nat|
                is_prime_nat(self.p()) && is_prime_nat(self.q()) && self.p() != self.q()
                    && 1 <= m < self.p() * self.q() && 1 <= nonce < self.p() * self.q()
                    && gcd_nat(nonce, self.p() * self.q()) == 1
                    && c.val() == #[trigger] paillier_enc(self.p() * self.q(), m, nonce)
                    ==> (r is Some && r.unwrap()@ == bn_bytes(m)),
    {
        self.inner.0.decrypt(&c.inner.0)
    }
}

} // verus!
