//! Unbounded natural numbers used for the Paillier modulus and the
//! Ring-Pedersen parameters, modeled by their value.
//!
//! The arithmetic itself is carried out by the `unknown_order` crate (through
//! `libpaillier`); every wrapper below only restates, over the ghost value,
//! what that crate's documentation and source say of the operation. All
//! values handled by the protocol are non-negative.
use vstd::prelude::*;

use libpaillier::unknown_order::BigNumber;

verus! {

use vstd::arithmetic::power::pow;
use vstd::arithmetic::power2::pow2;

/// Greatest common divisor, by Euclid.
pub open spec fn gcd_nat(a: nat, b: nat) -> nat
    decreases b,
{
    if b == 0 {
        a
    } else {
        gcd_nat(b, a % b)
    }
}

/// The minimal big-endian encoding of a natural: most significant byte
/// first, empty for zero, never a leading zero byte.
pub open spec fn be_min(v: nat) -> Seq<u8>
    decreases v,
{
    if v == 0 {
        Seq::empty()
    } else {
        be_min(v / 256).push((v % 256) as u8)
    }
}

/// The big-endian encoding of the natural `v`, as `BigNumber::to_bytes`
/// produces it: the single zero byte for zero, otherwise the minimal
/// encoding.
pub open spec fn bn_bytes(v: nat) -> Seq<u8> {
    if v == 0 {
        seq![0u8]
    } else {
        be_min(v)
    }
}

/// Holds the raw number of the bignum library; opaque to the verifier.
#[verifier::external_body]
pub struct RawBn(pub(crate) BigNumber);

impl RawBn {
    /// Relies on `Clone for BigNumber`: copying keeps the value.
    #[verifier::external_body]
    fn dup(&self) -> (r: RawBn)
        ensures
            r == *self,
    {
        RawBn(self.0.clone())
    }
}

/// An unconstrained model value for a freshly wrapped number; the wrapper's
/// contract, not this placeholder, says what is known of it.
fn fresh_model() -> Ghost<nat> {
    Ghost(0)
}

/// An unbounded natural number, modeled by its value.
pub struct Bigint {
    pub(crate) inner: RawBn,
    pub(crate) val: Ghost<nat>,
}

impl Bigint {
    /// The value of the number: the model that every contract speaks of.
    /// The representation stays sealed, so a value of this type can only
    /// come from the operations here and always means its model.
    pub closed spec fn val(&self) -> nat {
        self.val@
    }
}

impl Clone for Bigint {
    fn clone(&self) -> (r: Self)
        ensures
            r == *self,
    {
        Bigint { inner: self.inner.dup(), val: self.val }
    }
}

impl Bigint {
    /// Relies on `From<u64> for BigNumber`: the same value, made unbounded.
    #[verifier::external_body]
    pub fn from_u64(x: u64) -> (r: Bigint)
        ensures
            r.val() == x,
    {
        Bigint { inner: RawBn(BigNumber::from(x)), val: fresh_model() }
    }

    /// Relies on `BigNumber::from_slice`: reads the bytes as an unsigned
    /// big-endian integer.
    #[verifier::external_body]
    pub fn from_be_slice(bytes: &Vec<u8>) -> (r: Bigint)
        ensures
            r.val() == crate::bytes_util::be_nat(bytes@),
    {
        Bigint { inner: RawBn(BigNumber::from_slice(bytes.as_slice())), val: fresh_model() }
    }

    /// Relies on `BigNumber::to_bytes`: the big-endian encoding of the
    /// value, minimal except that zero encodes as one zero byte.
    #[verifier::external_body]
    pub fn to_bytes(&self) -> (r: Vec<u8>)
        ensures
            r@ == bn_bytes(self.val()),
    {
        self.inner.0.to_bytes()
    }

    /// Relies on `Mul for BigNumber`: exact product of naturals.
    #[verifier::external_body]
    pub fn mul(&self, other: &Bigint) -> (r: Bigint)
        ensures
            r.val() == self.val() * other.val(),
    {
        Bigint { inner: RawBn(&self.inner.0 * &other.inner.0), val: fresh_model() }
    }

    /// Relies on `Add for BigNumber`: exact sum of naturals.
    #[verifier::external_body]
    pub fn add(&self, other: &Bigint) -> (r: Bigint)
        ensures
            r.val() == self.val() + other.val(),
    {
        Bigint { inner: RawBn(&self.inner.0 + &other.inner.0), val: fresh_model() }
    }

    /// Relies on `BigNumber::nmod`: the least non-negative residue modulo `n`.
    #[verifier::external_body]
    pub fn nmod(&self, n: &Bigint) -> (r: Bigint)
        requires
            n.val() >= 1,
        ensures
            r.val() == self.val() % n.val(),
    {
        Bigint { inner: RawBn(self.inner.0.nmod(&n.inner.0)), val: fresh_model() }
    }

    /// Relies on `Sub for BigNumber`: exact difference, here never below zero.
    #[verifier::external_body]
    pub fn sub(&self, other: &Bigint) -> (r: Bigint)
        requires
            other.val() <= self.val(),
        ensures
            r.val() == self.val() - other.val(),
    {
        Bigint { inner: RawBn(&self.inner.0 - &other.inner.0), val: fresh_model() }
    }

    /// Relies on `BigNumber::modmul`: `(self * other) mod n`, in `[0, n)`.
    #[verifier::external_body]
    pub fn modmul(&self, other: &Bigint, n: &Bigint) -> (r: Bigint)
        requires
            n.val() >= 1,
        ensures
            r.val() == (self.val() * other.val()) % n.val(),
    {
        Bigint { inner: RawBn(self.inner.0.modmul(&other.inner.0, &n.inner.0)), val: fresh_model() }
    }

    /// Relies on `BigNumber::modpow` with non-negative base and exponent:
    /// `(self ^ exponent) mod n`, in `[0, n)`.
    #[verifier::external_body]
    pub fn modpow(&self, exponent: &Bigint, n: &Bigint) -> (r: Bigint)
        requires
            n.val() >= 1,
        ensures
            r.val() == pow(self.val() as int, exponent.val()) % (n.val() as int),
    {
        Bigint { inner: RawBn(self.inner.0.modpow(&exponent.inner.0, &n.inner.0)), val: fresh_model() }
    }

    /// Relies on `BigNumber::gcd` of non-negative values.
    #[verifier::external_body]
    pub fn gcd(&self, other: &Bigint) -> (r: Bigint)
        ensures
            r.val() == gcd_nat(self.val(), other.val()),
    {
        Bigint { inner: RawBn(self.inner.0.gcd(&other.inner.0)), val: fresh_model() }
    }

    /// Relies on `BigNumber::bit_length`: the position of the highest set
    /// bit; zero for the value zero.
    #[verifier::external_body]
    pub fn bit_length(&self) -> (r: usize)
        ensures
            self.val() == 0 ==> r == 0,
            self.val() > 0 ==> 1 <= r && pow2((r - 1) as nat) <= self.val() && self.val() < pow2(r as nat),
    {
        self.inner.0.bit_length()
    }

    /// Relies on `PartialEq for BigNumber`: numbers are equal exactly when
    /// their values are.
    #[verifier::external_body]
    pub fn eq_bigint(&self, other: &Bigint) -> (r: bool)
        ensures
            r == (self.val() == other.val()),
    {
        self.inner.0 == other.inner.0
    }

    /// Relies on `BigNumber::from_rng`: a value sampled uniformly below `n`.
    #[verifier::external_body]
    pub fn random_below(n: &Bigint) -> (r: Bigint)
        requires
            n.val() >= 1,
        ensures
            r.val() < n.val(),
    {
        let mut rng = rand_core::OsRng;
        Bigint { inner: RawBn(BigNumber::from_rng(&n.inner.0, &mut rng)), val: fresh_model() }
    }

    /// Relies on `BigNumber::safe_prime_from_rng` (`glass_pumpkin`): an odd
    /// number of exactly `bits` bits; it panics below 128 bits, which the
    /// precondition rules out.
    #[verifier::external_body]
    pub fn safe_prime(bits: usize) -> (r: Bigint)
        requires
            128 <= bits <= 8192,
        ensures
            r.val() % 2 == 1,
            pow2((bits - 1) as nat) <= r.val() && r.val() < pow2(bits as nat),
    {
        let mut rng = rand_core::OsRng;
        Bigint { inner: RawBn(BigNumber::safe_prime_from_rng(bits, &mut rng)), val: fresh_model() }
    }

    /// Sample a unit modulo `n`: a value in `[1, n)` coprime with `n`.
    /// Candidates come from the trusted sampler; the test that decides
    /// acceptance is verified. Gives up after a fixed number of draws, which
    /// for any modulus with a unit is overwhelmingly unlikely.
    pub fn random_unit_below(n: &Bigint) -> (r: Option<Bigint>)
        requires
            n.val() >= 2,
        ensures
            match r {
                Some(u) => 1 <= u.val() < n.val() && gcd_nat(u.val(), n.val()) == 1,
                None => true,
            },
    {
        let one = Bigint::from_u64(1);
        let mut tries: usize = 0;
        while tries < 128
            invariant
                n.val() >= 2,
                one.val() == 1,
            decreases 128 - tries,
        {
            let candidate = Bigint::random_below(n);
            let g = candidate.gcd(n);
            if g.eq_bigint(&one) {
                proof {
                    if candidate.val() == 0 {
                        assert(0nat % n.val() == 0);
                        assert(gcd_nat(0, n.val()) == gcd_nat(n.val(), 0));
                        assert(gcd_nat(n.val(), 0) == n.val());
                        assert(false);
                    }
                }
                return Some(candidate);
            }
            tries += 1;
        }
        None
    }
}

/// Element-wise copy of a vector of numbers; the models carry over.
pub fn clone_bigint_vec(v: &Vec<Bigint>) -> (r: Vec<Bigint>)
    ensures
        r@ == v@,
{
    let mut r: Vec<Bigint> = Vec::new();
    let mut k: usize = 0;
    while k < v.len()
        invariant
            k <= v@.len(),
            r@ == v@.take(k as int),
        decreases v@.len() - k,
    {
        r.push(v[k].clone());
        proof {
            assert(v@.take(k + 1) =~= v@.take(k as int).push(v@[k as int]));
        }
        k += 1;
    }
    proof {
        assert(v@.take(v@.len() as int) =~= v@);
    }
    r
}

} // verus!
