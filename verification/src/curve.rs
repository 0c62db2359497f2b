//! Elliptic-curve values used by the protocol, together with their
//! mathematical model.
//!
//! The protocol runs over secp256k1, a group of prime order. In such a group
//! every point is a scalar multiple of the generator `G`, so a point is
//! faithfully modeled by its discrete logarithm: a ghost natural below the
//! group order. A scalar is modeled by its value below the group order.
//! Two points are equal exactly when their discrete logarithms are, and the
//! group operations act on discrete logarithms by modular arithmetic; the
//! trusted wrappers below state no more than that. Curve arithmetic itself
//! is carried out by the `generic_ec` crate.
use vstd::prelude::*;

use generic_ec::curves::Secp256k1;
use generic_ec::{Point, Scalar};

verus! {

/// Holds the raw scalar of the curve library; opaque to the verifier.
#[verifier::external_body]
pub struct RawScalar(pub(crate) Scalar<Secp256k1>);

impl RawScalar {
    /// Relies on `Copy for Scalar` of `generic_ec`: copying keeps the value.
    #[verifier::external_body]
    fn dup(&self) -> (r: RawScalar)
        ensures
            r == *self,
    {
        RawScalar(self.0)
    }
}

/// Holds the raw point of the curve library; opaque to the verifier.
#[verifier::external_body]
pub struct RawPoint(pub(crate) Point<Secp256k1>);

impl RawPoint {
    /// Relies on `Copy for Point` of `generic_ec`: copying keeps the point.
    #[verifier::external_body]
    fn dup(&self) -> (r: RawPoint)
        ensures
            r == *self,
    {
        RawPoint(self.0)
    }
}

/// Order of the secp256k1 group: both the number of points and the modulus
/// of the scalar field.
pub open spec fn group_order() -> nat {
    0xFFFFFFFFFFFFFFFFFFFFFFFFFFFFFFFEBAAEDCE6AF48A03BBFD25E8CD0364141nat
}

/// The compressed encoding of the point whose discrete logarithm is `d`.
pub uninterp spec fn point_bytes(d: nat) -> Seq<u8>;

/// An unconstrained model value for a freshly wrapped curve element; the
/// wrapper's contract, not this placeholder, says what is known of it.
fn fresh_model() -> Ghost<nat> {
    Ghost(0)
}

/// A scalar of the secp256k1 scalar field, modeled by its value.
pub struct CurveScalar {
    pub(crate) inner: RawScalar,
    pub(crate) val: Ghost<nat>,
}

/// A point of the secp256k1 group, modeled by its discrete logarithm with
/// respect to the generator.
pub struct CurvePoint {
    pub(crate) inner: RawPoint,
    pub(crate) dlog: Ghost<nat>,
}

impl Clone for CurveScalar {
    fn clone(&self) -> (r: Self)
        ensures
            r == *self,
    {
        CurveScalar { inner: self.inner.dup(), val: self.val }
    }
}

impl CurveScalar {
    /// The value of the scalar: the model that every contract speaks of.
    /// The underlying representation stays sealed, so a value of this type
    /// can only come from the operations here and always means its model.
    pub closed spec fn val(&self) -> nat {
        self.val@
    }

    /// The model is a field element: a natural below the group order.
    pub open spec fn wf(&self) -> bool {
        self.val() < group_order()
    }

    /// Relies on `Scalar::zero` of `generic_ec`: the additive identity.
    #[verifier::external_body]
    pub fn zero() -> (r: CurveScalar)
        ensures
            r.val() == 0,
            r.wf(),
    {
        CurveScalar { inner: RawScalar(Scalar::zero()), val: fresh_model() }
    }

    /// Relies on `Scalar::random` of `generic_ec`: samples a uniform
    /// non-zero field element, in particular one below the group order.
    #[verifier::external_body]
    pub fn random() -> (r: CurveScalar)
        ensures
            r.wf(),
    {
        let mut rng = rand_core::OsRng;
        CurveScalar { inner: RawScalar(Scalar::random(&mut rng)), val: fresh_model() }
    }

    /// Relies on `Add for Scalar` of `generic_ec`: addition modulo the group
    /// order.
    #[verifier::external_body]
    pub fn add(&self, other: &CurveScalar) -> (r: CurveScalar)
        requires
            self.wf(),
            other.wf(),
        ensures
            r.val() == (self.val() + other.val()) % group_order(),
            r.wf(),
    {
        CurveScalar { inner: RawScalar(self.inner.0 + other.inner.0), val: fresh_model() }
    }

    /// Relies on `Neg for Scalar` of `generic_ec`: negation modulo the group
    /// order.
    #[verifier::external_body]
    pub fn neg(&self) -> (r: CurveScalar)
        requires
            self.wf(),
        ensures
            r.val() == if self.val() == 0 { 0nat } else { (group_order() - self.val()) as nat },
            r.wf(),
    {
        CurveScalar { inner: RawScalar(-self.inner.0), val: fresh_model() }
    }

    /// Relies on `Scalar::to_be_bytes` of `generic_ec`: the 32-byte
    /// big-endian encoding of the value.
    #[verifier::external_body]
    pub fn to_be_bytes(&self) -> (r: Vec<u8>)
        ensures
            r@.len() == 32,
            crate::bytes_util::be_nat(r@) == self.val(),
    {
        self.inner.0.to_be_bytes().to_vec()
    }

    /// Relies on `Scalar::from_be_bytes_mod_order` of `generic_ec`: the bytes
    /// are read as a big-endian integer and reduced modulo the group order.
    #[verifier::external_body]
    pub fn from_be_bytes_mod_order(bytes: &Vec<u8>) -> (r: CurveScalar)
        ensures
            r.val() == crate::bytes_util::be_nat(bytes@) % group_order(),
            r.wf(),
    {
        CurveScalar { inner: RawScalar(Scalar::from_be_bytes_mod_order(bytes)), val: fresh_model() }
    }

}

impl Clone for CurvePoint {
    fn clone(&self) -> (r: Self)
        ensures
            r == *self,
    {
        CurvePoint { inner: self.inner.dup(), dlog: self.dlog }
    }
}

impl CurvePoint {
    /// Discrete logarithm of the point: the model that every contract
    /// speaks of, sealed for the same reason as the scalar's value.
    pub closed spec fn dlog(&self) -> nat {
        self.dlog@
    }

    /// The model is a group element: its discrete logarithm, below the group
    /// order.
    pub open spec fn wf(&self) -> bool {
        self.dlog() < group_order()
    }

    /// Relies on `Point::zero` of `generic_ec`: the identity point, that is
    /// the zero multiple of the generator.
    #[verifier::external_body]
    pub fn zero() -> (r: CurvePoint)
        ensures
            r.dlog() == 0,
            r.wf(),
    {
        CurvePoint { inner: RawPoint(Point::zero()), dlog: fresh_model() }
    }

    /// Relies on `Mul<Scalar> for Generator` of `generic_ec`: `G * s` is the
    /// point whose discrete logarithm is `s`.
    #[verifier::external_body]
    pub fn generator_mul(s: &CurveScalar) -> (r: CurvePoint)
        requires
            s.wf(),
        ensures
            r.dlog() == s.val(),
            r.wf(),
    {
        CurvePoint { inner: RawPoint(Point::generator() * s.inner.0), dlog: fresh_model() }
    }

    /// Relies on `Add for Point` of `generic_ec`: the group law adds discrete
    /// logarithms modulo the group order.
    #[verifier::external_body]
    pub fn add(&self, other: &CurvePoint) -> (r: CurvePoint)
        requires
            self.wf(),
            other.wf(),
        ensures
            r.dlog() == (self.dlog() + other.dlog()) % group_order(),
            r.wf(),
    {
        CurvePoint { inner: RawPoint(self.inner.0 + other.inner.0), dlog: fresh_model() }
    }

    /// Relies on `PartialEq for Point` of `generic_ec`: in a prime-order
    /// group, points are equal exactly when their discrete logarithms are.
    #[verifier::external_body]
    pub fn eq_point(&self, other: &CurvePoint) -> (r: bool)
        requires
            self.wf(),
            other.wf(),
        ensures
            r == (self.dlog() == other.dlog()),
    {
        self.inner.0 == other.inner.0
    }

    /// Relies on `Point::to_bytes` of `generic_ec`: the 33-byte compressed
    /// encoding, a function of the point alone.
    #[verifier::external_body]
    pub fn to_bytes(&self) -> (r: Vec<u8>)
        ensures
            r@ == point_bytes(self.dlog()),
            r@.len() == 33,
    {
        self.inner.0.to_bytes(true).to_vec()
    }

}

/// The discrete logarithms of a family of points.
pub open spec fn point_dlogs(pts: Seq<CurvePoint>) -> Seq<nat> {
    pts.map_values(|p: CurvePoint| p.dlog())
}

/// The values of a family of scalars.
pub open spec fn scalar_vals(vals: Seq<CurveScalar>) -> Seq<nat> {
    vals.map_values(|s: CurveScalar| s.val())
}

/// Sum of a family of naturals, reduced modulo `modulus` at every step.
pub open spec fn sum_mod(vals: Seq<nat>, modulus: nat) -> nat
    decreases vals.len(),
{
    if vals.len() == 0 {
        0
    } else {
        (sum_mod(vals.drop_last(), modulus) + vals.last()) % modulus
    }
}

/// Sum of a family of points: the point whose discrete logarithm is the
/// sum of theirs, modulo the group order.
pub fn sum_points(pts: &Vec<CurvePoint>) -> (r: CurvePoint)
    requires
        forall|k: int| 0 <= k < pts@.len() ==> (#[trigger] pts@[k]).wf(),
    ensures
        r.dlog() == sum_mod(point_dlogs(pts@), group_order()),
        r.wf(),
{
    let ghost dlogs = point_dlogs(pts@);
    let mut acc = CurvePoint::zero();
    let mut k: usize = 0;
    proof {
        assert(dlogs.take(0) =~= Seq::<nat>::empty());
    }
    while k < pts.len()
        invariant
            k <= pts@.len(),
            dlogs == point_dlogs(pts@),
            forall|j: int| 0 <= j < pts@.len() ==> (#[trigger] pts@[j]).wf(),
            acc.wf(),
            acc.dlog() == sum_mod(dlogs.take(k as int), group_order()),
        decreases pts@.len() - k,
    {
        let next = acc.add(&pts[k]);
        proof {
            assert(dlogs.take(k + 1).drop_last() =~= dlogs.take(k as int));
            assert(dlogs.take(k + 1).last() == dlogs[k as int]);
            if k == 0 {
                assert(sum_mod(dlogs.take(0), group_order()) == 0);
            }
        }
        acc = next;
        k += 1;
    }
    proof {
        assert(dlogs.take(pts@.len() as int) =~= dlogs);
    }
    acc
}

/// Element-wise copy of a vector of points; the models carry over.
pub fn clone_point_vec(v: &Vec<CurvePoint>) -> (r: Vec<CurvePoint>)
    ensures
        r@ == v@,
{
    let mut r: Vec<CurvePoint> = Vec::new();
    let mut k: usize = 0;
    while k < v.len()
        invariant
            k <= v@.len(),
            r@ == v@.take(k as int),
        decreases v@.len() - k,
    {
        r.push(v[k].clone());
        proof {
            assert(v@.take(k + 1) =~= v@.take(k as int).push(v@[k as int]));
        }
        k += 1;
    }
    proof {
        assert(v@.take(v@.len() as int) =~= v@);
    }
    r
}

/// Element-wise copy of a vector of scalars; the models carry over.
pub fn clone_scalar_vec(v: &Vec<CurveScalar>) -> (r: Vec<CurveScalar>)
    ensures
        r@ == v@,
{
    let mut r: Vec<CurveScalar> = Vec::new();
    let mut k: usize = 0;
    while k < v.len()
        invariant
            k <= v@.len(),
            r@ == v@.take(k as int),
        decreases v@.len() - k,
    {
        r.push(v[k].clone());
        proof {
            assert(v@.take(k + 1) =~= v@.take(k as int).push(v@[k as int]));
        }
        k += 1;
    }
    proof {
        assert(v@.take(v@.len() as int) =~= v@);
    }
    r
}

} // verus!
