//! Plain byte-string helpers: pointwise exclusive-or (used to combine the
//! parties' session randomness into the global value) and big-endian
//! encodings used when hashing.
use vstd::prelude::*;

verus! {

/// Pointwise exclusive-or of two byte strings of the same length.
pub open spec fn xor_bytes_spec(a: Seq<u8>, b: Seq<u8>) -> Seq<u8> {
    Seq::new(a.len(), |k: int| a[k] ^ b[k])
}

/// The all-zero byte string of the given length.
pub open spec fn zero_bytes(len: nat) -> Seq<u8> {
    Seq::new(len, |k: int| 0u8)
}

/// Exclusive-or of a whole family of byte strings, each of length `len`,
/// combined left to right starting from the all-zero string.
pub open spec fn xor_all(seqs: Seq<Seq<u8>>, len: nat) -> Seq<u8>
    decreases seqs.len(),
{
    if seqs.len() == 0 {
        zero_bytes(len)
    } else {
        xor_bytes_spec(xor_all(seqs.drop_last(), len), seqs.last())
    }
}

/// Exclusive-or is commutative, pointwise on byte strings of equal length.
pub proof fn lemma_xor_bytes_comm(a: Seq<u8>, b: Seq<u8>)
    requires
        a.len() == b.len(),
    ensures
        xor_bytes_spec(a, b) =~= xor_bytes_spec(b, a),
{
    assert forall|k: int| 0 <= k < a.len() implies (a[k] ^ b[k]) == (b[k] ^ a[k]) by {
        let x = a[k];
        let y = b[k];
        assert((x ^ y) == (y ^ x)) by (bit_vector);
    }
}

/// Exclusive-or is associative, pointwise on byte strings of equal length.
pub proof fn lemma_xor_bytes_assoc(a: Seq<u8>, b: Seq<u8>, c: Seq<u8>)
    requires
        a.len() == b.len(),
        b.len() == c.len(),
    ensures
        xor_bytes_spec(xor_bytes_spec(a, b), c) =~= xor_bytes_spec(a, xor_bytes_spec(b, c)),
{
    assert forall|k: int| 0 <= k < a.len() implies ((a[k] ^ b[k]) ^ c[k]) == (a[k] ^ (b[k] ^ c[k])) by {
        let x = a[k];
        let y = b[k];
        let z = c[k];
        assert(((x ^ y) ^ z) == (x ^ (y ^ z))) by (bit_vector);
    }
}

/// Pointwise exclusive-or of `b` into `a`; both must have the same length.
pub fn xor_bytes(a: &Vec<u8>, b: &Vec<u8>) -> (r: Vec<u8>)
    requires
        a@.len() == b@.len(),
    ensures
        r@ == xor_bytes_spec(a@, b@),
{
    let mut r: Vec<u8> = Vec::new();
    let mut k: usize = 0;
    while k < a.len()
        invariant
            k <= a@.len(),
            a@.len() == b@.len(),
            r@.len() == k,
            forall|j: int| 0 <= j < k ==> r@[j] == (a@[j] ^ b@[j]),
        decreases a@.len() - k,
    {
        r.push(a[k] ^ b[k]);
        k += 1;
    }
    assert(r@ =~= xor_bytes_spec(a@, b@));
    r
}

/// Exclusive-or of all the byte strings in `seqs`, each of length `len`,
/// taken in the order given. Every party combines the same indexed family,
/// so every party derives the same global randomness.
pub fn xor_all_exec(seqs: &Vec<Vec<u8>>, len: usize) -> (r: Vec<u8>)
    requires
        forall|j: int| 0 <= j < seqs@.len() ==> #[trigger] seqs@[j]@.len() == len,
    ensures
        r@ == xor_all(seqs@.map_values(|v: Vec<u8>| v@), len as nat),
{
    let ghost models = seqs@.map_values(|v: Vec<u8>| v@);
    let mut r: Vec<u8> = Vec::new();
    let mut k: usize = 0;
    while k < len
        invariant
            k <= len,
            r@.len() == k,
            forall|j: int| 0 <= j < k ==> r@[j] == 0u8,
        decreases len - k,
    {
        r.push(0u8);
        k += 1;
    }
    assert(r@ =~= zero_bytes(len as nat));
    assert(models.take(0) =~= Seq::<Seq<u8>>::empty());
    let mut j: usize = 0;
    while j < seqs.len()
        invariant
            j <= seqs@.len(),
            models == seqs@.map_values(|v: Vec<u8>| v@),
            forall|t: int| 0 <= t < seqs@.len() ==> #[trigger] seqs@[t]@.len() == len,
            r@.len() == len,
            r@ == xor_all(models.take(j as int), len as nat),
        decreases seqs@.len() - j,
    {
        let next = xor_bytes(&r, &seqs[j]);
        proof {
            assert(models.take(j + 1).drop_last() =~= models.take(j as int));
            assert(models.take(j + 1).last() == seqs@[j as int]@);
        }
        r = next;
        j += 1;
    }
    proof {
        assert(models.take(seqs@.len() as int) =~= models);
    }
    r
}

/// The big-endian value of a byte string.
pub open spec fn be_nat(b: Seq<u8>) -> nat
    decreases b.len(),
{
    if b.len() == 0 {
        0
    } else {
        be_nat(b.drop_last()) * 256 + b.last() as nat
    }
}

/// The two big-endian bytes of a 16-bit integer, as a specification.
pub open spec fn u16_be_spec(x: u16) -> Seq<u8> {
    seq![(x >> 8) as u8, (x & 0xff) as u8]
}

/// The two big-endian bytes of a 16-bit integer.
pub fn u16_be_bytes(x: u16) -> (r: Vec<u8>)
    ensures
        r@ == u16_be_spec(x),
        r@.len() == 2,
        be_nat(r@) == x,
{
    let hi = (x >> 8) as u8;
    let lo = (x & 0xff) as u8;
    let mut r: Vec<u8> = Vec::new();
    r.push(hi);
    r.push(lo);
    proof {
        let s = r@;
        assert(s =~= u16_be_spec(x));
        assert(s.len() == 2);
        assert(s.drop_last().len() == 1);
        assert(be_nat(Seq::<u8>::empty()) == 0);
        assert(s.drop_last().drop_last() =~= Seq::<u8>::empty());
        assert(s.drop_last().last() == hi);
        assert(be_nat(s.drop_last()) == hi as nat);
        assert(s.last() == lo);
        assert(be_nat(s) == (hi as nat) * 256 + lo as nat);
        assert(((x >> 8) as u8) as nat * 256 + ((x & 0xff) as u8) as nat == x as nat) by (bit_vector);
    }
    r
}

} // verus!
