//! Comparisons of secret-derived values that take the same time wherever the
//! values differ, and the BLS check of a partial decryption.
use vstd::prelude::*;

use crate::algebra::{fr_u64_bytes, fr_views, g1_generator, multi_pairing_of, Fr, Gt, G1, G2};
use crate::poly::copy_frs;

verus! {

/// Whether two byte strings are equal. Every byte is looked at whatever the
/// first difference; only the lengths are compared first.
pub fn subtle_constant_time_eq(a: &[u8], b: &[u8]) -> (r: bool)
    ensures
        r == (a@ == b@),
{
    if a.len() != b.len() {
        return false;
    }
    let mut diff: u8 = 0;
    let mut i: usize = 0;
    while i < a.len()
        invariant
            a@.len() == b@.len(),
            i <= a@.len(),
            (diff == 0) == (forall|k: int| 0 <= k < i ==> a@[k] == b@[k]),
        decreases a@.len() - i,
    {
        let x = a[i];
        let y = b[i];
        let d = x ^ y;
        assert((d == 0) == (x == y)) by (bit_vector)
            requires
                d == x ^ y,
        ;
        let nd = diff | d;
        assert((nd == 0) == (diff == 0 && d == 0)) by (bit_vector)
            requires
                nd == diff | d,
        ;
        diff = nd;
        i = i + 1;
    }
    proof {
        if diff == 0 {
            assert(a@ =~= b@);
        }
    }
    diff == 0
}

/// Equality of scalars, over their canonical encodings.
pub fn constant_time_eq(a: &Fr, b: &Fr) -> (r: bool)
    ensures
        r == (a@ == b@),
{
    let x = a.to_bytes();
    let y = b.to_bytes();
    subtle_constant_time_eq(x.as_slice(), y.as_slice())
}

/// Equality of `G1` elements, over their compressed encodings.
pub fn constant_time_eq_g1(a: &G1, b: &G1) -> (r: bool)
    ensures
        r == (a@ == b@),
{
    let x = a.to_bytes();
    let y = b.to_bytes();
    subtle_constant_time_eq(x.as_slice(), y.as_slice())
}

/// Equality of `G2` elements, over their compressed encodings.
pub fn constant_time_eq_g2(a: &G2, b: &G2) -> (r: bool)
    ensures
        r == (a@ == b@),
{
    let x = a.to_bytes();
    let y = b.to_bytes();
    subtle_constant_time_eq(x.as_slice(), y.as_slice())
}

/// Equality of target-group elements, over their canonical encodings.
pub fn constant_time_eq_pairing(a: &Gt, b: &Gt) -> (r: bool)
    ensures
        r == (a@ == b@),
{
    let x = a.to_bytes();
    let y = b.to_bytes();
    subtle_constant_time_eq(x.as_slice(), y.as_slice())
}

/// The BLS check of a signature (such as a partial decryption):
/// `e(g, signature) == e(public_key, message)`, compared over encodings.
pub fn verify_bls_signature_ct(signature: &G2, public_key: &G1, message: &G2) -> (r: bool)
    ensures
        r == (multi_pairing_of(seq![g1_generator()], seq![signature@]) == multi_pairing_of(
            seq![public_key@],
            seq![message@],
        )),
{
    let lhs = Gt::pairing(&G1::generator(), signature);
    let rhs = Gt::pairing(public_key, message);
    constant_time_eq_pairing(&lhs, &rhs)
}

/// A secret scalar. It has no debug form; `zeroize` overwrites it.
pub struct SensitiveScalar {
    value: Fr,
}

impl SensitiveScalar {
    /// The encoding of the held scalar.
    pub closed spec fn secret(&self) -> Seq<u8> {
        self.value@
    }

    /// Wraps a scalar.
    pub fn new(value: Fr) -> (r: Self)
        ensures
            r.secret() == value@,
    {
        SensitiveScalar { value }
    }

    /// The held scalar; the caller must not let it leak.
    pub fn expose_secret(&self) -> (r: &Fr)
        ensures
            r@ == self.secret(),
    {
        &self.value
    }

    /// The held scalar, a copy that the caller must zeroize itself.
    pub fn into_inner(self) -> (r: Fr)
        ensures
            r@ == self.secret(),
    {
        self.value.copy()
    }

    /// The scalar zero.
    pub fn zero() -> (r: Self)
        ensures
            r.secret() == fr_u64_bytes(0),
    {
        SensitiveScalar { value: Fr::zero() }
    }

    /// The scalar one.
    pub fn one() -> (r: Self)
        ensures
            r.secret() == fr_u64_bytes(1),
    {
        SensitiveScalar { value: Fr::one() }
    }

    /// Overwrites the scalar with zero.
    pub fn zeroize(&mut self)
        ensures
            final(self).secret() == fr_u64_bytes(0),
    {
        self.value.zeroize();
    }

    /// A textual form that shows no part of the scalar.
    pub fn redacted(&self) -> (r: String)
        ensures
            r@ == "SensitiveScalar([REDACTED])"@,
    {
        "SensitiveScalar([REDACTED])".to_string()
    }
}

/// Secret scalars; `zeroize` overwrites and drops them all.
pub struct SensitiveVec {
    inner: Vec<Fr>,
}

impl SensitiveVec {
    /// The encodings of the held scalars.
    pub closed spec fn secrets(&self) -> Seq<Seq<u8>> {
        fr_views(self.inner@)
    }

    /// Wraps scalars.
    pub fn new(inner: Vec<Fr>) -> (r: Self)
        ensures
            r.secrets() == fr_views(inner@),
    {
        SensitiveVec { inner }
    }

    /// The held scalars; the caller must not let them leak.
    pub fn expose_secret(&self) -> (r: &Vec<Fr>)
        ensures
            fr_views(r@) == self.secrets(),
    {
        &self.inner
    }

    /// Copies of the held scalars, which the caller must zeroize itself.
    pub fn into_inner(self) -> (r: Vec<Fr>)
        ensures
            fr_views(r@) == self.secrets(),
    {
        copy_frs(&self.inner)
    }

    /// Number of scalars.
    pub fn len(&self) -> (r: usize)
        ensures
            r == self.secrets().len(),
    {
        self.inner.len()
    }

    /// Whether there is no scalar.
    pub fn is_empty(&self) -> (r: bool)
        ensures
            r == (self.secrets().len() == 0),
    {
        self.inner.len() == 0
    }

    /// Overwrites every scalar with zero, then empties the vector.
    pub fn zeroize(&mut self)
        ensures
            final(self).secrets().len() == 0,
    {
        let mut i: usize = 0;
        while i < self.inner.len()
            invariant
                i <= self.inner@.len(),
            decreases self.inner@.len() - i,
        {
            let mut x = Fr::zero();
            std::mem::swap(&mut x, &mut self.inner[i]);
            x.zeroize();
            i = i + 1;
        }
        self.inner.clear();
    }

    /// A textual form that shows only the number of scalars.
    pub fn redacted(&self) -> (r: String) {
        "SensitiveVec { data: [REDACTED] }".to_string()
    }
}

} // verus!
