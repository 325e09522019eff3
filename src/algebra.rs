//! Scalars, group elements and the pairing of BLS12-381.
//!
//! Every value is held as its canonical compressed encoding (32 bytes for a
//! scalar, 48 for `G1`, 96 for `G2`, 576 for `GT`), which the type invariant
//! keeps valid. Arithmetic is delegated to the arkworks crates; what an
//! operation returns is named by an uninterpreted function of the encodings of
//! its arguments, so that the contracts of the protocol can say exactly which
//! combination of inputs each output is.
use ark_bls12_381::{Bls12_381, Fr as ArkFr, G1Affine, G1Projective, G2Affine, G2Projective};
use ark_ec::pairing::{Pairing, PairingOutput};
use ark_ec::{PrimeGroup, ScalarMul, VariableBaseMSM};
use ark_ff::{Field, UniformRand};
use ark_serialize::{CanonicalDeserialize, CanonicalSerialize};
use rand::SeedableRng;
use vstd::prelude::*;

use crate::codec::{
    all_width, flat, get_u64, le_u64, lemma_flat_chunks, lemma_flat_injective, lemma_u64_le, put_u64,
    take, u64_le, vec_encoding,
};
use crate::error::SteError;

verus! {

/// Bytes in the encoding of a scalar.
pub const FR_BYTES: usize = 32;

/// Bytes in the compressed encoding of a `G1` element.
pub const G1_BYTES: usize = 48;

/// Bytes in the compressed encoding of a `G2` element.
pub const G2_BYTES: usize = 96;

/// Bytes in the encoding of a `GT` element.
pub const GT_BYTES: usize = 576;

/// Whether `b` starts with a canonical scalar encoding.
pub uninterp spec fn fr_valid(b: Seq<u8>) -> bool;

/// Whether `b` starts with a compressed encoding of a point of the `G1` subgroup.
pub uninterp spec fn g1_valid(b: Seq<u8>) -> bool;

/// Whether `b` starts with a compressed encoding of a point of the `G2` subgroup.
pub uninterp spec fn g2_valid(b: Seq<u8>) -> bool;

/// Whether `b` starts with an encoding of an element of the target group.
pub uninterp spec fn gt_valid(b: Seq<u8>) -> bool;

/// Encoding of the sum of two scalars.
pub uninterp spec fn fr_add_of(a: Seq<u8>, b: Seq<u8>) -> Seq<u8>;

/// Encoding of the difference of two scalars.
pub uninterp spec fn fr_sub_of(a: Seq<u8>, b: Seq<u8>) -> Seq<u8>;

/// Encoding of the product of two scalars.
pub uninterp spec fn fr_mul_of(a: Seq<u8>, b: Seq<u8>) -> Seq<u8>;

/// Encoding of the additive inverse of a scalar.
pub uninterp spec fn fr_neg_of(a: Seq<u8>) -> Seq<u8>;

/// Encoding of the multiplicative inverse of a non-zero scalar.
pub uninterp spec fn fr_inverse_of(a: Seq<u8>) -> Seq<u8>;

/// Encoding of a scalar raised to an integer power.
pub uninterp spec fn fr_pow_of(a: Seq<u8>, e: u64) -> Seq<u8>;

/// Encoding of the `G1` generator multiplied by a scalar.
pub uninterp spec fn g1_gen_mul_of(s: Seq<u8>) -> Seq<u8>;

/// Encoding of the sum of two `G1` elements.
pub uninterp spec fn g1_add_of(a: Seq<u8>, b: Seq<u8>) -> Seq<u8>;

/// Encoding of a `G1` element multiplied by a scalar.
pub uninterp spec fn g1_mul_of(p: Seq<u8>, s: Seq<u8>) -> Seq<u8>;

/// Encoding of `sum_k scalars[k] * bases[k]` in `G1`.
pub uninterp spec fn g1_msm_of(bases: Seq<Seq<u8>>, scalars: Seq<Seq<u8>>) -> Seq<u8>;

/// Encoding of the `G2` generator multiplied by a scalar.
pub uninterp spec fn g2_gen_mul_of(s: Seq<u8>) -> Seq<u8>;

/// Encoding of the sum of two `G2` elements.
pub uninterp spec fn g2_add_of(a: Seq<u8>, b: Seq<u8>) -> Seq<u8>;

/// Encoding of a `G2` element multiplied by a scalar.
pub uninterp spec fn g2_mul_of(p: Seq<u8>, s: Seq<u8>) -> Seq<u8>;

/// Encoding of `sum_k scalars[k] * bases[k]` in `G2`.
pub uninterp spec fn g2_msm_of(bases: Seq<Seq<u8>>, scalars: Seq<Seq<u8>>) -> Seq<u8>;

/// Encoding of the product of the pairings `e(a[k], b[k])`.
pub uninterp spec fn multi_pairing_of(a: Seq<Seq<u8>>, b: Seq<Seq<u8>>) -> Seq<u8>;

/// Encoding of a target-group element raised to a scalar (written additively).
pub uninterp spec fn gt_mul_of(x: Seq<u8>, s: Seq<u8>) -> Seq<u8>;

/// The 32-byte little-endian encoding of an integer below 2^64.
pub open spec fn fr_u64_bytes(n: u64) -> Seq<u8> {
    Seq::new(32, |i: int| if i < 8 { (n >> (8 * i) as u64) as u8 } else { 0u8 })
}

/// Whether every byte is zero: for a canonical scalar encoding, the scalar zero.
pub open spec fn all_zero(b: Seq<u8>) -> bool {
    forall|i: int| 0 <= i < b.len() ==> b[i] == 0
}

/// The encodings of a sequence of scalars.
pub open spec fn fr_views(v: Seq<Fr>) -> Seq<Seq<u8>> {
    v.map_values(|x: Fr| x@)
}

/// The encodings of a sequence of `G1` elements.
pub open spec fn g1_views(v: Seq<G1>) -> Seq<Seq<u8>> {
    v.map_values(|x: G1| x@)
}

/// The encodings of a sequence of `G2` elements.
pub open spec fn g2_views(v: Seq<G2>) -> Seq<Seq<u8>> {
    v.map_values(|x: G2| x@)
}

/// The generator of `G1`.
pub open spec fn g1_generator() -> Seq<u8> {
    g1_gen_mul_of(fr_u64_bytes(1))
}

/// The generator of `G2`.
pub open spec fn g2_generator() -> Seq<u8> {
    g2_gen_mul_of(fr_u64_bytes(1))
}

/// `e(g, h)`, the pairing of the two generators.
pub open spec fn gt_generator() -> Seq<u8> {
    multi_pairing_of(seq![g1_generator()], seq![g2_generator()])
}

/// Whether two byte strings are equal, looking at every byte whatever the
/// first difference, so that the time taken does not depend on where they
/// differ.
pub fn bytes_eq(a: &Vec<u8>, b: &Vec<u8>) -> (r: bool)
    ensures
        r == (a@ == b@),
{
    if a.len() != b.len() {
        return false;
    }
    let mut diff: u8 = 0;
    let mut i: usize = 0;
    while i < a.len()
        invariant
            a@.len() == b@.len(),
            i <= a@.len(),
            (diff == 0) == (forall|k: int| 0 <= k < i ==> a@[k] == b@[k]),
        decreases a@.len() - i,
    {
        let x = a[i];
        let y = b[i];
        let d = x ^ y;
        assert((d == 0) == (x == y)) by (bit_vector)
            requires
                d == x ^ y,
        ;
        let nd = diff | d;
        assert((nd == 0) == (diff == 0 && d == 0)) by (bit_vector)
            requires
                nd == diff | d,
        ;
        diff = nd;
        i = i + 1;
    }
    proof {
        if diff == 0 {
            assert(a@ =~= b@);
        }
    }
    diff == 0
}

/// Whether every byte is zero.
fn is_all_zero(b: &Vec<u8>) -> (r: bool)
    ensures
        r == all_zero(b@),
{
    let mut i: usize = 0;
    while i < b.len()
        invariant
            i <= b@.len(),
            forall|k: int| 0 <= k < i ==> b@[k] == 0,
        decreases b@.len() - i,
    {
        if b[i] != 0 {
            return false;
        }
        i = i + 1;
    }
    true
}

/// The low eight bytes of `fr_u64_bytes(n)` are all zero only for `n == 0`.
pub proof fn lemma_u64_bytes_zero(n: u64)
    ensures
        all_zero(fr_u64_bytes(n)) <==> n == 0,
{
    let b = fr_u64_bytes(n);
    if all_zero(b) {
        assert(b[0] == 0 && b[1] == 0 && b[2] == 0 && b[3] == 0);
        assert(b[4] == 0 && b[5] == 0 && b[6] == 0 && b[7] == 0);
        let b0 = (n >> 0u64) as u8;
        let b1 = (n >> 8u64) as u8;
        let b2 = (n >> 16u64) as u8;
        let b3 = (n >> 24u64) as u8;
        let b4 = (n >> 32u64) as u8;
        let b5 = (n >> 40u64) as u8;
        let b6 = (n >> 48u64) as u8;
        let b7 = (n >> 56u64) as u8;
        assert(b0 == b[0] && b1 == b[1] && b2 == b[2] && b3 == b[3]);
        assert(b4 == b[4] && b5 == b[5] && b6 == b[6] && b7 == b[7]);
        assert(n == 0) by (bit_vector)
            requires
                (n >> 0u64) as u8 == 0,
                (n >> 8u64) as u8 == 0,
                (n >> 16u64) as u8 == 0,
                (n >> 24u64) as u8 == 0,
                (n >> 32u64) as u8 == 0,
                (n >> 40u64) as u8 == 0,
                (n >> 48u64) as u8 == 0,
                (n >> 56u64) as u8 == 0,
        ;
    }
    if n == 0 {
        assert forall|i: int| 0 <= i < b.len() implies b[i] == 0 by {
            if i < 8 {
                let s = (8 * i) as u64;
                assert((0u64 >> s) as u8 == 0) by (bit_vector);
            }
        }
    }
}

// ---------------------------------------------------------------- scalars

/// An element of the scalar field `Fr`, held as its canonical encoding.
#[derive(Debug)]
pub struct Fr {
    pub(crate) bytes: Vec<u8>,
}

impl View for Fr {
    type V = Seq<u8>;

    closed spec fn view(&self) -> Seq<u8> {
        self.bytes@
    }
}

impl Clone for Fr {
    fn clone(&self) -> (r: Self)
        ensures
            r@ == self@,
    {
        self.copy()
    }
}

impl Fr {
    #[verifier::type_invariant]
    spec fn inv(self) -> bool {
        self.bytes@.len() == FR_BYTES && fr_valid(self.bytes@)
    }

    /// The scalar `n`.
    pub fn from_u64(n: u64) -> (r: Fr)
        ensures
            r@ == fr_u64_bytes(n),
            fr_valid(r@),
    {
        Self::from_u64_ark(n)
    }

    /// Relies on `From<u64>` for `ark_bls12_381::Fr` and its canonical
    /// serialization: the scalar `n` is encoded as `n` in 32 little-endian bytes.
    #[verifier::external_body]
    fn from_u64_ark(n: u64) -> (r: Fr)
        ensures
            r@ == fr_u64_bytes(n),
            fr_valid(r@),
    {
        let mut bytes = Vec::new();
        ArkFr::from(n).serialize_compressed(&mut bytes).unwrap();
        Fr { bytes }
    }

    /// The scalar zero.
    pub fn zero() -> (r: Fr)
        ensures
            r@ == fr_u64_bytes(0),
            all_zero(r@),
    {
        proof {
            lemma_u64_bytes_zero(0);
        }
        Fr::from_u64(0)
    }

    /// The scalar one.
    pub fn one() -> (r: Fr)
        ensures
            r@ == fr_u64_bytes(1),
            !all_zero(r@),
    {
        proof {
            lemma_u64_bytes_zero(1);
        }
        Fr::from_u64(1)
    }

    /// A scalar drawn uniformly with a generator seeded from the operating
    /// system's random source; `RandomnessError` when that source fails.
    pub fn rand() -> (r: Result<Fr, SteError>)
        ensures
            r matches Ok(x) ==> fr_valid(x@),
            r matches Err(e) ==> e is RandomnessError,
    {
        match Self::rand_ark() {
            Some(x) => Ok(x),
            None => Err(SteError::RandomnessError("the operating system's random source failed".to_string())),
        }
    }

    /// Relies on `SeedableRng::from_rng` seeding `StdRng` from `OsRng`, which
    /// fails only when the operating system's source does, and `UniformRand`
    /// for `ark_bls12_381::Fr`: a uniformly drawn scalar, or `None`. Nothing
    /// is known of which scalar.
    #[verifier::external_body]
    fn rand_ark() -> (r: Option<Fr>)
        ensures
            r matches Some(x) ==> fr_valid(x@),
    {
        match rand::rngs::StdRng::from_rng(rand::rngs::OsRng) {
            Ok(mut rng) => {
                let mut bytes = Vec::new();
                ArkFr::rand(&mut rng).serialize_compressed(&mut bytes).unwrap();
                Some(Fr { bytes })
            },
            Err(_) => None,
        }
    }

    /// The sum.
    pub fn add(&self, o: &Fr) -> (r: Fr)
        ensures
            r@ == fr_add_of(self@, o@),
    {
        self.add_ark(o)
    }

    /// Relies on the addition of `ark_bls12_381::Fr`.
    #[verifier::external_body]
    fn add_ark(&self, o: &Fr) -> (r: Fr)
        ensures
            r@ == fr_add_of(self@, o@),
    {
        let x = ArkFr::deserialize_compressed_unchecked(&self.bytes[..]).unwrap();
        let y = ArkFr::deserialize_compressed_unchecked(&o.bytes[..]).unwrap();
        let mut bytes = Vec::new();
        (x + y).serialize_compressed(&mut bytes).unwrap();
        Fr { bytes }
    }

    /// The difference.
    pub fn sub(&self, o: &Fr) -> (r: Fr)
        ensures
            r@ == fr_sub_of(self@, o@),
    {
        self.sub_ark(o)
    }

    /// Relies on the subtraction of `ark_bls12_381::Fr`.
    #[verifier::external_body]
    fn sub_ark(&self, o: &Fr) -> (r: Fr)
        ensures
            r@ == fr_sub_of(self@, o@),
    {
        let x = ArkFr::deserialize_compressed_unchecked(&self.bytes[..]).unwrap();
        let y = ArkFr::deserialize_compressed_unchecked(&o.bytes[..]).unwrap();
        let mut bytes = Vec::new();
        (x - y).serialize_compressed(&mut bytes).unwrap();
        Fr { bytes }
    }

    /// The product.
    pub fn mul(&self, o: &Fr) -> (r: Fr)
        ensures
            r@ == fr_mul_of(self@, o@),
    {
        self.mul_ark(o)
    }

    /// Relies on the multiplication of `ark_bls12_381::Fr`.
    #[verifier::external_body]
    fn mul_ark(&self, o: &Fr) -> (r: Fr)
        ensures
            r@ == fr_mul_of(self@, o@),
    {
        let x = ArkFr::deserialize_compressed_unchecked(&self.bytes[..]).unwrap();
        let y = ArkFr::deserialize_compressed_unchecked(&o.bytes[..]).unwrap();
        let mut bytes = Vec::new();
        (x * y).serialize_compressed(&mut bytes).unwrap();
        Fr { bytes }
    }

    /// The additive inverse.
    pub fn neg(&self) -> (r: Fr)
        ensures
            r@ == fr_neg_of(self@),
    {
        self.neg_ark()
    }

    /// Relies on the negation of `ark_bls12_381::Fr`.
    #[verifier::external_body]
    fn neg_ark(&self) -> (r: Fr)
        ensures
            r@ == fr_neg_of(self@),
    {
        let x = ArkFr::deserialize_compressed_unchecked(&self.bytes[..]).unwrap();
        let mut bytes = Vec::new();
        (-x).serialize_compressed(&mut bytes).unwrap();
        Fr { bytes }
    }

    /// The multiplicative inverse; `None` exactly for zero.
    pub fn inverse(&self) -> (r: Option<Fr>)
        ensures
            r.is_some() <==> !all_zero(self@),
            r matches Some(v) ==> v@ == fr_inverse_of(self@),
    {
        self.inverse_ark()
    }

    /// Relies on `Field::inverse` of `ark_bls12_381::Fr`: `None` exactly for zero,
    /// whose canonical encoding is all zero bytes.
    #[verifier::external_body]
    fn inverse_ark(&self) -> (r: Option<Fr>)
        ensures
            r.is_some() <==> !all_zero(self@),
            r matches Some(v) ==> v@ == fr_inverse_of(self@),
    {
        let x = ArkFr::deserialize_compressed_unchecked(&self.bytes[..]).unwrap();
        match x.inverse() {
            Some(y) => {
                let mut bytes = Vec::new();
                y.serialize_compressed(&mut bytes).unwrap();
                Some(Fr { bytes })
            },
            None => None,
        }
    }

    /// The scalar raised to the power `e`.
    pub fn pow(&self, e: u64) -> (r: Fr)
        ensures
            r@ == fr_pow_of(self@, e),
    {
        self.pow_ark(e)
    }

    /// Relies on `Field::pow` of `ark_bls12_381::Fr`, with a one-limb exponent.
    #[verifier::external_body]
    fn pow_ark(&self, e: u64) -> (r: Fr)
        ensures
            r@ == fr_pow_of(self@, e),
    {
        let x = ArkFr::deserialize_compressed_unchecked(&self.bytes[..]).unwrap();
        let mut bytes = Vec::new();
        x.pow([e]).serialize_compressed(&mut bytes).unwrap();
        Fr { bytes }
    }

    /// Whether the scalar is zero.
    pub fn is_zero(&self) -> (r: bool)
        ensures
            r == all_zero(self@),
    {
        is_all_zero(&self.bytes)
    }

    /// A copy of the scalar.
    pub fn copy(&self) -> (r: Fr)
        ensures
            r@ == self@,
    {
        proof {
            use_type_invariant(self);
        }
        Fr { bytes: self.bytes.clone() }
    }

    /// Equality of scalars, by their canonical encodings.
    pub fn equals(&self, o: &Fr) -> (r: bool)
        ensures
            r == (self@ == o@),
    {
        bytes_eq(&self.bytes, &o.bytes)
    }

    /// The canonical encoding.
    pub fn to_bytes(&self) -> (r: Vec<u8>)
        ensures
            r@ == self@,
    {
        self.bytes.clone()
    }

    /// Relies on `CanonicalDeserialize` for `ark_bls12_381::Fr`, with validation.
    #[verifier::external_body]
    fn check_encoding(b: &Vec<u8>) -> (r: bool)
        ensures
            r == fr_valid(b@),
    {
        ArkFr::deserialize_compressed(&b[..]).is_ok()
    }

    /// Reads a scalar from exactly 32 bytes of canonical encoding.
    pub fn from_bytes(b: &Vec<u8>) -> (r: Result<Fr, SteError>)
        ensures
            r.is_ok() <==> (b@.len() == FR_BYTES && fr_valid(b@)),
            r matches Ok(v) ==> v@ == b@,
            r matches Err(e) ==> e is SerializationError,
    {
        if b.len() != FR_BYTES || !Fr::check_encoding(b) {
            return Err(SteError::SerializationError("invalid scalar encoding".to_string()));
        }
        Ok(Fr { bytes: b.clone() })
    }

    /// Sets the scalar to zero, first overwriting the old encoding with zeros.
    pub fn zeroize(&mut self)
        ensures
            final(self)@ == fr_u64_bytes(0),
    {
        let mut old = Fr::zero();
        std::mem::swap(self, &mut old);
        let mut bytes = old.bytes;
        let mut i: usize = 0;
        while i < bytes.len()
            invariant
                i <= bytes@.len(),
            decreases bytes@.len() - i,
        {
            bytes.set(i, 0);
            i = i + 1;
        }
    }
}


// ---------------------------------------------------------------- G1

/// The identity of `G1`, as `0 * generator`.
pub open spec fn g1_identity() -> Seq<u8> {
    g1_gen_mul_of(fr_u64_bytes(0))
}

/// An element of `G1`, held as its compressed encoding.
#[derive(Debug)]
pub struct G1 {
    bytes: Vec<u8>,
}

impl View for G1 {
    type V = Seq<u8>;

    closed spec fn view(&self) -> Seq<u8> {
        self.bytes@
    }
}

impl Clone for G1 {
    fn clone(&self) -> (r: Self)
        ensures
            r@ == self@,
    {
        self.copy()
    }
}

impl G1 {
    #[verifier::type_invariant]
    spec fn inv(self) -> bool {
        self.bytes@.len() == G1_BYTES && g1_valid(self.bytes@)
    }

    /// The generator times `s`.
    pub fn gen_mul(s: &Fr) -> (r: G1)
        ensures
            r@ == g1_gen_mul_of(s@),
            g1_valid(r@),
    {
        Self::gen_mul_ark(s)
    }

    /// Relies on `PrimeGroup::generator` and scalar multiplication of
    /// `G1Projective`: the generator times `s`.
    #[verifier::external_body]
    fn gen_mul_ark(s: &Fr) -> (r: G1)
        ensures
            r@ == g1_gen_mul_of(s@),
            g1_valid(r@),
    {
        let x = ArkFr::deserialize_compressed_unchecked(&s.bytes[..]).unwrap();
        let mut bytes = Vec::new();
        (G1Projective::generator() * x).serialize_compressed(&mut bytes).unwrap();
        G1 { bytes }
    }

    /// The generator.
    pub fn generator() -> (r: G1)
        ensures
            r@ == g1_generator(),
    {
        G1::gen_mul(&Fr::one())
    }

    /// The identity.
    pub fn zero() -> (r: G1)
        ensures
            r@ == g1_identity(),
    {
        G1::gen_mul(&Fr::zero())
    }

    /// The sum.
    pub fn add(&self, o: &G1) -> (r: G1)
        ensures
            r@ == g1_add_of(self@, o@),
    {
        self.add_ark(o)
    }

    /// Relies on the group addition of `G1Projective`.
    #[verifier::external_body]
    fn add_ark(&self, o: &G1) -> (r: G1)
        ensures
            r@ == g1_add_of(self@, o@),
    {
        let x = G1Projective::from(G1Affine::deserialize_compressed_unchecked(&self.bytes[..]).unwrap());
        let y = G1Affine::deserialize_compressed_unchecked(&o.bytes[..]).unwrap();
        let mut bytes = Vec::new();
        (x + y).serialize_compressed(&mut bytes).unwrap();
        G1 { bytes }
    }

    /// The product.
    pub fn mul(&self, s: &Fr) -> (r: G1)
        ensures
            r@ == g1_mul_of(self@, s@),
            s@ == fr_u64_bytes(1) ==> r@ == self@,
            s@ == fr_u64_bytes(0) ==> r@ == g1_identity(),
    {
        self.mul_ark(s)
    }

    /// Relies on the scalar multiplication of `G1Projective`; multiplying by
    /// one gives the same point and by zero the identity, each with its one
    /// canonical encoding.
    #[verifier::external_body]
    fn mul_ark(&self, s: &Fr) -> (r: G1)
        ensures
            r@ == g1_mul_of(self@, s@),
            s@ == fr_u64_bytes(1) ==> r@ == self@,
            s@ == fr_u64_bytes(0) ==> r@ == g1_identity(),
    {
        let p = G1Affine::deserialize_compressed_unchecked(&self.bytes[..]).unwrap();
        let x = ArkFr::deserialize_compressed_unchecked(&s.bytes[..]).unwrap();
        let mut bytes = Vec::new();
        (p * x).serialize_compressed(&mut bytes).unwrap();
        G1 { bytes }
    }

    /// Relies on `VariableBaseMSM::msm` of `G1Projective`, which fails only on
    /// inputs of different lengths: `sum_k scalars[k] * bases[k]`.
    #[verifier::external_body]
    fn msm_same_len(bases: &Vec<G1>, scalars: &Vec<Fr>) -> (r: G1)
        requires
            bases@.len() == scalars@.len(),
        ensures
            r@ == g1_msm_of(g1_views(bases@), fr_views(scalars@)),
    {
        let b: Vec<G1Affine> = bases.iter()
            .map(|p| G1Affine::deserialize_compressed_unchecked(&p.bytes[..]).unwrap()).collect();
        let s: Vec<ArkFr> = scalars.iter()
            .map(|x| ArkFr::deserialize_compressed_unchecked(&x.bytes[..]).unwrap()).collect();
        let mut bytes = Vec::new();
        G1Projective::msm(&b, &s).unwrap().serialize_compressed(&mut bytes).unwrap();
        G1 { bytes }
    }

    /// Multi-scalar multiplication `sum_k scalars[k] * bases[k]`; `MsmError`,
    /// naming `operation`, when the two sequences differ in length.
    pub fn msm(bases: &Vec<G1>, scalars: &Vec<Fr>, operation: &str) -> (r: Result<G1, SteError>)
        ensures
            r.is_ok() <==> bases@.len() == scalars@.len(),
            r matches Ok(v) ==> v@ == g1_msm_of(g1_views(bases@), fr_views(scalars@)),
            r matches Err(e) ==> e is MsmError,
    {
        if bases.len() != scalars.len() {
            let mut m = "MSM failed in ".to_string();
            m.append(operation);
            m.append(": bases and scalars differ in length");
            return Err(SteError::MsmError(m));
        }
        Ok(G1::msm_same_len(bases, scalars))
    }

    /// `v[i]` times this element, for each `i`.
    pub fn batch_mul(&self, v: &Vec<Fr>) -> (r: Vec<G1>)
        ensures
            r@.len() == v@.len(),
            forall|i: int| 0 <= i < v@.len() ==> #[trigger] r@[i]@ == g1_mul_of(self@, v@[i]@),
            forall|i: int| 0 <= i < v@.len() && v@[i]@ == fr_u64_bytes(1) ==> #[trigger] r@[i]@ == self@,
    {
        self.batch_mul_ark(v)
    }

    /// Relies on `ScalarMul::batch_mul` of `G1Projective`, documented as computing
    /// `v[0] * g, ..., v[n-1] * g`; a scalar one gives `g` itself.
    #[verifier::external_body]
    fn batch_mul_ark(&self, v: &Vec<Fr>) -> (r: Vec<G1>)
        ensures
            r@.len() == v@.len(),
            forall|i: int| 0 <= i < v@.len() ==> #[trigger] r@[i]@ == g1_mul_of(self@, v@[i]@),
            forall|i: int| 0 <= i < v@.len() && v@[i]@ == fr_u64_bytes(1) ==> #[trigger] r@[i]@ == self@,
    {
        let g = G1Projective::from(G1Affine::deserialize_compressed_unchecked(&self.bytes[..]).unwrap());
        let s: Vec<ArkFr> = v.iter()
            .map(|x| ArkFr::deserialize_compressed_unchecked(&x.bytes[..]).unwrap()).collect();
        g.batch_mul(&s).iter().map(|p| {
            let mut bytes = Vec::new();
            p.serialize_compressed(&mut bytes).unwrap();
            G1 { bytes }
        }).collect()
    }

    /// A copy of the element.
    pub fn copy(&self) -> (r: G1)
        ensures
            r@ == self@,
    {
        proof {
            use_type_invariant(self);
        }
        G1 { bytes: self.bytes.clone() }
    }

    /// Equality, by the compressed encodings.
    pub fn equals(&self, o: &G1) -> (r: bool)
        ensures
            r == (self@ == o@),
    {
        bytes_eq(&self.bytes, &o.bytes)
    }

    /// The compressed encoding.
    pub fn to_bytes(&self) -> (r: Vec<u8>)
        ensures
            r@ == self@,
    {
        self.bytes.clone()
    }

    /// Relies on `CanonicalDeserialize` for `G1Affine`, with validation
    /// (on the curve, in the subgroup, canonical).
    #[verifier::external_body]
    fn check_encoding(b: &Vec<u8>) -> (r: bool)
        ensures
            r == g1_valid(b@),
    {
        G1Affine::deserialize_compressed(&b[..]).is_ok()
    }

    /// Reads an element from exactly its compressed encoding.
    pub fn from_bytes(b: &Vec<u8>) -> (r: Result<G1, SteError>)
        ensures
            r.is_ok() <==> (b@.len() == G1_BYTES && g1_valid(b@)),
            r matches Ok(v) ==> v@ == b@,
            r matches Err(e) ==> e is SerializationError,
    {
        if b.len() != G1_BYTES || !G1::check_encoding(b) {
            return Err(SteError::SerializationError("invalid G1 encoding".to_string()));
        }
        Ok(G1 { bytes: b.clone() })
    }
}

// ---------------------------------------------------------------- G2

/// The identity of `G2`, as `0 * generator`.
pub open spec fn g2_identity() -> Seq<u8> {
    g2_gen_mul_of(fr_u64_bytes(0))
}

/// An element of `G2`, held as its compressed encoding.
#[derive(Debug)]
pub struct G2 {
    bytes: Vec<u8>,
}

impl View for G2 {
    type V = Seq<u8>;

    closed spec fn view(&self) -> Seq<u8> {
        self.bytes@
    }
}

impl Clone for G2 {
    fn clone(&self) -> (r: Self)
        ensures
            r@ == self@,
    {
        self.copy()
    }
}

impl G2 {
    #[verifier::type_invariant]
    spec fn inv(self) -> bool {
        self.bytes@.len() == G2_BYTES && g2_valid(self.bytes@)
    }

    /// The generator times `s`.
    pub fn gen_mul(s: &Fr) -> (r: G2)
        ensures
            r@ == g2_gen_mul_of(s@),
            g2_valid(r@),
    {
        Self::gen_mul_ark(s)
    }

    /// Relies on `PrimeGroup::generator` and scalar multiplication of
    /// `G2Projective`: the generator times `s`.
    #[verifier::external_body]
    fn gen_mul_ark(s: &Fr) -> (r: G2)
        ensures
            r@ == g2_gen_mul_of(s@),
            g2_valid(r@),
    {
        let x = ArkFr::deserialize_compressed_unchecked(&s.bytes[..]).unwrap();
        let mut bytes = Vec::new();
        (G2Projective::generator() * x).serialize_compressed(&mut bytes).unwrap();
        G2 { bytes }
    }

    /// The generator.
    pub fn generator() -> (r: G2)
        ensures
            r@ == g2_generator(),
    {
        G2::gen_mul(&Fr::one())
    }

    /// The identity.
    pub fn zero() -> (r: G2)
        ensures
            r@ == g2_identity(),
    {
        G2::gen_mul(&Fr::zero())
    }

    /// The sum.
    pub fn add(&self, o: &G2) -> (r: G2)
        ensures
            r@ == g2_add_of(self@, o@),
    {
        self.add_ark(o)
    }

    /// Relies on the group addition of `G2Projective`.
    #[verifier::external_body]
    fn add_ark(&self, o: &G2) -> (r: G2)
        ensures
            r@ == g2_add_of(self@, o@),
    {
        let x = G2Projective::from(G2Affine::deserialize_compressed_unchecked(&self.bytes[..]).unwrap());
        let y = G2Affine::deserialize_compressed_unchecked(&o.bytes[..]).unwrap();
        let mut bytes = Vec::new();
        (x + y).serialize_compressed(&mut bytes).unwrap();
        G2 { bytes }
    }

    /// The product.
    pub fn mul(&self, s: &Fr) -> (r: G2)
        ensures
            r@ == g2_mul_of(self@, s@),
            s@ == fr_u64_bytes(1) ==> r@ == self@,
            s@ == fr_u64_bytes(0) ==> r@ == g2_identity(),
    {
        self.mul_ark(s)
    }

    /// Relies on the scalar multiplication of `G2Projective`; multiplying by
    /// one gives the same point and by zero the identity, each with its one
    /// canonical encoding.
    #[verifier::external_body]
    fn mul_ark(&self, s: &Fr) -> (r: G2)
        ensures
            r@ == g2_mul_of(self@, s@),
            s@ == fr_u64_bytes(1) ==> r@ == self@,
            s@ == fr_u64_bytes(0) ==> r@ == g2_identity(),
    {
        let p = G2Affine::deserialize_compressed_unchecked(&self.bytes[..]).unwrap();
        let x = ArkFr::deserialize_compressed_unchecked(&s.bytes[..]).unwrap();
        let mut bytes = Vec::new();
        (p * x).serialize_compressed(&mut bytes).unwrap();
        G2 { bytes }
    }

    /// Relies on `VariableBaseMSM::msm` of `G2Projective`, which fails only on
    /// inputs of different lengths: `sum_k scalars[k] * bases[k]`.
    #[verifier::external_body]
    fn msm_same_len(bases: &Vec<G2>, scalars: &Vec<Fr>) -> (r: G2)
        requires
            bases@.len() == scalars@.len(),
        ensures
            r@ == g2_msm_of(g2_views(bases@), fr_views(scalars@)),
    {
        let b: Vec<G2Affine> = bases.iter()
            .map(|p| G2Affine::deserialize_compressed_unchecked(&p.bytes[..]).unwrap()).collect();
        let s: Vec<ArkFr> = scalars.iter()
            .map(|x| ArkFr::deserialize_compressed_unchecked(&x.bytes[..]).unwrap()).collect();
        let mut bytes = Vec::new();
        G2Projective::msm(&b, &s).unwrap().serialize_compressed(&mut bytes).unwrap();
        G2 { bytes }
    }

    /// Multi-scalar multiplication `sum_k scalars[k] * bases[k]`; `MsmError`,
    /// naming `operation`, when the two sequences differ in length.
    pub fn msm(bases: &Vec<G2>, scalars: &Vec<Fr>, operation: &str) -> (r: Result<G2, SteError>)
        ensures
            r.is_ok() <==> bases@.len() == scalars@.len(),
            r matches Ok(v) ==> v@ == g2_msm_of(g2_views(bases@), fr_views(scalars@)),
            r matches Err(e) ==> e is MsmError,
    {
        if bases.len() != scalars.len() {
            let mut m = "MSM failed in ".to_string();
            m.append(operation);
            m.append(": bases and scalars differ in length");
            return Err(SteError::MsmError(m));
        }
        Ok(G2::msm_same_len(bases, scalars))
    }

    /// `v[i]` times this element, for each `i`.
    pub fn batch_mul(&self, v: &Vec<Fr>) -> (r: Vec<G2>)
        ensures
            r@.len() == v@.len(),
            forall|i: int| 0 <= i < v@.len() ==> #[trigger] r@[i]@ == g2_mul_of(self@, v@[i]@),
            forall|i: int| 0 <= i < v@.len() && v@[i]@ == fr_u64_bytes(1) ==> #[trigger] r@[i]@ == self@,
    {
        self.batch_mul_ark(v)
    }

    /// Relies on `ScalarMul::batch_mul` of `G2Projective`, documented as computing
    /// `v[0] * g, ..., v[n-1] * g`; a scalar one gives `g` itself.
    #[verifier::external_body]
    fn batch_mul_ark(&self, v: &Vec<Fr>) -> (r: Vec<G2>)
        ensures
            r@.len() == v@.len(),
            forall|i: int| 0 <= i < v@.len() ==> #[trigger] r@[i]@ == g2_mul_of(self@, v@[i]@),
            forall|i: int| 0 <= i < v@.len() && v@[i]@ == fr_u64_bytes(1) ==> #[trigger] r@[i]@ == self@,
    {
        let g = G2Projective::from(G2Affine::deserialize_compressed_unchecked(&self.bytes[..]).unwrap());
        let s: Vec<ArkFr> = v.iter()
            .map(|x| ArkFr::deserialize_compressed_unchecked(&x.bytes[..]).unwrap()).collect();
        g.batch_mul(&s).iter().map(|p| {
            let mut bytes = Vec::new();
            p.serialize_compressed(&mut bytes).unwrap();
            G2 { bytes }
        }).collect()
    }

    /// A copy of the element.
    pub fn copy(&self) -> (r: G2)
        ensures
            r@ == self@,
    {
        proof {
            use_type_invariant(self);
        }
        G2 { bytes: self.bytes.clone() }
    }

    /// Equality, by the compressed encodings.
    pub fn equals(&self, o: &G2) -> (r: bool)
        ensures
            r == (self@ == o@),
    {
        bytes_eq(&self.bytes, &o.bytes)
    }

    /// The compressed encoding.
    pub fn to_bytes(&self) -> (r: Vec<u8>)
        ensures
            r@ == self@,
    {
        self.bytes.clone()
    }

    /// Relies on `CanonicalDeserialize` for `G2Affine`, with validation
    /// (on the curve, in the subgroup, canonical).
    #[verifier::external_body]
    fn check_encoding(b: &Vec<u8>) -> (r: bool)
        ensures
            r == g2_valid(b@),
    {
        G2Affine::deserialize_compressed(&b[..]).is_ok()
    }

    /// Reads an element from exactly its compressed encoding.
    pub fn from_bytes(b: &Vec<u8>) -> (r: Result<G2, SteError>)
        ensures
            r.is_ok() <==> (b@.len() == G2_BYTES && g2_valid(b@)),
            r matches Ok(v) ==> v@ == b@,
            r matches Err(e) ==> e is SerializationError,
    {
        if b.len() != G2_BYTES || !G2::check_encoding(b) {
            return Err(SteError::SerializationError("invalid G2 encoding".to_string()));
        }
        Ok(G2 { bytes: b.clone() })
    }
}

// ---------------------------------------------------------------- target group

/// An element of the target group `GT`, held as its encoding.
#[derive(Debug)]
pub struct Gt {
    bytes: Vec<u8>,
}

impl View for Gt {
    type V = Seq<u8>;

    closed spec fn view(&self) -> Seq<u8> {
        self.bytes@
    }
}

impl Clone for Gt {
    fn clone(&self) -> (r: Self)
        ensures
            r@ == self@,
    {
        self.copy()
    }
}

impl Gt {
    #[verifier::type_invariant]
    spec fn inv(self) -> bool {
        self.bytes@.len() == GT_BYTES && gt_valid(self.bytes@)
    }

    /// The product of the pairings `e(a[k], b[k])`.
    pub fn multi_pairing(a: &Vec<G1>, b: &Vec<G2>) -> (r: Gt)
        requires
            a@.len() == b@.len(),
        ensures
            r@ == multi_pairing_of(g1_views(a@), g2_views(b@)),
    {
        Self::multi_pairing_ark(a, b)
    }

    /// Relies on `Pairing::multi_pairing` of `Bls12_381`: the product of
    /// `e(a[k], b[k])`, with one final exponentiation.
    #[verifier::external_body]
    fn multi_pairing_ark(a: &Vec<G1>, b: &Vec<G2>) -> (r: Gt)
        requires
            a@.len() == b@.len(),
        ensures
            r@ == multi_pairing_of(g1_views(a@), g2_views(b@)),
    {
        let x: Vec<G1Affine> = a.iter()
            .map(|p| G1Affine::deserialize_compressed_unchecked(&p.bytes[..]).unwrap()).collect();
        let y: Vec<G2Affine> = b.iter()
            .map(|p| G2Affine::deserialize_compressed_unchecked(&p.bytes[..]).unwrap()).collect();
        let mut bytes = Vec::new();
        Bls12_381::multi_pairing(x, y).serialize_compressed(&mut bytes).unwrap();
        Gt { bytes }
    }

    /// The pairing `e(a, b)`: a multi-pairing of one term.
    pub fn pairing(a: &G1, b: &G2) -> (r: Gt)
        ensures
            r@ == multi_pairing_of(seq![a@], seq![b@]),
    {
        let x = vec![a.copy()];
        let y = vec![b.copy()];
        assert(g1_views(x@) =~= seq![a@]);
        assert(g2_views(y@) =~= seq![b@]);
        Gt::multi_pairing(&x, &y)
    }

    /// The product.
    pub fn mul(&self, s: &Fr) -> (r: Gt)
        ensures
            r@ == gt_mul_of(self@, s@),
    {
        self.mul_ark(s)
    }

    /// Relies on the scalar multiplication of `PairingOutput<Bls12_381>`.
    #[verifier::external_body]
    fn mul_ark(&self, s: &Fr) -> (r: Gt)
        ensures
            r@ == gt_mul_of(self@, s@),
    {
        let p = PairingOutput::<Bls12_381>::deserialize_compressed_unchecked(&self.bytes[..]).unwrap();
        let x = ArkFr::deserialize_compressed_unchecked(&s.bytes[..]).unwrap();
        let mut bytes = Vec::new();
        (p * x).serialize_compressed(&mut bytes).unwrap();
        Gt { bytes }
    }

    /// A copy of the element.
    pub fn copy(&self) -> (r: Gt)
        ensures
            r@ == self@,
    {
        proof {
            use_type_invariant(self);
        }
        Gt { bytes: self.bytes.clone() }
    }

    /// Equality, by the canonical encodings, compared in constant time.
    pub fn equals(&self, o: &Gt) -> (r: bool)
        ensures
            r == (self@ == o@),
    {
        bytes_eq(&self.bytes, &o.bytes)
    }

    /// The encoding.
    pub fn to_bytes(&self) -> (r: Vec<u8>)
        ensures
            r@ == self@,
    {
        self.bytes.clone()
    }

    /// Relies on `CanonicalDeserialize` for `PairingOutput<Bls12_381>`, with validation.
    #[verifier::external_body]
    fn check_encoding(b: &Vec<u8>) -> (r: bool)
        ensures
            r == gt_valid(b@),
    {
        PairingOutput::<Bls12_381>::deserialize_compressed(&b[..]).is_ok()
    }

    /// Reads an element from exactly its encoding.
    pub fn from_bytes(b: &Vec<u8>) -> (r: Result<Gt, SteError>)
        ensures
            r.is_ok() <==> (b@.len() == GT_BYTES && gt_valid(b@)),
            r matches Ok(v) ==> v@ == b@,
            r matches Err(e) ==> e is SerializationError,
    {
        if b.len() != GT_BYTES || !Gt::check_encoding(b) {
            return Err(SteError::SerializationError("invalid GT encoding".to_string()));
        }
        Ok(Gt { bytes: b.clone() })
    }
}

// ---------------------------------------------------------------- vectors of G1

/// Whether `b` holds, from `pos`, a count `k` in 8 little-endian bytes
/// followed by `k` valid compressed `G1` encodings.
pub open spec fn g1s_decodable(b: Seq<u8>, pos: int) -> bool {
    &&& 0 <= pos
    &&& pos + 8 <= b.len()
    &&& pos + 8 + 48 * le_u64(b.subrange(pos, pos + 8)) <= b.len()
    &&& forall|i: int|
        0 <= i < le_u64(b.subrange(pos, pos + 8)) ==> g1_valid(
            #[trigger] b.subrange(pos + 8 + 48 * i, pos + 8 + 48 * i + 48),
        )
}

/// Appends the count of `v` in 8 little-endian bytes, then each element.
pub fn write_g1s(out: &mut Vec<u8>, v: &Vec<G1>)
    ensures
        final(out)@ == old(out)@ + vec_encoding(g1_views(v@)),
{
    put_u64(out, v.len() as u64);
    let ghost start = out@;
    let mut i: usize = 0;
    while i < v.len()
        invariant
            i <= v@.len(),
            out@ == start + flat(g1_views(v@.subrange(0, i as int))),
        decreases v@.len() - i,
    {
        let mut x = v[i].to_bytes();
        out.append(&mut x);
        assert(g1_views(v@.subrange(0, i + 1)).drop_last() =~= g1_views(v@.subrange(0, i as int)));
        i = i + 1;
    }
    assert(v@.subrange(0, v@.len() as int) =~= v@);
}

/// Reads, from `pos`, a count and that many `G1` elements; returns them with
/// the position after them. `SerializationError` unless `g1s_decodable`.
pub fn read_g1s(b: &Vec<u8>, pos: usize) -> (r: Result<(Vec<G1>, usize), SteError>)
    ensures
        r is Ok <==> g1s_decodable(b@, pos as int),
        r matches Ok((v, next)) ==> {
            &&& next == pos + 8 + 48 * v@.len()
            &&& next <= b@.len()
            &&& v@.len() == le_u64(b@.subrange(pos as int, pos + 8))
            &&& b@.subrange(pos as int, next as int) == vec_encoding(g1_views(v@))
            &&& all_width(g1_views(v@), 48)
            &&& g1s_valid(v@)
        },
        r matches Err(e) ==> e is SerializationError,
{
    let bl = b.len();
    if pos > bl || bl - pos < 8 {
        return Err(SteError::SerializationError("missing element count".to_string()));
    }
    let k64 = get_u64(b, pos);
    let room = (bl - pos - 8) / 48;
    if k64 > room as u64 {
        return Err(SteError::SerializationError("element count beyond the input".to_string()));
    }
    let k = k64 as usize;
    assert(pos + 8 + 48 * k <= bl) by (nonlinear_arith)
        requires
            k <= room,
            room == (bl - pos - 8) / 48,
            pos + 8 <= bl,
    ;
    let mut v: Vec<G1> = Vec::new();
    let mut i: usize = 0;
    while i < k
        invariant
            bl == b@.len(),
            pos + 8 + 48 * k <= bl,
            k == le_u64(b@.subrange(pos as int, pos + 8)),
            i <= k,
            v@.len() == i,
            forall|m: int| 0 <= m < i ==> g1_valid(#[trigger] b@.subrange(pos + 8 + 48 * m, pos + 8 + 48 * m + 48)),
            forall|m: int| 0 <= m < i ==> (#[trigger] v@[m])@ == b@.subrange(pos + 8 + 48 * m, pos + 8 + 48 * m + 48),
            forall|m: int| 0 <= m < i ==> g1_valid((#[trigger] v@[m])@) && v@[m]@.len() == 48,
        decreases k - i,
    {
        assert(pos + 8 + 48 * i + 48 <= bl) by (nonlinear_arith)
            requires
                i < k,
                pos + 8 + 48 * k <= bl,
        ;
        let bytes = take(b, pos + 8 + 48 * i, 48);
        match G1::from_bytes(&bytes) {
            Ok(x) => v.push(x),
            Err(e) => {
                return Err(e);
            },
        }
        i = i + 1;
    }
    let next = pos + 8 + 48 * k;
    proof {
        let views = g1_views(v@);
        assert(all_width(views, 48));
        crate::codec::lemma_flat_chunks(views, 48);
        crate::codec::lemma_u64_le(0, b@.subrange(pos as int, pos + 8));
        let body = b@.subrange(pos + 8, next as int);
        assert forall|m: int| 0 <= m < 48 * k implies #[trigger] body[m] == flat(views)[m] by {
            let q = m / 48;
            let r = m % 48;
            assert(m == 48 * q + r && 0 <= q < k && 0 <= r < 48) by (nonlinear_arith)
                requires
                    0 <= m < 48 * k,
                    q == m / 48,
                    r == m % 48,
            ;
            assert(flat(views).subrange(48 * q, 48 * q + 48) == views[q]);
            assert(flat(views)[m] == views[q][r]);
        }
        assert(body =~= flat(views));
        assert(b@.subrange(pos as int, next as int) =~= b@.subrange(pos as int, pos + 8) + body);
    }
    Ok((v, next))
}

// ---------------------------------------------------------------- vectors of G2

/// Whether `b` holds, from `pos`, a count `k` in 8 little-endian bytes
/// followed by `k` valid compressed `G2` encodings.
pub open spec fn g2s_decodable(b: Seq<u8>, pos: int) -> bool {
    &&& 0 <= pos
    &&& pos + 8 <= b.len()
    &&& pos + 8 + 96 * le_u64(b.subrange(pos, pos + 8)) <= b.len()
    &&& forall|i: int|
        0 <= i < le_u64(b.subrange(pos, pos + 8)) ==> g2_valid(
            #[trigger] b.subrange(pos + 8 + 96 * i, pos + 8 + 96 * i + 96),
        )
}

/// Appends the count of `v` in 8 little-endian bytes, then each element.
pub fn write_g2s(out: &mut Vec<u8>, v: &Vec<G2>)
    ensures
        final(out)@ == old(out)@ + vec_encoding(g2_views(v@)),
{
    put_u64(out, v.len() as u64);
    let ghost start = out@;
    let mut i: usize = 0;
    while i < v.len()
        invariant
            i <= v@.len(),
            out@ == start + flat(g2_views(v@.subrange(0, i as int))),
        decreases v@.len() - i,
    {
        let mut x = v[i].to_bytes();
        out.append(&mut x);
        assert(g2_views(v@.subrange(0, i + 1)).drop_last() =~= g2_views(v@.subrange(0, i as int)));
        i = i + 1;
    }
    assert(v@.subrange(0, v@.len() as int) =~= v@);
}

/// Reads, from `pos`, a count and that many `G2` elements; returns them with
/// the position after them. `SerializationError` unless `g2s_decodable`.
pub fn read_g2s(b: &Vec<u8>, pos: usize) -> (r: Result<(Vec<G2>, usize), SteError>)
    ensures
        r is Ok <==> g2s_decodable(b@, pos as int),
        r matches Ok((v, next)) ==> {
            &&& next == pos + 8 + 96 * v@.len()
            &&& next <= b@.len()
            &&& v@.len() == le_u64(b@.subrange(pos as int, pos + 8))
            &&& b@.subrange(pos as int, next as int) == vec_encoding(g2_views(v@))
            &&& all_width(g2_views(v@), 96)
            &&& g2s_valid(v@)
        },
        r matches Err(e) ==> e is SerializationError,
{
    let bl = b.len();
    if pos > bl || bl - pos < 8 {
        return Err(SteError::SerializationError("missing element count".to_string()));
    }
    let k64 = get_u64(b, pos);
    let room = (bl - pos - 8) / 96;
    if k64 > room as u64 {
        return Err(SteError::SerializationError("element count beyond the input".to_string()));
    }
    let k = k64 as usize;
    assert(pos + 8 + 96 * k <= bl) by (nonlinear_arith)
        requires
            k <= room,
            room == (bl - pos - 8) / 96,
            pos + 8 <= bl,
    ;
    let mut v: Vec<G2> = Vec::new();
    let mut i: usize = 0;
    while i < k
        invariant
            bl == b@.len(),
            pos + 8 + 96 * k <= bl,
            k == le_u64(b@.subrange(pos as int, pos + 8)),
            i <= k,
            v@.len() == i,
            forall|m: int| 0 <= m < i ==> g2_valid(#[trigger] b@.subrange(pos + 8 + 96 * m, pos + 8 + 96 * m + 96)),
            forall|m: int| 0 <= m < i ==> (#[trigger] v@[m])@ == b@.subrange(pos + 8 + 96 * m, pos + 8 + 96 * m + 96),
            forall|m: int| 0 <= m < i ==> g2_valid((#[trigger] v@[m])@) && v@[m]@.len() == 96,
        decreases k - i,
    {
        assert(pos + 8 + 96 * i + 96 <= bl) by (nonlinear_arith)
            requires
                i < k,
                pos + 8 + 96 * k <= bl,
        ;
        let bytes = take(b, pos + 8 + 96 * i, 96);
        match G2::from_bytes(&bytes) {
            Ok(x) => v.push(x),
            Err(e) => {
                return Err(e);
            },
        }
        i = i + 1;
    }
    let next = pos + 8 + 96 * k;
    proof {
        let views = g2_views(v@);
        assert(all_width(views, 96));
        crate::codec::lemma_flat_chunks(views, 96);
        crate::codec::lemma_u64_le(0, b@.subrange(pos as int, pos + 8));
        let body = b@.subrange(pos + 8, next as int);
        assert forall|m: int| 0 <= m < 96 * k implies #[trigger] body[m] == flat(views)[m] by {
            let q = m / 96;
            let r = m % 96;
            assert(m == 96 * q + r && 0 <= q < k && 0 <= r < 96) by (nonlinear_arith)
                requires
                    0 <= m < 96 * k,
                    q == m / 96,
                    r == m % 96,
            ;
            assert(flat(views).subrange(96 * q, 96 * q + 96) == views[q]);
            assert(flat(views)[m] == views[q][r]);
        }
        assert(body =~= flat(views));
        assert(b@.subrange(pos as int, next as int) =~= b@.subrange(pos as int, pos + 8) + body);
    }
    Ok((v, next))
}

// ---------------------------------------------------------------- layout lemmas

/// Where a counted vector of `G1` elements that starts at `pos` ends.
pub open spec fn g1s_end(b: Seq<u8>, pos: int) -> int {
    pos + 8 + 48 * le_u64(b.subrange(pos, pos + 8))
}

/// Where a counted vector of `G2` elements that starts at `pos` ends.
pub open spec fn g2s_end(b: Seq<u8>, pos: int) -> int {
    pos + 8 + 96 * le_u64(b.subrange(pos, pos + 8))
}

/// Whether every element of `v` has a valid encoding of its size, and there
/// are at most `u64::MAX` of them.
pub open spec fn g1s_valid(v: Seq<G1>) -> bool {
    &&& v.len() <= u64::MAX
    &&& forall|i: int| 0 <= i < v.len() ==> (#[trigger] v[i])@.len() == G1_BYTES && g1_valid(v[i]@)
}

/// A counted vector of valid elements embedded at `pos` decodes there, and
/// ends after its encoding.
pub proof fn lemma_g1s_at(b: Seq<u8>, pos: int, v: Seq<G1>)
    requires
        g1s_valid(v),
        0 <= pos,
        pos + vec_encoding(g1_views(v)).len() <= b.len(),
        b.subrange(pos, pos + vec_encoding(g1_views(v)).len()) == vec_encoding(g1_views(v)),
    ensures
        vec_encoding(g1_views(v)).len() == 8 + 48 * v.len(),
        g1s_decodable(b, pos),
        g1s_end(b, pos) == pos + 8 + 48 * v.len(),
{
    let views = g1_views(v);
    let e = vec_encoding(views);
    let k = v.len() as int;
    assert(all_width(views, 48));
    lemma_flat_chunks(views, 48);
    lemma_u64_le(k as u64, seq![]);
    assert(b.subrange(pos, pos + 8) =~= e.subrange(0, 8));
    assert(e.subrange(0, 8) =~= u64_le(k as u64));
    assert forall|i: int| 0 <= i < le_u64(b.subrange(pos, pos + 8)) implies g1_valid(
        #[trigger] b.subrange(pos + 8 + 48 * i, pos + 8 + 48 * i + 48),
    ) by {
        assert(0 <= 48 * i && 48 * i + 48 <= 48 * k) by (nonlinear_arith)
            requires
                0 <= i < k,
        ;
        assert(b.subrange(pos + 8 + 48 * i, pos + 8 + 48 * i + 48) =~= e.subrange(8 + 48 * i, 8 + 48 * i + 48));
        assert(e.subrange(8 + 48 * i, 8 + 48 * i + 48) =~= flat(views).subrange(48 * i, 48 * i + 48));
        assert(views[i] == v[i]@);
    }
}

/// Two vectors of valid elements whose counted encodings are equal hold the
/// same elements.
pub proof fn lemma_g1s_injective(v: Seq<G1>, w: Seq<G1>)
    requires
        g1s_valid(v),
        g1s_valid(w),
        vec_encoding(g1_views(v)) == vec_encoding(g1_views(w)),
    ensures
        g1_views(v) == g1_views(w),
{
    let a = g1_views(v);
    let c = g1_views(w);
    assert(all_width(a, 48));
    assert(all_width(c, 48));
    lemma_u64_le(v.len() as u64, seq![]);
    lemma_u64_le(w.len() as u64, seq![]);
    assert(vec_encoding(a).subrange(0, 8) =~= u64_le(v.len() as u64));
    assert(vec_encoding(c).subrange(0, 8) =~= u64_le(w.len() as u64));
    assert(flat(a) =~= vec_encoding(a).subrange(8, vec_encoding(a).len() as int));
    assert(flat(c) =~= vec_encoding(c).subrange(8, vec_encoding(c).len() as int));
    lemma_flat_injective(a, c, 48);
}

/// Whether every element of `v` has a valid encoding of its size, and there
/// are at most `u64::MAX` of them.
pub open spec fn g2s_valid(v: Seq<G2>) -> bool {
    &&& v.len() <= u64::MAX
    &&& forall|i: int| 0 <= i < v.len() ==> (#[trigger] v[i])@.len() == G2_BYTES && g2_valid(v[i]@)
}

/// A counted vector of valid elements embedded at `pos` decodes there, and
/// ends after its encoding.
pub proof fn lemma_g2s_at(b: Seq<u8>, pos: int, v: Seq<G2>)
    requires
        g2s_valid(v),
        0 <= pos,
        pos + vec_encoding(g2_views(v)).len() <= b.len(),
        b.subrange(pos, pos + vec_encoding(g2_views(v)).len()) == vec_encoding(g2_views(v)),
    ensures
        vec_encoding(g2_views(v)).len() == 8 + 96 * v.len(),
        g2s_decodable(b, pos),
        g2s_end(b, pos) == pos + 8 + 96 * v.len(),
{
    let views = g2_views(v);
    let e = vec_encoding(views);
    let k = v.len() as int;
    assert(all_width(views, 96));
    lemma_flat_chunks(views, 96);
    lemma_u64_le(k as u64, seq![]);
    assert(b.subrange(pos, pos + 8) =~= e.subrange(0, 8));
    assert(e.subrange(0, 8) =~= u64_le(k as u64));
    assert forall|i: int| 0 <= i < le_u64(b.subrange(pos, pos + 8)) implies g2_valid(
        #[trigger] b.subrange(pos + 8 + 96 * i, pos + 8 + 96 * i + 96),
    ) by {
        assert(0 <= 96 * i && 96 * i + 96 <= 96 * k) by (nonlinear_arith)
            requires
                0 <= i < k,
        ;
        assert(b.subrange(pos + 8 + 96 * i, pos + 8 + 96 * i + 96) =~= e.subrange(8 + 96 * i, 8 + 96 * i + 96));
        assert(e.subrange(8 + 96 * i, 8 + 96 * i + 96) =~= flat(views).subrange(96 * i, 96 * i + 96));
        assert(views[i] == v[i]@);
    }
}

/// Two vectors of valid elements whose counted encodings are equal hold the
/// same elements.
pub proof fn lemma_g2s_injective(v: Seq<G2>, w: Seq<G2>)
    requires
        g2s_valid(v),
        g2s_valid(w),
        vec_encoding(g2_views(v)) == vec_encoding(g2_views(w)),
    ensures
        g2_views(v) == g2_views(w),
{
    let a = g2_views(v);
    let c = g2_views(w);
    assert(all_width(a, 96));
    assert(all_width(c, 96));
    lemma_u64_le(v.len() as u64, seq![]);
    lemma_u64_le(w.len() as u64, seq![]);
    assert(vec_encoding(a).subrange(0, 8) =~= u64_le(v.len() as u64));
    assert(vec_encoding(c).subrange(0, 8) =~= u64_le(w.len() as u64));
    assert(flat(a) =~= vec_encoding(a).subrange(8, vec_encoding(a).len() as int));
    assert(flat(c) =~= vec_encoding(c).subrange(8, vec_encoding(c).len() as int));
    lemma_flat_injective(a, c, 96);
}

} // verus!
