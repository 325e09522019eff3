//! The powers-of-tau transcript and KZG commitments.
use vstd::prelude::*;

use crate::algebra::{
    g1_valid, g1s_decodable, g2_valid, g2s_decodable, read_g1s, read_g2s, write_g1s, write_g2s,
    fr_mul_of, fr_u64_bytes, fr_views, g1_generator, g1_msm_of, g1_mul_of, g1_views,
    g2_generator, g2_msm_of, g2_mul_of, g2_views, Fr, G1, G2,
};
use crate::codec::{all_width, flat, le_u64, lemma_flat_chunks, lemma_flat_injective, lemma_u64_le, u64_le, vec_encoding};
use crate::error::SteError;
use crate::poly::{degree_of, lemma_degree_bound, Poly};

verus! {

/// `t^i`, multiplied out from `t^1 = t` (and `t^0 = 1`).
pub open spec fn fr_power(t: Seq<u8>, i: nat) -> Seq<u8>
    decreases i,
{
    if i == 0 {
        fr_u64_bytes(1)
    } else if i == 1 {
        t
    } else {
        fr_mul_of(fr_power(t, (i - 1) as nat), t)
    }
}

/// Number of leading coefficients a commitment uses: the degree plus one, or
/// none for the empty coefficient sequence.
pub open spec fn commit_len(p: Seq<Seq<u8>>) -> nat {
    if p.len() == 0 {
        0
    } else {
        degree_of(p) + 1
    }
}

/// The structured reference string `{tau^i * g}` and `{tau^i * h}`.
#[derive(Debug, Clone)]
pub struct PowersOfTau {
    pub powers_of_g: Vec<G1>,
    pub powers_of_h: Vec<G2>,
}

/// Whether a transcript is that of `tau` up to degree `d`.
pub open spec fn is_transcript_of(p: PowersOfTau, tau: Seq<u8>, d: nat) -> bool {
    &&& p.powers_of_g@.len() == d + 1
    &&& p.powers_of_h@.len() == d + 1
    &&& forall|i: int|
        0 <= i <= d ==> #[trigger] p.powers_of_g@[i]@ == g1_mul_of(
            g1_generator(),
            fr_power(tau, i as nat),
        )
    &&& forall|i: int|
        0 <= i <= d ==> #[trigger] p.powers_of_h@[i]@ == g2_mul_of(
            g2_generator(),
            fr_power(tau, i as nat),
        )
}

/// `[1, t, t^2, ..., t^d]`.
pub fn powers_of(t: &Fr, d: usize) -> (r: Vec<Fr>)
    requires
        d < usize::MAX,
    ensures
        r@.len() == d + 1,
        forall|i: int| 0 <= i <= d ==> #[trigger] r@[i]@ == fr_power(t@, i as nat),
{
    let mut r: Vec<Fr> = Vec::new();
    r.push(Fr::one());
    let mut cur = t.copy();
    let mut i: usize = 0;
    while i < d
        invariant
            i <= d,
            r@.len() == i + 1,
            cur@ == fr_power(t@, (i + 1) as nat),
            forall|k: int| 0 <= k <= i ==> #[trigger] r@[k]@ == fr_power(t@, k as nat),
        decreases d - i,
    {
        r.push(cur.copy());
        cur = cur.mul(t);
        i = i + 1;
    }
    r
}

impl PowersOfTau {
    /// The transcript of a known `tau` up to degree `max_degree`, from the
    /// generators by batched scalar multiplication. `KzgError` for degree zero.
    /// Meant for tests and single-party setups: otherwise the transcript comes
    /// from a ceremony.
    pub fn setup(max_degree: usize, tau: &Fr) -> (r: Result<PowersOfTau, SteError>)
        requires
            max_degree < usize::MAX,
        ensures
            r.is_ok() <==> max_degree >= 1,
            r matches Ok(p) ==> is_transcript_of(p, tau@, max_degree as nat),
            r matches Err(e) ==> e is KzgError,
    {
        if max_degree < 1 {
            return Err(SteError::KzgError("degree must be at least one".to_string()));
        }
        let powers = powers_of(tau, max_degree);
        let g = G1::generator();
        let h = G2::generator();
        let powers_of_g = g.batch_mul(&powers);
        let powers_of_h = h.batch_mul(&powers);
        Ok(PowersOfTau { powers_of_g, powers_of_h })
    }

    /// Commitment in `G1` to `p`: `sum_i p_i * (tau^i * g)`. `KzgError` when the
    /// degree of `p` is beyond the transcript.
    pub fn commit_g1(&self, p: &Poly) -> (r: Result<G1, SteError>)
        ensures
            r.is_ok() <==> commit_len(p@) <= self.powers_of_g@.len(),
            r matches Ok(c) ==> c@ == g1_msm_of(
                g1_views(self.powers_of_g@.subrange(0, commit_len(p@) as int)),
                p@.subrange(0, commit_len(p@) as int),
            ),
            r matches Err(e) ==> e is KzgError,
    {
        proof {
            lemma_degree_bound(p@);
        }
        let k = if p.coeffs.len() == 0 { 0 } else { p.degree() + 1 };
        if k > self.powers_of_g.len() {
            return Err(SteError::KzgError("polynomial degree exceeds the transcript".to_string()));
        }
        let mut bases: Vec<G1> = Vec::new();
        let mut scalars: Vec<Fr> = Vec::new();
        let mut i: usize = 0;
        while i < k
            invariant
                k <= self.powers_of_g@.len(),
                k <= p.coeffs@.len(),
                i <= k,
                bases@.len() == i,
                scalars@.len() == i,
                forall|j: int| 0 <= j < i ==> #[trigger] bases@[j]@ == self.powers_of_g@[j]@,
                forall|j: int| 0 <= j < i ==> #[trigger] scalars@[j]@ == p.coeffs@[j]@,
            decreases k - i,
        {
            bases.push(self.powers_of_g[i].copy());
            scalars.push(p.coeffs[i].copy());
            i = i + 1;
        }
        assert(g1_views(bases@) =~= g1_views(self.powers_of_g@.subrange(0, k as int)));
        assert(fr_views(scalars@) =~= p@.subrange(0, k as int));
        let c = G1::msm(&bases, &scalars, "commit_g1");
        match c {
            Ok(c) => Ok(c),
            Err(e) => Err(e),
        }
    }

    /// Commitment in `G2` to `p`: `sum_i p_i * (tau^i * h)`. `KzgError` when the
    /// degree of `p` is beyond the transcript.
    pub fn commit_g2(&self, p: &Poly) -> (r: Result<G2, SteError>)
        ensures
            r.is_ok() <==> commit_len(p@) <= self.powers_of_h@.len(),
            r matches Ok(c) ==> c@ == g2_msm_of(
                g2_views(self.powers_of_h@.subrange(0, commit_len(p@) as int)),
                p@.subrange(0, commit_len(p@) as int),
            ),
            r matches Err(e) ==> e is KzgError,
    {
        proof {
            lemma_degree_bound(p@);
        }
        let k = if p.coeffs.len() == 0 { 0 } else { p.degree() + 1 };
        if k > self.powers_of_h.len() {
            return Err(SteError::KzgError("polynomial degree exceeds the transcript".to_string()));
        }
        let mut bases: Vec<G2> = Vec::new();
        let mut scalars: Vec<Fr> = Vec::new();
        let mut i: usize = 0;
        while i < k
            invariant
                k <= self.powers_of_h@.len(),
                k <= p.coeffs@.len(),
                i <= k,
                bases@.len() == i,
                scalars@.len() == i,
                forall|j: int| 0 <= j < i ==> #[trigger] bases@[j]@ == self.powers_of_h@[j]@,
                forall|j: int| 0 <= j < i ==> #[trigger] scalars@[j]@ == p.coeffs@[j]@,
            decreases k - i,
        {
            bases.push(self.powers_of_h[i].copy());
            scalars.push(p.coeffs[i].copy());
            i = i + 1;
        }
        assert(g2_views(bases@) =~= g2_views(self.powers_of_h@.subrange(0, k as int)));
        assert(fr_views(scalars@) =~= p@.subrange(0, k as int));
        let c = G2::msm(&bases, &scalars, "commit_g2");
        match c {
            Ok(c) => Ok(c),
            Err(e) => Err(e),
        }
    }
}

/// The encoding of a transcript: the counted powers of `g`, then the counted
/// powers of `h`.
pub open spec fn ptau_encoding(p: PowersOfTau) -> Seq<u8> {
    vec_encoding(g1_views(p.powers_of_g@)) + vec_encoding(g2_views(p.powers_of_h@))
}

/// Where the powers of `h` start in an encoding.
pub open spec fn ptau_mid(b: Seq<u8>) -> int {
    8 + 48 * le_u64(b.subrange(0, 8))
}

/// Whether `b` is the encoding of a transcript.
pub open spec fn ptau_decodable(b: Seq<u8>) -> bool {
    &&& g1s_decodable(b, 0)
    &&& g2s_decodable(b, ptau_mid(b))
    &&& b.len() == ptau_mid(b) + 8 + 96 * le_u64(b.subrange(ptau_mid(b), ptau_mid(b) + 8))
}

/// Whether every power has a valid encoding of its size, as the types
/// guarantee of every transcript.
pub open spec fn ptau_valid(p: PowersOfTau) -> bool {
    &&& forall|i: int| 0 <= i < p.powers_of_g@.len() ==> (#[trigger] p.powers_of_g@[i])@.len() == 48
        && g1_valid(p.powers_of_g@[i]@)
    &&& forall|i: int| 0 <= i < p.powers_of_h@.len() ==> (#[trigger] p.powers_of_h@[i])@.len() == 96
        && g2_valid(p.powers_of_h@[i]@)
    &&& p.powers_of_g@.len() <= u64::MAX
    &&& p.powers_of_h@.len() <= u64::MAX
}

/// The parts of the encoding of a valid transcript.
proof fn lemma_ptau_parts(p: PowersOfTau)
    requires
        ptau_valid(p),
    ensures
        ({
            let b = ptau_encoding(p);
            let kg = p.powers_of_g@.len() as int;
            let kh = p.powers_of_h@.len() as int;
            &&& b.subrange(0, 8) == u64_le(kg as u64)
            &&& le_u64(b.subrange(0, 8)) == kg
            &&& ptau_mid(b) == 8 + 48 * kg
            &&& b.subrange(8, 8 + 48 * kg) == flat(g1_views(p.powers_of_g@))
            &&& b.subrange(8 + 48 * kg, 16 + 48 * kg) == u64_le(kh as u64)
            &&& le_u64(b.subrange(8 + 48 * kg, 16 + 48 * kg)) == kh
            &&& b.subrange(16 + 48 * kg, 16 + 48 * kg + 96 * kh) == flat(g2_views(p.powers_of_h@))
            &&& b.len() == 16 + 48 * kg + 96 * kh
            &&& all_width(g1_views(p.powers_of_g@), 48)
            &&& all_width(g2_views(p.powers_of_h@), 96)
        }),
{
    let b = ptau_encoding(p);
    let kg = p.powers_of_g@.len() as int;
    let kh = p.powers_of_h@.len() as int;
    let gv = g1_views(p.powers_of_g@);
    let hv = g2_views(p.powers_of_h@);
    assert(all_width(gv, 48));
    assert(all_width(hv, 96));
    lemma_flat_chunks(gv, 48);
    lemma_flat_chunks(hv, 96);
    lemma_u64_le(kg as u64, seq![]);
    lemma_u64_le(kh as u64, seq![]);
    assert(b.subrange(0, 8) =~= u64_le(kg as u64));
    assert(b.subrange(8, 8 + 48 * kg) =~= flat(gv));
    assert(b.subrange(8 + 48 * kg, 16 + 48 * kg) =~= u64_le(kh as u64));
    assert(b.subrange(16 + 48 * kg, 16 + 48 * kg + 96 * kh) =~= flat(hv));
}

/// Serialization round trip of transcripts: the encoding of a transcript
/// decodes, and the only transcript with that encoding is the transcript
/// itself.
pub proof fn lemma_transcript_round_trip(p: PowersOfTau, q: PowersOfTau)
    requires
        ptau_valid(p),
        ptau_valid(q),
    ensures
        ptau_decodable(ptau_encoding(p)),
        ptau_encoding(q) == ptau_encoding(p) ==> g1_views(q.powers_of_g@) == g1_views(p.powers_of_g@)
            && g2_views(q.powers_of_h@) == g2_views(p.powers_of_h@),
{
    lemma_ptau_parts(p);
    lemma_ptau_parts(q);
    let b = ptau_encoding(p);
    let kg = p.powers_of_g@.len() as int;
    let kh = p.powers_of_h@.len() as int;
    let gv = g1_views(p.powers_of_g@);
    let hv = g2_views(p.powers_of_h@);
    lemma_flat_chunks(gv, 48);
    lemma_flat_chunks(hv, 96);
    let z: int = 0;
    assert(b.subrange(z, z + 8) == b.subrange(0, 8));
    assert forall|i: int| 0 <= i < le_u64(b.subrange(z, z + 8)) implies g1_valid(
        #[trigger] b.subrange(z + 8 + 48 * i, z + 8 + 48 * i + 48),
    ) by {
        assert(0 <= 48 * i && 48 * i + 48 <= 48 * kg) by (nonlinear_arith)
            requires
                0 <= i < kg,
        ;
        assert(b.subrange(8 + 48 * i, 8 + 48 * i + 48) =~= b.subrange(8, 8 + 48 * kg).subrange(
            48 * i,
            48 * i + 48,
        ));
        assert(gv[i] == p.powers_of_g@[i]@);
    }
    assert(g1s_decodable(b, 0));
    let m = ptau_mid(b);
    assert(m == 8 + 48 * kg);
    assert forall|i: int| 0 <= i < le_u64(b.subrange(m, m + 8)) implies g2_valid(
        #[trigger] b.subrange(m + 8 + 96 * i, m + 8 + 96 * i + 96),
    ) by {
        assert(0 <= 96 * i && 96 * i + 96 <= 96 * kh) by (nonlinear_arith)
            requires
                0 <= i < kh,
        ;
        assert(b.subrange(m + 8 + 96 * i, m + 8 + 96 * i + 96) =~= b.subrange(
            16 + 48 * kg,
            16 + 48 * kg + 96 * kh,
        ).subrange(96 * i, 96 * i + 96));
        assert(hv[i] == p.powers_of_h@[i]@);
    }
    assert(g2s_decodable(b, m));
    if ptau_encoding(q) == b {
        assert(q.powers_of_g@.len() == kg);
        assert(q.powers_of_h@.len() == kh);
        lemma_flat_injective(g1_views(q.powers_of_g@), gv, 48);
        lemma_flat_injective(g2_views(q.powers_of_h@), hv, 96);
    }
}

impl PowersOfTau {
    /// The encoding (see `ptau_encoding`).
    pub fn to_bytes(&self) -> (r: Vec<u8>)
        ensures
            r@ == ptau_encoding(*self),
    {
        let mut out: Vec<u8> = Vec::new();
        write_g1s(&mut out, &self.powers_of_g);
        write_g2s(&mut out, &self.powers_of_h);
        assert(out@ =~= ptau_encoding(*self));
        out
    }

    /// Decodes a transcript; `SerializationError` unless the bytes are the
    /// encoding of one. Encoding the result gives the bytes back.
    pub fn from_bytes(b: &Vec<u8>) -> (r: Result<PowersOfTau, SteError>)
        ensures
            r is Ok <==> ptau_decodable(b@),
            r matches Ok(p) ==> ptau_encoding(p) == b@,
            r matches Err(e) ==> e is SerializationError,
    {
        let (powers_of_g, mid) = match read_g1s(b, 0) {
            Ok(v) => v,
            Err(e) => {
                return Err(e);
            },
        };
        assert(ptau_mid(b@) == mid);
        let (powers_of_h, end) = match read_g2s(b, mid) {
            Ok(v) => v,
            Err(e) => {
                return Err(e);
            },
        };
        if end != b.len() {
            return Err(SteError::SerializationError("trailing bytes after the transcript".to_string()));
        }
        proof {
            assert(b@ =~= b@.subrange(0, mid as int) + b@.subrange(mid as int, end as int));
        }
        Ok(PowersOfTau { powers_of_g, powers_of_h })
    }
}

} // verus!
