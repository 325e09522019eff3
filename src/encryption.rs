//! Encryption to an aggregate key.
use vstd::prelude::*;

use crate::algebra::{
    fr_add_of, g1_add_of, g1_mul_of, g1_valid, g2_add_of, g2_mul_of, g2_valid, gt_mul_of, gt_valid,
    Fr, Gt, G1, G1_BYTES, G2, G2_BYTES, GT_BYTES,
};
use crate::codec::{get_u64, le_u64, lemma_u64_le, take, u64_le};
use crate::error::SteError;
use crate::kzg::PowersOfTau;
use crate::setup::AggregateKey;

verus! {

/// Number of `G1` elements in the proof part `sa1`.
pub const SA1_SIZE: usize = 2;

/// Number of `G2` elements in the proof part `sa2`.
pub const SA2_SIZE: usize = 6;

/// Number of random scalars `s_0 .. s_4` an encryption draws besides `gamma`.
pub const ENCRYPTION_RANDOMNESS_SIZE: usize = 5;

/// A ciphertext: the randomized generator `gamma h`, the proof elements and
/// the encapsulated session key, for threshold `t`.
#[derive(Debug, Clone)]
pub struct Ciphertext {
    pub gamma_g2: G2,
    pub sa1: [G1; SA1_SIZE],
    pub sa2: [G2; SA2_SIZE],
    pub enc_key: Gt,
    pub t: usize,
}

impl Ciphertext {
    /// A ciphertext from its parts.
    pub fn new(gamma_g2: G2, sa1: [G1; SA1_SIZE], sa2: [G2; SA2_SIZE], enc_key: Gt, t: usize) -> (r: Ciphertext)
        ensures
            r == (Ciphertext { gamma_g2, sa1, sa2, enc_key, t }),
    {
        Ciphertext { gamma_g2, sa1, sa2, enc_key, t }
    }
}

/// Bytes in the encoding of a ciphertext.
pub const CIPHERTEXT_BYTES: usize = 1352;

/// The encoding of a ciphertext: its fields in order, then `t` as 8
/// little-endian bytes.
pub open spec fn ct_encoding(ct: Ciphertext) -> Seq<u8> {
    ct.gamma_g2@ + ct.sa1[0]@ + ct.sa1[1]@ + ct.sa2[0]@ + ct.sa2[1]@ + ct.sa2[2]@ + ct.sa2[3]@
        + ct.sa2[4]@ + ct.sa2[5]@ + ct.enc_key@ + u64_le(ct.t as u64)
}

/// The `len` bytes of `b` from `from`.
pub open spec fn chunk(b: Seq<u8>, from: int, len: int) -> Seq<u8> {
    b.subrange(from, from + len)
}

/// Offset of the `k`-th element of `sa2` in the encoding.
pub open spec fn sa2_at(k: int) -> int {
    192 + 96 * k
}

/// Whether `b` is the encoding of a ciphertext: the right length, a valid
/// element in each slot, and a threshold that fits a `usize`.
pub open spec fn ct_decodable(b: Seq<u8>) -> bool {
    &&& b.len() == CIPHERTEXT_BYTES
    &&& g2_valid(chunk(b, 0, 96))
    &&& g1_valid(chunk(b, 96, 48))
    &&& g1_valid(chunk(b, 144, 48))
    &&& forall|k: int| 0 <= k < 6 ==> g2_valid(#[trigger] chunk(b, sa2_at(k), 96))
    &&& gt_valid(chunk(b, 768, 576))
    &&& le_u64(chunk(b, 1344, 8)) <= usize::MAX
}

/// Whether every element of a ciphertext has a valid encoding of its size,
/// as the types guarantee of every ciphertext value.
pub open spec fn ct_valid(ct: Ciphertext) -> bool {
    &&& ct.gamma_g2@.len() == G2_BYTES && g2_valid(ct.gamma_g2@)
    &&& forall|k: int| 0 <= k < 2 ==> (#[trigger] ct.sa1[k])@.len() == G1_BYTES && g1_valid(ct.sa1[k]@)
    &&& forall|k: int| 0 <= k < 6 ==> (#[trigger] ct.sa2[k])@.len() == G2_BYTES && g2_valid(ct.sa2[k]@)
    &&& ct.enc_key@.len() == GT_BYTES && gt_valid(ct.enc_key@)
}

/// Whether two ciphertexts hold the same values.
pub open spec fn same_ct(a: Ciphertext, b: Ciphertext) -> bool {
    &&& a.gamma_g2@ == b.gamma_g2@
    &&& a.sa1[0]@ == b.sa1[0]@
    &&& a.sa1[1]@ == b.sa1[1]@
    &&& forall|k: int| 0 <= k < 6 ==> (#[trigger] a.sa2[k])@ == b.sa2[k]@
    &&& a.enc_key@ == b.enc_key@
    &&& a.t == b.t
}

/// The slots of the encoding of a valid ciphertext are its elements.
proof fn lemma_ct_chunks(ct: Ciphertext)
    requires
        ct_valid(ct),
    ensures
        ({
            let b = ct_encoding(ct);
            &&& b.len() == CIPHERTEXT_BYTES
            &&& chunk(b, 0, 96) == ct.gamma_g2@
            &&& chunk(b, 96, 48) == ct.sa1[0]@
            &&& chunk(b, 144, 48) == ct.sa1[1]@
            &&& forall|k: int| 0 <= k < 6 ==> #[trigger] chunk(b, sa2_at(k), 96) == ct.sa2[k]@
            &&& chunk(b, 768, 576) == ct.enc_key@
            &&& chunk(b, 1344, 8) == u64_le(ct.t as u64)
        }),
{
    let b = ct_encoding(ct);
    assert(ct.sa1[0]@.len() == 48 && ct.sa1[1]@.len() == 48);
    assert(ct.sa2[0]@.len() == 96 && ct.sa2[1]@.len() == 96 && ct.sa2[2]@.len() == 96);
    assert(ct.sa2[3]@.len() == 96 && ct.sa2[4]@.len() == 96 && ct.sa2[5]@.len() == 96);
    assert(chunk(b, 0, 96) =~= ct.gamma_g2@);
    assert(chunk(b, 96, 48) =~= ct.sa1[0]@);
    assert(chunk(b, 144, 48) =~= ct.sa1[1]@);
    assert(chunk(b, sa2_at(0), 96) =~= ct.sa2[0]@);
    assert(chunk(b, sa2_at(1), 96) =~= ct.sa2[1]@);
    assert(chunk(b, sa2_at(2), 96) =~= ct.sa2[2]@);
    assert(chunk(b, sa2_at(3), 96) =~= ct.sa2[3]@);
    assert(chunk(b, sa2_at(4), 96) =~= ct.sa2[4]@);
    assert(chunk(b, sa2_at(5), 96) =~= ct.sa2[5]@);
    assert(chunk(b, 768, 576) =~= ct.enc_key@);
    assert(chunk(b, 1344, 8) =~= u64_le(ct.t as u64));
    assert forall|k: int| 0 <= k < 6 implies #[trigger] chunk(b, sa2_at(k), 96) == ct.sa2[k]@ by {
        if k == 0 {
        } else if k == 1 {
        } else if k == 2 {
        } else if k == 3 {
        } else if k == 4 {
        } else {
        }
    }
}

/// Serialization round trip: the encoding of a ciphertext decodes, and the
/// only ciphertext with that encoding is the ciphertext itself.
pub proof fn lemma_ciphertext_round_trip(ct: Ciphertext, other: Ciphertext)
    requires
        ct_valid(ct),
        ct_valid(other),
    ensures
        ct_decodable(ct_encoding(ct)),
        ct_encoding(other) == ct_encoding(ct) ==> same_ct(other, ct),
{
    lemma_ct_chunks(ct);
    lemma_ct_chunks(other);
    lemma_u64_le(ct.t as u64, seq![]);
    lemma_u64_le(other.t as u64, seq![]);
    let b = ct_encoding(ct);
    assert forall|k: int| 0 <= k < 6 implies g2_valid(#[trigger] chunk(b, sa2_at(k), 96)) by {
        assert(chunk(b, sa2_at(k), 96) == ct.sa2[k]@);
    }
    if ct_encoding(other) == b {
        assert forall|k: int| 0 <= k < 6 implies (#[trigger] other.sa2[k])@ == ct.sa2[k]@ by {
            assert(chunk(b, sa2_at(k), 96) == ct.sa2[k]@);
        }
    }
}

impl Ciphertext {
    /// The encoding: `gamma_g2`, `sa1`, `sa2`, `enc_key`, then `t` in 8
    /// little-endian bytes.
    pub fn to_bytes(&self) -> (r: Vec<u8>)
        ensures
            r@ == ct_encoding(*self),
    {
        let mut out = self.gamma_g2.to_bytes();
        let mut x = self.sa1[0].to_bytes();
        out.append(&mut x);
        let mut x = self.sa1[1].to_bytes();
        out.append(&mut x);
        let mut k: usize = 0;
        while k < SA2_SIZE
            invariant
                k <= SA2_SIZE,
                out@ == self.gamma_g2@ + self.sa1[0]@ + self.sa1[1]@ + sa2_prefix(*self, k as int),
            decreases SA2_SIZE - k,
        {
            let mut x = self.sa2[k].to_bytes();
            out.append(&mut x);
            k = k + 1;
        }
        let mut x = self.enc_key.to_bytes();
        out.append(&mut x);
        crate::codec::put_u64(&mut out, self.t as u64);
        proof {
            reveal_with_fuel(sa2_prefix, 7);
        }
        assert(out@ =~= ct_encoding(*self));
        out
    }

    /// Decodes a ciphertext; `SerializationError` unless the bytes are the
    /// encoding of one. Encoding the result gives the bytes back.
    pub fn from_bytes(b: &Vec<u8>) -> (r: Result<Ciphertext, crate::error::SteError>)
        ensures
            r is Ok <==> ct_decodable(b@),
            r matches Ok(c) ==> ct_encoding(c) == b@,
            r matches Err(e) ==> e is SerializationError,
    {
        if b.len() != CIPHERTEXT_BYTES {
            return Err(crate::error::SteError::SerializationError("ciphertext length".to_string()));
        }
        let gamma_g2 = match G2::from_bytes(&take(b, 0, 96)) {
            Ok(v) => v,
            Err(e) => {
                return Err(e);
            },
        };
        let s0 = match G1::from_bytes(&take(b, 96, 48)) {
            Ok(v) => v,
            Err(e) => {
                return Err(e);
            },
        };
        let s1 = match G1::from_bytes(&take(b, 144, 48)) {
            Ok(v) => v,
            Err(e) => {
                return Err(e);
            },
        };
        let mut sa2: Vec<G2> = Vec::new();
        let mut k: usize = 0;
        while k < SA2_SIZE
            invariant
                b@.len() == CIPHERTEXT_BYTES,
                k <= SA2_SIZE,
                sa2@.len() == k,
                forall|m: int| 0 <= m < k ==> g2_valid(#[trigger] chunk(b@, sa2_at(m), 96)),
                forall|m: int| 0 <= m < k ==> (#[trigger] sa2@[m])@ == chunk(b@, sa2_at(m), 96),
            decreases SA2_SIZE - k,
        {
            let bytes = take(b, 192 + 96 * k, 96);
            assert(bytes@ == chunk(b@, sa2_at(k as int), 96));
            match G2::from_bytes(&bytes) {
                Ok(v) => sa2.push(v),
                Err(e) => {
                    assert(!g2_valid(chunk(b@, sa2_at(k as int), 96)));
                    return Err(e);
                },
            }
            k = k + 1;
        }
        let enc_key = match Gt::from_bytes(&take(b, 768, 576)) {
            Ok(v) => v,
            Err(e) => {
                return Err(e);
            },
        };
        let t = get_u64(b, 1344);
        if t > usize::MAX as u64 {
            return Err(crate::error::SteError::SerializationError("threshold too large".to_string()));
        }
        let a5 = sa2.pop().unwrap();
        let a4 = sa2.pop().unwrap();
        let a3 = sa2.pop().unwrap();
        let a2 = sa2.pop().unwrap();
        let a1 = sa2.pop().unwrap();
        let a0 = sa2.pop().unwrap();
        let ct = Ciphertext {
            gamma_g2,
            sa1: [s0, s1],
            sa2: [a0, a1, a2, a3, a4, a5],
            enc_key,
            t: t as usize,
        };
        proof {
            lemma_u64_le(0, chunk(b@, 1344, 8));
            assert(b@ =~= chunk(b@, 0, 96) + chunk(b@, 96, 48) + chunk(b@, 144, 48) + chunk(
                b@,
                sa2_at(0),
                96,
            ) + chunk(b@, sa2_at(1), 96) + chunk(b@, sa2_at(2), 96) + chunk(b@, sa2_at(3), 96)
                + chunk(b@, sa2_at(4), 96) + chunk(b@, sa2_at(5), 96) + chunk(b@, 768, 576) + chunk(
                b@,
                1344,
                8,
            ));
        }
        Ok(ct)
    }
}

/// The encodings of the first `k` elements of `sa2`, in order.
pub open spec fn sa2_prefix(ct: Ciphertext, k: int) -> Seq<u8>
    decreases k,
{
    if k <= 0 {
        seq![]
    } else {
        sa2_prefix(ct, k - 1) + ct.sa2[k - 1]@
    }
}

/// When encryption at threshold `t` succeeds: `1 <= t < n` and the transcript
/// reaches degree `t + 1` (and degree one in `G2`).
pub open spec fn encrypt_ok(ak: AggregateKey, t: nat, params: PowersOfTau) -> bool {
    &&& 1 <= t
    &&& t < ak.pk@.len()
    &&& t + 1 < params.powers_of_g@.len()
    &&& params.powers_of_h@.len() >= 2
}

/// Whether `ct` is the encryption under `ak` at threshold `t` with randomness
/// `gamma` and `s`.
pub open spec fn is_encryption(
    ct: Ciphertext,
    ak: AggregateKey,
    t: nat,
    params: PowersOfTau,
    gamma: Seq<u8>,
    s: Seq<Seq<u8>>,
) -> bool {
    let g = params.powers_of_g@[0]@;
    let h = params.powers_of_h@[0]@;
    let h_tau = params.powers_of_h@[1]@;
    let gamma_g2 = g2_mul_of(h, gamma);
    &&& ct.t == t
    &&& ct.gamma_g2@ == gamma_g2
    &&& ct.sa1[0]@ == g1_add_of(
        g1_add_of(g1_mul_of(ak.ask@, s[0]), g1_mul_of(params.powers_of_g@[(t + 1) as int]@, s[3])),
        g1_mul_of(g, s[4]),
    )
    &&& ct.sa1[1]@ == g1_mul_of(g, s[2])
    &&& ct.sa2[0]@ == g2_add_of(g2_mul_of(h, s[0]), g2_mul_of(gamma_g2, s[2]))
    &&& ct.sa2[1]@ == g2_mul_of(ak.z_g2@, s[0])
    &&& ct.sa2[2]@ == g2_mul_of(h_tau, fr_add_of(s[0], s[1]))
    &&& ct.sa2[3]@ == g2_mul_of(h, s[1])
    &&& ct.sa2[4]@ == g2_mul_of(h, s[3])
    &&& ct.sa2[5]@ == g2_mul_of(g2_add_of(h_tau, ak.h_minus1@), s[4])
    &&& ct.enc_key@ == gt_mul_of(ak.e_gh@, s[4])
}

/// Encryption with the given randomness `gamma` and `s_0 .. s_4`.
/// `InvalidParameter` unless `1 <= t < n` and the transcript reaches degree
/// `t + 1`.
pub fn encrypt_with(
    apk: &AggregateKey,
    t: usize,
    params: &PowersOfTau,
    gamma: &Fr,
    s: &[Fr; ENCRYPTION_RANDOMNESS_SIZE],
) -> (r: Result<Ciphertext, SteError>)
    ensures
        r.is_ok() <==> encrypt_ok(*apk, t as nat, *params),
        r matches Ok(ct) ==> is_encryption(ct, *apk, t as nat, *params, gamma@, s@.map_values(|x: Fr| x@)),
        r matches Err(e) ==> e is InvalidParameter,
{
    let n = apk.pk.len();
    if t == 0 {
        return Err(SteError::InvalidParameter("threshold must be at least 1".to_string()));
    }
    if t >= n {
        return Err(SteError::InvalidParameter("threshold must be < number of parties".to_string()));
    }
    if t + 1 >= params.powers_of_g.len() || params.powers_of_h.len() < 2 {
        return Err(SteError::InvalidParameter("t + 1 exceeds KZG parameters length".to_string()));
    }
    let g = &params.powers_of_g[0];
    let h = &params.powers_of_h[0];
    let h_tau = &params.powers_of_h[1];
    let gamma_g2 = h.mul(gamma);
    let sa1_0 = apk.ask.mul(&s[0]).add(&params.powers_of_g[t + 1].mul(&s[3])).add(&g.mul(&s[4]));
    let sa1_1 = g.mul(&s[2]);
    let sa2_0 = h.mul(&s[0]).add(&gamma_g2.mul(&s[2]));
    let sa2_1 = apk.z_g2.mul(&s[0]);
    let sa2_2 = h_tau.mul(&s[0].add(&s[1]));
    let sa2_3 = h.mul(&s[1]);
    let sa2_4 = h.mul(&s[3]);
    let sa2_5 = h_tau.add(&apk.h_minus1).mul(&s[4]);
    let enc_key = apk.e_gh.mul(&s[4]);
    Ok(Ciphertext {
        gamma_g2,
        sa1: [sa1_0, sa1_1],
        sa2: [sa2_0, sa2_1, sa2_2, sa2_3, sa2_4, sa2_5],
        enc_key,
        t,
    })
}

/// Encryption at threshold `t` with fresh randomness: the inputs are checked
/// first (`InvalidParameter`, drawing nothing), then `gamma` and `s_0 .. s_4`
/// are drawn uniformly (`RandomnessError` if the source fails), then
/// `encrypt_with`.
pub fn encrypt(apk: &AggregateKey, t: usize, params: &PowersOfTau) -> (r: Result<Ciphertext, SteError>)
    ensures
        r.is_ok() ==> encrypt_ok(*apk, t as nat, *params),
        !encrypt_ok(*apk, t as nat, *params) ==> r matches Err(SteError::InvalidParameter(_)),
        encrypt_ok(*apk, t as nat, *params) ==> r is Ok || r matches Err(SteError::RandomnessError(_)),
        r matches Ok(ct) ==> exists|gamma: Seq<u8>, s: Seq<Seq<u8>>|
            s.len() == ENCRYPTION_RANDOMNESS_SIZE && #[trigger] is_encryption(ct, *apk, t as nat, *params, gamma, s),
{
    if t == 0 || t >= apk.pk.len() || params.powers_of_g.len() <= t + 1 || params.powers_of_h.len() < 2 {
        return encrypt_with(apk, t, params, &Fr::zero(), &[Fr::zero(), Fr::zero(), Fr::zero(), Fr::zero(), Fr::zero()]);
    }
    let gamma = match Fr::rand() {
        Ok(x) => x,
        Err(e) => {
            return Err(e);
        },
    };
    let mut draws: Vec<Fr> = Vec::new();
    let mut k: usize = 0;
    while k < ENCRYPTION_RANDOMNESS_SIZE
        invariant
            encrypt_ok(*apk, t as nat, *params),
            k <= ENCRYPTION_RANDOMNESS_SIZE,
            draws@.len() == k,
        decreases ENCRYPTION_RANDOMNESS_SIZE - k,
    {
        match Fr::rand() {
            Ok(x) => draws.push(x),
            Err(e) => {
                return Err(e);
            },
        }
        k = k + 1;
    }
    let s4 = draws.pop().unwrap();
    let s3 = draws.pop().unwrap();
    let s2 = draws.pop().unwrap();
    let s1 = draws.pop().unwrap();
    let s0 = draws.pop().unwrap();
    let s = [s0, s1, s2, s3, s4];
    let r = encrypt_with(apk, t, params, &gamma, &s);
    proof {
        let sv = s@.map_values(|x: Fr| x@);
        assert(sv.len() == ENCRYPTION_RANDOMNESS_SIZE);
        if r is Ok {
            assert(is_encryption(r->Ok_0, *apk, t as nat, *params, gamma@, sv));
        }
    }
    r
}

} // verus!
