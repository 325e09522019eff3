//! Key material: the Lagrange preprocessing of a transcript, secret keys,
//! public keys with their hint commitments, and the aggregate key.
use vstd::prelude::*;

use crate::algebra::{
    all_zero, fr_inverse_of, fr_mul_of, fr_neg_of, fr_pow_of, fr_sub_of, fr_u64_bytes, g1_add_of,
    g1_gen_mul_of, g1_generator, g1_identity, g1_msm_of, g1_mul_of, g1_valid, g1_views,
    g1s_decodable, g1s_end, g1s_valid, g2_add_of, g2_mul_of, g2_valid, gt_valid, lemma_g1s_at,
    lemma_g1s_injective, multi_pairing_of, read_g1s, write_g1s, Fr, Gt, G1, G1_BYTES, G2, G2_BYTES,
    GT_BYTES,
};
use crate::codec::{all_width, flat, get_u64, le_u64, lemma_flat_chunks, lemma_flat_injective, lemma_u64_le, put_u64, take, u64_le, vec_encoding};
use crate::encryption::Ciphertext;
use crate::error::SteError;
use crate::kzg::{commit_len, PowersOfTau};
use crate::poly::{
    domain_exists, domain_ok, indicator, interpolate_of, is_pow2, is_power_of_two, lagrange_poly,
    poly_div_vanishing_of, poly_eval_of, poly_mul_of, poly_scale_of, poly_sub_of, Poly,
};

verus! {

/// The Lagrange basis polynomial `L_i` of the domain of size `n`.
pub open spec fn lag(n: nat, i: nat) -> Seq<Seq<u8>> {
    interpolate_of(indicator(n, i))
}

/// The constant coefficient of a polynomial (zero for no coefficient).
pub open spec fn const_term(p: Seq<Seq<u8>>) -> Seq<u8> {
    if p.len() == 0 {
        fr_u64_bytes(0)
    } else {
        p[0]
    }
}

/// `L_i(tau)`.
pub open spec fn li_eval(tau: Seq<u8>, n: nat, i: nat) -> Seq<u8> {
    poly_eval_of(lag(n, i), tau)
}

/// `L_i(tau) - L_i(0)`.
pub open spec fn li_minus0_eval(tau: Seq<u8>, n: nat, i: nat) -> Seq<u8> {
    fr_sub_of(li_eval(tau, n, i), const_term(lag(n, i)))
}

/// `(L_i(tau) - L_i(0)) / tau`.
pub open spec fn li_x_eval(tau: Seq<u8>, n: nat, i: nat) -> Seq<u8> {
    fr_mul_of(li_minus0_eval(tau, n, i), fr_inverse_of(tau))
}

/// `Z(tau) = tau^n - 1`.
pub open spec fn z_eval(tau: Seq<u8>, n: nat) -> Seq<u8> {
    fr_sub_of(fr_pow_of(tau, n as u64), fr_u64_bytes(1))
}

/// `(L_i(tau) L_j(tau) - [i = j] L_i(tau)) / Z(tau)`.
pub open spec fn li_lj_z_eval(tau: Seq<u8>, n: nat, i: nat, j: nat) -> Seq<u8> {
    let zi = fr_inverse_of(z_eval(tau, n));
    let li = li_eval(tau, n, i);
    if i == j {
        fr_mul_of(fr_sub_of(fr_mul_of(li, li), li), zi)
    } else {
        fr_mul_of(fr_mul_of(li, li_eval(tau, n, j)), zi)
    }
}

/// When `LagrangePowers::new` succeeds.
pub open spec fn lagrange_ok(tau: Seq<u8>, n: nat) -> bool {
    n > 0 && !all_zero(tau) && domain_ok(n) && !all_zero(z_eval(tau, n))
}

/// Precomputed commitments `L_i(tau) g`, `(L_i(tau) - L_i(0)) g`,
/// `((L_i(tau) - L_i(0)) / tau) g` and the `n x n` cross-term table.
#[derive(Debug, Clone)]
pub struct LagrangePowers {
    pub li: Vec<G1>,
    pub li_minus0: Vec<G1>,
    pub li_x: Vec<G1>,
    pub li_lj_z: Vec<Vec<G1>>,
}

/// Whether `lp` holds the tables of `tau` on the domain of size `n`.
pub open spec fn is_lagrange_of(lp: LagrangePowers, tau: Seq<u8>, n: nat) -> bool {
    &&& lp.li@.len() == n
    &&& lp.li_minus0@.len() == n
    &&& lp.li_x@.len() == n
    &&& lp.li_lj_z@.len() == n
    &&& forall|i: int| 0 <= i < n ==> #[trigger] lp.li@[i]@ == g1_gen_mul_of(li_eval(tau, n, i as nat))
    &&& forall|i: int|
        0 <= i < n ==> #[trigger] lp.li_minus0@[i]@ == g1_gen_mul_of(
            li_minus0_eval(tau, n, i as nat),
        )
    &&& forall|i: int| 0 <= i < n ==> #[trigger] lp.li_x@[i]@ == g1_gen_mul_of(li_x_eval(tau, n, i as nat))
    &&& forall|i: int| 0 <= i < n ==> (#[trigger] lp.li_lj_z@[i])@.len() == n
    &&& forall|i: int, j: int|
        0 <= i < n && 0 <= j < n ==> #[trigger] lp.li_lj_z@[i]@[j]@ == g1_gen_mul_of(
            li_lj_z_eval(tau, n, i as nat, j as nat),
        )
}

/// The encoding of the cross-term rows: each row counted, one after the other.
pub open spec fn rows_encoding(rows: Seq<Vec<G1>>) -> Seq<u8>
    decreases rows.len(),
{
    if rows.len() == 0 {
        seq![]
    } else {
        rows_encoding(rows.drop_last()) + vec_encoding(g1_views(rows.last()@))
    }
}

/// The encoding of Lagrange tables: the counted `li`, `li_minus0` and `li_x`,
/// then the count of rows of `li_lj_z` and each counted row.
pub open spec fn lp_encoding(lp: LagrangePowers) -> Seq<u8> {
    vec_encoding(g1_views(lp.li@)) + vec_encoding(g1_views(lp.li_minus0@)) + vec_encoding(
        g1_views(lp.li_x@),
    ) + u64_le(lp.li_lj_z@.len() as u64) + rows_encoding(lp.li_lj_z@)
}

/// Where `k` counted rows that start at `pos` end, if they all decode.
pub open spec fn rows_end(b: Seq<u8>, pos: int, k: nat) -> Option<int>
    decreases k,
{
    if k == 0 {
        Some(pos)
    } else {
        match rows_end(b, pos, (k - 1) as nat) {
            Some(p) => if g1s_decodable(b, p) {
                Some(g1s_end(b, p))
            } else {
                None
            },
            None => None,
        }
    }
}

/// Reads `k` counted rows of `G1` elements from `start`; returns them with
/// the position after them.
pub fn read_rows(b: &Vec<u8>, start: usize, k: usize) -> (r: Result<(Vec<Vec<G1>>, usize), SteError>)
    requires
        start <= b@.len(),
    ensures
        r is Ok <==> rows_end(b@, start as int, k as nat) is Some,
        r matches Ok((rows, pos)) ==> {
            &&& rows@.len() == k
            &&& rows_end(b@, start as int, k as nat) == Some(pos as int)
            &&& start <= pos <= b@.len()
            &&& b@.subrange(start as int, pos as int) == rows_encoding(rows@)
        },
        r matches Err(e) ==> e is SerializationError,
{
    let mut rows: Vec<Vec<G1>> = Vec::new();
    let mut pos = start;
    let mut i: usize = 0;
    assert(b@.subrange(start as int, pos as int) =~= rows_encoding(rows@));
    while i < k
        invariant
            i <= k,
            start <= pos <= b@.len(),
            rows@.len() == i,
            rows_end(b@, start as int, i as nat) == Some(pos as int),
            b@.subrange(start as int, pos as int) == rows_encoding(rows@),
        decreases k - i,
    {
        let (row, next) = match read_g1s(b, pos) {
            Ok(v) => v,
            Err(e) => {
                proof {
                    assert(rows_end(b@, start as int, (i + 1) as nat) is None);
                    lemma_rows_end_none(b@, start as int, (i + 1) as nat, k as nat);
                }
                return Err(e);
            },
        };
        let ghost before = rows@;
        rows.push(row);
        proof {
            assert(rows@.drop_last() == before);
            assert(next == g1s_end(b@, pos as int));
            assert(b@.subrange(start as int, next as int) =~= b@.subrange(start as int, pos as int)
                + b@.subrange(pos as int, next as int));
        }
        pos = next;
        i = i + 1;
    }
    Ok((rows, pos))
}

/// Counted rows of valid elements embedded at `pos` decode there and end
/// after their encoding; and any other rows with that encoding at `pos`
/// hold the same elements.
pub proof fn lemma_rows_at(b: Seq<u8>, pos: int, rows: Seq<Vec<G1>>, other: Seq<Vec<G1>>)
    requires
        forall|i: int| 0 <= i < rows.len() ==> g1s_valid((#[trigger] rows[i])@),
        forall|i: int| 0 <= i < other.len() ==> g1s_valid((#[trigger] other[i])@),
        0 <= pos,
        pos + rows_encoding(rows).len() <= b.len(),
        b.subrange(pos, pos + rows_encoding(rows).len()) == rows_encoding(rows),
    ensures
        rows_end(b, pos, rows.len()) == Some(pos + rows_encoding(rows).len()),
        other.len() == rows.len() && pos + rows_encoding(other).len() <= b.len() && b.subrange(
            pos,
            pos + rows_encoding(other).len(),
        ) == rows_encoding(other) ==> forall|i: int|
            0 <= i < rows.len() ==> g1_views((#[trigger] rows[i])@) == g1_views(other[i]@),
    decreases rows.len(),
{
    if rows.len() > 0 {
        let pr = rows.drop_last();
        let last = rows.last();
        let ep = rows_encoding(pr);
        assert(rows_encoding(rows) == ep + vec_encoding(g1_views(last@)));
        assert(b.subrange(pos, pos + ep.len()) =~= rows_encoding(rows).subrange(0, ep.len() as int));
        assert(rows_encoding(rows).subrange(0, ep.len() as int) =~= ep);
        let po = if other.len() == rows.len() { other.drop_last() } else { other };
        lemma_rows_at(b, pos, pr, po);
        let q = pos + ep.len();
        assert(g1s_valid(last@));
        assert(b.subrange(q, q + vec_encoding(g1_views(last@)).len()) =~= rows_encoding(rows).subrange(
            ep.len() as int,
            rows_encoding(rows).len() as int,
        ));
        assert(rows_encoding(rows).subrange(ep.len() as int, rows_encoding(rows).len() as int)
            =~= vec_encoding(g1_views(last@)));
        lemma_g1s_at(b, q, last@);
        if other.len() == rows.len() && pos + rows_encoding(other).len() <= b.len() && b.subrange(
            pos,
            pos + rows_encoding(other).len(),
        ) == rows_encoding(other) {
            let olast = other.last();
            let eo = rows_encoding(po);
            assert(rows_encoding(other) == eo + vec_encoding(g1_views(olast@)));
            assert(g1s_valid(olast@));
            assert(b.subrange(pos, pos + eo.len()) =~= rows_encoding(other).subrange(0, eo.len() as int));
            assert(rows_encoding(other).subrange(0, eo.len() as int) =~= eo);
            lemma_rows_at(b, pos, po, pr);
            assert(rows_end(b, pos, po.len()) == Some(pos + eo.len()));
            assert(eo.len() == ep.len());
            assert(b.subrange(q, q + vec_encoding(g1_views(olast@)).len()) =~= rows_encoding(
                other,
            ).subrange(eo.len() as int, rows_encoding(other).len() as int));
            assert(rows_encoding(other).subrange(eo.len() as int, rows_encoding(other).len() as int)
                =~= vec_encoding(g1_views(olast@)));
            lemma_g1s_at(b, q, olast@);
            assert(vec_encoding(g1_views(olast@)) == vec_encoding(g1_views(last@)));
            lemma_g1s_injective(last@, olast@);
            assert forall|i: int| 0 <= i < rows.len() implies g1_views((#[trigger] rows[i])@) == g1_views(
                other[i]@,
            ) by {
                if i < rows.len() - 1 {
                    assert(rows[i] == pr[i]);
                    assert(other[i] == po[i]);
                }
            }
        }
    }
}

/// Whether every element of the tables has a valid encoding of its size and
/// every count fits, as the types guarantee of every value.
pub open spec fn lp_valid(lp: LagrangePowers) -> bool {
    &&& g1s_valid(lp.li@)
    &&& g1s_valid(lp.li_minus0@)
    &&& g1s_valid(lp.li_x@)
    &&& lp.li_lj_z@.len() <= usize::MAX
    &&& lp.li_lj_z@.len() <= u64::MAX
    &&& forall|i: int| 0 <= i < lp.li_lj_z@.len() ==> g1s_valid((#[trigger] lp.li_lj_z@[i])@)
}

/// Serialization round trip of Lagrange tables: the encoding of valid tables
/// decodes, and the only tables with that encoding are the tables themselves.
#[verifier::rlimit(100)]
pub proof fn lemma_lagrange_round_trip(lp: LagrangePowers, other: LagrangePowers)
    requires
        lp_valid(lp),
        lp_valid(other),
    ensures
        lp_decodable(lp_encoding(lp)),
        lp_encoding(other) == lp_encoding(lp) ==> {
            &&& g1_views(other.li@) == g1_views(lp.li@)
            &&& g1_views(other.li_minus0@) == g1_views(lp.li_minus0@)
            &&& g1_views(other.li_x@) == g1_views(lp.li_x@)
            &&& other.li_lj_z@.len() == lp.li_lj_z@.len()
            &&& forall|i: int|
                0 <= i < lp.li_lj_z@.len() ==> g1_views((#[trigger] lp.li_lj_z@[i])@) == g1_views(
                    other.li_lj_z@[i]@,
                )
        },
{
    let b = lp_encoding(lp);
    let e1 = vec_encoding(g1_views(lp.li@));
    let e2 = vec_encoding(g1_views(lp.li_minus0@));
    let e3 = vec_encoding(g1_views(lp.li_x@));
    let c = u64_le(lp.li_lj_z@.len() as u64);
    let er = rows_encoding(lp.li_lj_z@);
    let p1 = e1.len() as int;
    let p2 = p1 + e2.len();
    let p3 = p2 + e3.len();
    assert(b == e1 + e2 + e3 + c + er);
    assert(b.subrange(0, p1) =~= e1);
    assert(b.subrange(p1, p2) =~= e2);
    assert(b.subrange(p2, p3) =~= e3);
    assert(b.subrange(p3, p3 + 8) =~= c);
    assert(b.subrange(p3 + 8, b.len() as int) =~= er);
    lemma_g1s_at(b, 0, lp.li@);
    lemma_g1s_at(b, p1, lp.li_minus0@);
    lemma_g1s_at(b, p2, lp.li_x@);
    lemma_u64_le(lp.li_lj_z@.len() as u64, seq![]);
    lemma_rows_at(b, p3 + 8, lp.li_lj_z@, other.li_lj_z@);
    assert(g1s_end(b, 0) == p1);
    assert(g1s_end(b, p1) == p2);
    assert(g1s_end(b, p2) == p3);
    if lp_encoding(other) == b {
        let f1 = vec_encoding(g1_views(other.li@));
        let f2 = vec_encoding(g1_views(other.li_minus0@));
        let f3 = vec_encoding(g1_views(other.li_x@));
        let q1 = f1.len() as int;
        let q2 = q1 + f2.len();
        let q3 = q2 + f3.len();
        let fr = rows_encoding(other.li_lj_z@);
        assert(b == f1 + f2 + f3 + u64_le(other.li_lj_z@.len() as u64) + fr);
        assert(b.subrange(0, q1) =~= f1);
        lemma_g1s_at(b, 0, other.li@);
        assert(q1 == p1);
        assert(e1 =~= f1);
        lemma_g1s_injective(lp.li@, other.li@);
        assert(b.subrange(q1, q2) =~= f2);
        lemma_g1s_at(b, q1, other.li_minus0@);
        assert(q2 == p2);
        assert(e2 =~= f2);
        lemma_g1s_injective(lp.li_minus0@, other.li_minus0@);
        assert(b.subrange(q2, q3) =~= f3);
        lemma_g1s_at(b, q2, other.li_x@);
        assert(q3 == p3);
        assert(e3 =~= f3);
        lemma_g1s_injective(lp.li_x@, other.li_x@);
        assert(b.subrange(q3, q3 + 8) =~= u64_le(other.li_lj_z@.len() as u64));
        lemma_u64_le(other.li_lj_z@.len() as u64, seq![]);
        assert(other.li_lj_z@.len() == lp.li_lj_z@.len());
        assert(b.subrange(p3 + 8, p3 + 8 + fr.len()) =~= fr);
    }
}

/// Rows that fail to decode stay failed when more rows are read.
pub proof fn lemma_rows_end_none(b: Seq<u8>, pos: int, i: nat, k: nat)
    requires
        rows_end(b, pos, i) is None,
        i <= k,
    ensures
        rows_end(b, pos, k) is None,
    decreases k - i,
{
    if i < k {
        lemma_rows_end_none(b, pos, i, (k - 1) as nat);
    }
}

/// Whether `b` is the encoding of Lagrange tables.
pub open spec fn lp_decodable(b: Seq<u8>) -> bool {
    let p1 = g1s_end(b, 0);
    let p2 = g1s_end(b, p1);
    let p3 = g1s_end(b, p2);
    &&& g1s_decodable(b, 0)
    &&& g1s_decodable(b, p1)
    &&& g1s_decodable(b, p2)
    &&& p3 + 8 <= b.len()
    &&& le_u64(b.subrange(p3, p3 + 8)) <= usize::MAX
    &&& rows_end(b, p3 + 8, le_u64(b.subrange(p3, p3 + 8)) as nat) == Some(b.len() as int)
}

impl LagrangePowers {
    /// The encoding (see `lp_encoding`).
    pub fn to_bytes(&self) -> (r: Vec<u8>)
        ensures
            r@ == lp_encoding(*self),
    {
        let mut out: Vec<u8> = Vec::new();
        write_g1s(&mut out, &self.li);
        write_g1s(&mut out, &self.li_minus0);
        write_g1s(&mut out, &self.li_x);
        put_u64(&mut out, self.li_lj_z.len() as u64);
        let ghost head = out@;
        let mut k: usize = 0;
        while k < self.li_lj_z.len()
            invariant
                k <= self.li_lj_z@.len(),
                out@ == head + rows_encoding(self.li_lj_z@.subrange(0, k as int)),
            decreases self.li_lj_z@.len() - k,
        {
            write_g1s(&mut out, &self.li_lj_z[k]);
            assert(self.li_lj_z@.subrange(0, k + 1).drop_last() =~= self.li_lj_z@.subrange(0, k as int));
            k = k + 1;
        }
        assert(self.li_lj_z@.subrange(0, self.li_lj_z@.len() as int) =~= self.li_lj_z@);
        assert(out@ =~= lp_encoding(*self));
        out
    }

    /// Decodes Lagrange tables; `SerializationError` unless the bytes are the
    /// encoding of some. Encoding the result gives the bytes back.
    pub fn from_bytes(b: &Vec<u8>) -> (r: Result<LagrangePowers, SteError>)
        ensures
            r is Ok <==> lp_decodable(b@),
            r matches Ok(lp) ==> lp_encoding(lp) == b@,
            r matches Err(e) ==> e is SerializationError,
    {
        let (li, p1) = match read_g1s(b, 0) {
            Ok(v) => v,
            Err(e) => {
                return Err(e);
            },
        };
        let (li_minus0, p2) = match read_g1s(b, p1) {
            Ok(v) => v,
            Err(e) => {
                return Err(e);
            },
        };
        let (li_x, p3) = match read_g1s(b, p2) {
            Ok(v) => v,
            Err(e) => {
                return Err(e);
            },
        };
        if b.len() - p3 < 8 {
            return Err(SteError::SerializationError("missing row count".to_string()));
        }
        let k64 = get_u64(b, p3);
        if k64 > usize::MAX as u64 {
            return Err(SteError::SerializationError("row count too large".to_string()));
        }
        let k = k64 as usize;
        assert(p1 == g1s_end(b@, 0));
        assert(p2 == g1s_end(b@, p1 as int));
        assert(p3 == g1s_end(b@, p2 as int));
        let (rows, pos) = match read_rows(b, p3 + 8, k) {
            Ok(v) => v,
            Err(e) => {
                return Err(e);
            },
        };
        if pos != b.len() {
            return Err(SteError::SerializationError("trailing bytes after the tables".to_string()));
        }
        proof {
            lemma_u64_le(0, b@.subrange(p3 as int, p3 + 8));
            assert(b@ =~= b@.subrange(0, p1 as int) + b@.subrange(p1 as int, p2 as int) + b@.subrange(
                p2 as int,
                p3 as int,
            ) + b@.subrange(p3 as int, p3 + 8) + b@.subrange(p3 + 8, pos as int));
        }
        Ok(LagrangePowers { li, li_minus0, li_x, li_lj_z: rows })
    }

    /// Preprocesses the Lagrange tables of `tau` for the domain of size `n`.
    /// `InvalidParameter` when `n` is zero, `tau` is zero, `n` is not a power
    /// of two (or beyond the largest domain), or `Z(tau) = 0`.
    pub fn new(tau: &Fr, n: usize) -> (r: Result<LagrangePowers, SteError>)
        ensures
            r.is_ok() <==> lagrange_ok(tau@, n as nat),
            r matches Ok(lp) ==> is_lagrange_of(lp, tau@, n as nat),
            r matches Err(e) ==> e is InvalidParameter,
    {
        if n == 0 {
            return Err(SteError::InvalidParameter("n must be at least 1".to_string()));
        }
        if tau.is_zero() {
            return Err(SteError::InvalidParameter("tau cannot be zero".to_string()));
        }
        if !domain_exists(n) {
            return Err(SteError::InvalidParameter("n must be a power of 2".to_string()));
        }
        let tau_inv = match tau.inverse() {
            Some(v) => v,
            None => {
                return Err(SteError::InvalidParameter("tau cannot be zero".to_string()));
            },
        };
        let z = tau.pow(n as u64).sub(&Fr::one());
        let z_inv = match z.inverse() {
            Some(v) => v,
            None => {
                return Err(
                    SteError::InvalidParameter("z_eval inverse computation failed".to_string()),
                );
            },
        };
        let ghost nn = n as nat;
        let mut li_evals: Vec<Fr> = Vec::new();
        let mut li: Vec<G1> = Vec::new();
        let mut li_minus0: Vec<G1> = Vec::new();
        let mut li_x: Vec<G1> = Vec::new();
        let mut i: usize = 0;
        while i < n
            invariant
                i <= n,
                nn == n,
                domain_ok(nn),
                tau_inv@ == fr_inverse_of(tau@),
                li_evals@.len() == i,
                li@.len() == i,
                li_minus0@.len() == i,
                li_x@.len() == i,
                forall|k: int| 0 <= k < i ==> #[trigger] li_evals@[k]@ == li_eval(tau@, nn, k as nat),
                forall|k: int| 0 <= k < i ==> #[trigger] li@[k]@ == g1_gen_mul_of(li_eval(tau@, nn, k as nat)),
                forall|k: int|
                    0 <= k < i ==> #[trigger] li_minus0@[k]@ == g1_gen_mul_of(
                        li_minus0_eval(tau@, nn, k as nat),
                    ),
                forall|k: int|
                    0 <= k < i ==> #[trigger] li_x@[k]@ == g1_gen_mul_of(li_x_eval(tau@, nn, k as nat)),
            decreases n - i,
        {
            let p = lagrange_poly(n, i);
            let e = p.evaluate(tau);
            let c0 = if p.coeffs.len() == 0 { Fr::zero() } else { p.coeffs[0].copy() };
            let m0 = e.sub(&c0);
            let x = m0.mul(&tau_inv);
            li.push(G1::gen_mul(&e));
            li_minus0.push(G1::gen_mul(&m0));
            li_x.push(G1::gen_mul(&x));
            li_evals.push(e);
            i = i + 1;
        }
        let mut li_lj_z: Vec<Vec<G1>> = Vec::new();
        let mut i: usize = 0;
        while i < n
            invariant
                i <= n,
                nn == n,
                z_inv@ == fr_inverse_of(z_eval(tau@, nn)),
                li_evals@.len() == n,
                forall|k: int| 0 <= k < n ==> #[trigger] li_evals@[k]@ == li_eval(tau@, nn, k as nat),
                li_lj_z@.len() == i,
                forall|k: int| 0 <= k < i ==> (#[trigger] li_lj_z@[k])@.len() == n,
                forall|k: int, j: int|
                    0 <= k < i && 0 <= j < n ==> #[trigger] li_lj_z@[k]@[j]@ == g1_gen_mul_of(
                        li_lj_z_eval(tau@, nn, k as nat, j as nat),
                    ),
            decreases n - i,
        {
            let mut row: Vec<G1> = Vec::new();
            let mut j: usize = 0;
            while j < n
                invariant
                    i < n,
                    j <= n,
                    nn == n,
                    z_inv@ == fr_inverse_of(z_eval(tau@, nn)),
                    li_evals@.len() == n,
                    forall|k: int| 0 <= k < n ==> #[trigger] li_evals@[k]@ == li_eval(tau@, nn, k as nat),
                    row@.len() == j,
                    forall|m: int|
                        0 <= m < j ==> #[trigger] row@[m]@ == g1_gen_mul_of(
                            li_lj_z_eval(tau@, nn, i as nat, m as nat),
                        ),
                decreases n - j,
            {
                let s = if i == j {
                    li_evals[i].mul(&li_evals[i]).sub(&li_evals[i]).mul(&z_inv)
                } else {
                    li_evals[i].mul(&li_evals[j]).mul(&z_inv)
                };
                row.push(G1::gen_mul(&s));
                j = j + 1;
            }
            li_lj_z.push(row);
            i = i + 1;
        }
        Ok(LagrangePowers { li, li_minus0, li_x, li_lj_z })
    }
}

/// A party's secret scalar. It has no debug form, so that the scalar cannot
/// reach a log by accident.
pub struct SecretKey {
    sk: Fr,
}

/// A party's public key: its BLS key `sk g` and the hints `sk` times each
/// Lagrange commitment of its index.
#[derive(Debug, Clone)]
pub struct PublicKey {
    /// Party index.
    pub id: usize,
    /// `sk g`.
    pub bls_pk: G1,
    /// `sk L_i(tau) g`.
    pub sk_li: G1,
    /// `sk (L_i(tau) - L_i(0)) g`.
    pub sk_li_minus0: G1,
    /// `sk L_i(tau) L_j(tau) / Z(tau) g` (with the diagonal correction), for each `j`.
    pub sk_li_lj_z: Vec<G1>,
    /// `sk (L_i(tau) - L_i(0)) / tau g`.
    pub sk_li_x: G1,
}

/// Whether `pk` is the key of an absent party `i` of a domain of size `n`:
/// every element the identity, as for a secret key of zero.
pub open spec fn is_zero_slot(pk: PublicKey, i: nat, n: nat) -> bool {
    &&& pk.id == i
    &&& pk.bls_pk@ == g1_identity()
    &&& pk.sk_li@ == g1_identity()
    &&& pk.sk_li_minus0@ == g1_identity()
    &&& pk.sk_li_x@ == g1_identity()
    &&& pk.sk_li_lj_z@.len() == n
    &&& forall|j: int| 0 <= j < n ==> #[trigger] pk.sk_li_lj_z@[j]@ == g1_identity()
}

/// Whether two public keys hold the same values.
pub open spec fn same_pk(a: PublicKey, b: PublicKey) -> bool {
    &&& a.id == b.id
    &&& a.bls_pk@ == b.bls_pk@
    &&& a.sk_li@ == b.sk_li@
    &&& a.sk_li_minus0@ == b.sk_li_minus0@
    &&& g1_views(a.sk_li_lj_z@) == g1_views(b.sk_li_lj_z@)
    &&& a.sk_li_x@ == b.sk_li_x@
}

/// `g1_views` of a sequence of copies.
pub proof fn lemma_g1_views_eq(a: Seq<G1>, b: Seq<G1>)
    requires
        a.len() == b.len(),
        forall|k: int| 0 <= k < a.len() ==> #[trigger] a[k]@ == b[k]@,
    ensures
        g1_views(a) == g1_views(b),
{
    assert(g1_views(a) =~= g1_views(b));
}

impl PublicKey {
    /// A public key from its parts.
    pub fn new(
        id: usize,
        bls_pk: G1,
        sk_li: G1,
        sk_li_minus0: G1,
        sk_li_lj_z: Vec<G1>,
        sk_li_x: G1,
    ) -> (r: PublicKey)
        ensures
            r == (PublicKey { id, bls_pk, sk_li, sk_li_minus0, sk_li_lj_z, sk_li_x }),
    {
        PublicKey { id, bls_pk, sk_li, sk_li_minus0, sk_li_lj_z, sk_li_x }
    }

    /// The key of an absent party `i` of a domain of size `n`: every field the
    /// identity, as for a secret key of zero.
    pub fn zero_for_domain(i: usize, n: usize) -> (r: PublicKey)
        ensures
            is_zero_slot(r, i as nat, n as nat),
    {
        let mut v: Vec<G1> = Vec::new();
        let mut j: usize = 0;
        while j < n
            invariant
                j <= n,
                v@.len() == j,
                forall|k: int| 0 <= k < j ==> #[trigger] v@[k]@ == g1_identity(),
            decreases n - j,
        {
            v.push(G1::zero());
            j = j + 1;
        }
        PublicKey {
            id: i,
            bls_pk: G1::zero(),
            sk_li: G1::zero(),
            sk_li_minus0: G1::zero(),
            sk_li_lj_z: v,
            sk_li_x: G1::zero(),
        }
    }

    /// A copy of the key.
    pub fn copy(&self) -> (r: PublicKey)
        ensures
            same_pk(r, *self),
    {
        let mut v: Vec<G1> = Vec::new();
        let mut j: usize = 0;
        while j < self.sk_li_lj_z.len()
            invariant
                j <= self.sk_li_lj_z@.len(),
                v@.len() == j,
                forall|k: int| 0 <= k < j ==> #[trigger] v@[k]@ == self.sk_li_lj_z@[k]@,
            decreases self.sk_li_lj_z@.len() - j,
        {
            v.push(self.sk_li_lj_z[j].copy());
            j = j + 1;
        }
        proof {
            lemma_g1_views_eq(v@, self.sk_li_lj_z@);
        }
        PublicKey {
            id: self.id,
            bls_pk: self.bls_pk.copy(),
            sk_li: self.sk_li.copy(),
            sk_li_minus0: self.sk_li_minus0.copy(),
            sk_li_lj_z: v,
            sk_li_x: self.sk_li_x.copy(),
        }
    }
}

/// The encoding of a public key: `id` in 8 little-endian bytes, `bls_pk`,
/// `sk_li`, `sk_li_minus0`, the counted `sk_li_lj_z`, then `sk_li_x`.
pub open spec fn pk_encoding(pk: PublicKey) -> Seq<u8> {
    u64_le(pk.id as u64) + pk.bls_pk@ + pk.sk_li@ + pk.sk_li_minus0@ + vec_encoding(
        g1_views(pk.sk_li_lj_z@),
    ) + pk.sk_li_x@
}

/// Where a public key that starts at `pos` ends, if it decodes: an id that
/// fits a `usize`, three valid elements, a counted vector of valid elements,
/// and one more valid element.
pub open spec fn pk_end(b: Seq<u8>, pos: int) -> Option<int> {
    let t = g1s_end(b, pos + 152);
    if 0 <= pos && pos + 152 <= b.len() && le_u64(b.subrange(pos, pos + 8)) <= usize::MAX && g1_valid(
        b.subrange(pos + 8, pos + 56),
    ) && g1_valid(b.subrange(pos + 56, pos + 104)) && g1_valid(b.subrange(pos + 104, pos + 152))
        && g1s_decodable(b, pos + 152) && t + 48 <= b.len() && g1_valid(b.subrange(t, t + 48)) {
        Some(t + 48)
    } else {
        None
    }
}

/// Whether `b` is the encoding of a public key.
pub open spec fn pk_decodable(b: Seq<u8>) -> bool {
    pk_end(b, 0) == Some(b.len() as int)
}

/// Whether every element of a public key has a valid encoding of its size,
/// as the types guarantee of every key.
pub open spec fn pk_valid(pk: PublicKey) -> bool {
    &&& pk.bls_pk@.len() == G1_BYTES && g1_valid(pk.bls_pk@)
    &&& pk.sk_li@.len() == G1_BYTES && g1_valid(pk.sk_li@)
    &&& pk.sk_li_minus0@.len() == G1_BYTES && g1_valid(pk.sk_li_minus0@)
    &&& pk.sk_li_x@.len() == G1_BYTES && g1_valid(pk.sk_li_x@)
    &&& g1s_valid(pk.sk_li_lj_z@)
}

/// A valid key embedded at `pos` decodes there and ends after its encoding;
/// another valid key with an encoding there holds the same values.
pub proof fn lemma_public_key_at(b: Seq<u8>, pos: int, pk: PublicKey, other: PublicKey)
    requires
        pk_valid(pk),
        pk_valid(other),
        0 <= pos,
        pos + pk_encoding(pk).len() <= b.len(),
        b.subrange(pos, pos + pk_encoding(pk).len()) == pk_encoding(pk),
    ensures
        pk_end(b, pos) == Some(pos + pk_encoding(pk).len()),
        pos + pk_encoding(other).len() <= b.len() && b.subrange(pos, pos + pk_encoding(other).len())
            == pk_encoding(other) ==> same_pk(other, pk),
{
    let e = pk_encoding(pk);
    let ev = vec_encoding(g1_views(pk.sk_li_lj_z@));
    let lv = ev.len() as int;
    assert(ev.subrange(0, ev.len() as int) =~= ev);
    lemma_g1s_at(ev, 0, pk.sk_li_lj_z@);
    let t = pos + 152 + lv;
    assert(e == u64_le(pk.id as u64) + pk.bls_pk@ + pk.sk_li@ + pk.sk_li_minus0@ + ev + pk.sk_li_x@);
    assert(b.subrange(pos, pos + 8) =~= e.subrange(0, 8));
    assert(e.subrange(0, 8) =~= u64_le(pk.id as u64));
    lemma_u64_le(pk.id as u64, seq![]);
    assert(b.subrange(pos + 8, pos + 56) =~= e.subrange(8, 56));
    assert(e.subrange(8, 56) =~= pk.bls_pk@);
    assert(b.subrange(pos + 56, pos + 104) =~= e.subrange(56, 104));
    assert(e.subrange(56, 104) =~= pk.sk_li@);
    assert(b.subrange(pos + 104, pos + 152) =~= e.subrange(104, 152));
    assert(e.subrange(104, 152) =~= pk.sk_li_minus0@);
    assert(b.subrange(pos + 152, t) =~= e.subrange(152, 152 + lv));
    assert(e.subrange(152, 152 + lv) =~= ev);
    lemma_g1s_at(b, pos + 152, pk.sk_li_lj_z@);
    assert(b.subrange(t, t + 48) =~= e.subrange(152 + lv, 200 + lv));
    assert(e.subrange(152 + lv, 200 + lv) =~= pk.sk_li_x@);
    let f = pk_encoding(other);
    if pos + f.len() <= b.len() && b.subrange(pos, pos + f.len()) == f {
        let fv = vec_encoding(g1_views(other.sk_li_lj_z@));
        let lf = fv.len() as int;
        assert(fv.subrange(0, fv.len() as int) =~= fv);
        lemma_g1s_at(fv, 0, other.sk_li_lj_z@);
        assert(f == u64_le(other.id as u64) + other.bls_pk@ + other.sk_li@ + other.sk_li_minus0@ + fv
            + other.sk_li_x@);
        assert(b.subrange(pos, pos + 8) =~= f.subrange(0, 8));
        assert(f.subrange(0, 8) =~= u64_le(other.id as u64));
        lemma_u64_le(other.id as u64, seq![]);
        assert(b.subrange(pos + 8, pos + 56) =~= f.subrange(8, 56));
        assert(f.subrange(8, 56) =~= other.bls_pk@);
        assert(b.subrange(pos + 56, pos + 104) =~= f.subrange(56, 104));
        assert(f.subrange(56, 104) =~= other.sk_li@);
        assert(b.subrange(pos + 104, pos + 152) =~= f.subrange(104, 152));
        assert(f.subrange(104, 152) =~= other.sk_li_minus0@);
        assert(b.subrange(pos + 152, pos + 152 + lf) =~= f.subrange(152, 152 + lf));
        assert(f.subrange(152, 152 + lf) =~= fv);
        lemma_g1s_at(b, pos + 152, other.sk_li_lj_z@);
        assert(fv.len() == ev.len());
        assert(fv =~= ev);
        lemma_g1s_injective(pk.sk_li_lj_z@, other.sk_li_lj_z@);
        assert(b.subrange(t, t + 48) =~= f.subrange(152 + lf, 200 + lf));
        assert(f.subrange(152 + lf, 200 + lf) =~= other.sk_li_x@);
    }
}

/// Serialization round trip of public keys: the encoding of a key decodes,
/// and the only key with that encoding is the key itself.
pub proof fn lemma_public_key_round_trip(pk: PublicKey, other: PublicKey)
    requires
        pk_valid(pk),
        pk_valid(other),
    ensures
        pk_decodable(pk_encoding(pk)),
        pk_encoding(other) == pk_encoding(pk) ==> same_pk(other, pk),
{
    let b = pk_encoding(pk);
    assert(b.subrange(0, b.len() as int) =~= b);
    lemma_public_key_at(b, 0, pk, other);
}

/// Reads a public key at `pos`; returns it with the position after it.
pub fn read_public_key(b: &Vec<u8>, pos: usize) -> (r: Result<(PublicKey, usize), SteError>)
    ensures
        r is Ok <==> pk_end(b@, pos as int) is Some,
        r matches Ok((pk, next)) ==> {
            &&& pk_end(b@, pos as int) == Some(next as int)
            &&& pos <= next <= b@.len()
            &&& b@.subrange(pos as int, next as int) == pk_encoding(pk)
        },
        r matches Err(e) ==> e is SerializationError,
{
    if pos > b.len() || b.len() - pos < 152 {
        return Err(SteError::SerializationError("public key too short".to_string()));
    }
    let id = get_u64(b, pos);
    if id > usize::MAX as u64 {
        return Err(SteError::SerializationError("party id too large".to_string()));
    }
    let bls_pk = match G1::from_bytes(&take(b, pos + 8, 48)) {
        Ok(v) => v,
        Err(e) => {
            return Err(e);
        },
    };
    let sk_li = match G1::from_bytes(&take(b, pos + 56, 48)) {
        Ok(v) => v,
        Err(e) => {
            return Err(e);
        },
    };
    let sk_li_minus0 = match G1::from_bytes(&take(b, pos + 104, 48)) {
        Ok(v) => v,
        Err(e) => {
            return Err(e);
        },
    };
    let (sk_li_lj_z, t) = match read_g1s(b, pos + 152) {
        Ok(v) => v,
        Err(e) => {
            return Err(e);
        },
    };
    if b.len() - t < 48 {
        return Err(SteError::SerializationError("public key too short".to_string()));
    }
    let sk_li_x = match G1::from_bytes(&take(b, t, 48)) {
        Ok(v) => v,
        Err(e) => {
            return Err(e);
        },
    };
    let pk = PublicKey { id: id as usize, bls_pk, sk_li, sk_li_minus0, sk_li_lj_z, sk_li_x };
    proof {
        lemma_u64_le(0, b@.subrange(pos as int, pos + 8));
        assert(b@.subrange(pos as int, t + 48) =~= b@.subrange(pos as int, pos + 8) + b@.subrange(
            pos + 8,
            pos + 56,
        ) + b@.subrange(pos + 56, pos + 104) + b@.subrange(pos + 104, pos + 152) + b@.subrange(
            pos + 152,
            t as int,
        ) + b@.subrange(t as int, t + 48));
    }
    Ok((pk, t + 48))
}

impl PublicKey {
    /// The encoding (see `pk_encoding`).
    pub fn to_bytes(&self) -> (r: Vec<u8>)
        ensures
            r@ == pk_encoding(*self),
    {
        let mut out: Vec<u8> = Vec::new();
        put_u64(&mut out, self.id as u64);
        let mut x = self.bls_pk.to_bytes();
        out.append(&mut x);
        let mut x = self.sk_li.to_bytes();
        out.append(&mut x);
        let mut x = self.sk_li_minus0.to_bytes();
        out.append(&mut x);
        write_g1s(&mut out, &self.sk_li_lj_z);
        let mut x = self.sk_li_x.to_bytes();
        out.append(&mut x);
        assert(out@ =~= pk_encoding(*self));
        out
    }

    /// Decodes a public key; `SerializationError` unless the bytes are the
    /// encoding of one. Encoding the result gives the bytes back.
    pub fn from_bytes(b: &Vec<u8>) -> (r: Result<PublicKey, SteError>)
        ensures
            r is Ok <==> pk_decodable(b@),
            r matches Ok(pk) ==> pk_encoding(pk) == b@,
            r matches Err(e) ==> e is SerializationError,
    {
        let (pk, next) = match read_public_key(b, 0) {
            Ok(v) => v,
            Err(e) => {
                return Err(e);
            },
        };
        if next != b.len() {
            return Err(SteError::SerializationError("trailing bytes after the public key".to_string()));
        }
        assert(b@.subrange(0, b@.len() as int) =~= b@);
        Ok(pk)
    }
}

/// Whether `pk` is the key of the nullified scalar one at index `id`: the
/// generator and the table entries themselves.
pub open spec fn is_one_key(pk: PublicKey, id: nat, lp: LagrangePowers, n: nat) -> bool {
    &&& pk.bls_pk@ == g1_generator()
    &&& pk.sk_li@ == lp.li@[id as int]@
    &&& pk.sk_li_minus0@ == lp.li_minus0@[id as int]@
    &&& pk.sk_li_x@ == lp.li_x@[id as int]@
    &&& pk.sk_li_lj_z@.len() == n
    &&& forall|j: int| 0 <= j < n ==> #[trigger] pk.sk_li_lj_z@[j]@ == lp.li_lj_z@[id as int]@[j]@
}

/// Whether `pk` is the key of `sk` at index `id` from the tables `lp`.
pub open spec fn is_lagrange_pk(pk: PublicKey, sk: Seq<u8>, id: nat, lp: LagrangePowers, n: nat) -> bool {
    &&& pk.id == id
    &&& pk.bls_pk@ == g1_gen_mul_of(sk)
    &&& pk.sk_li@ == g1_mul_of(lp.li@[id as int]@, sk)
    &&& pk.sk_li_minus0@ == g1_mul_of(lp.li_minus0@[id as int]@, sk)
    &&& pk.sk_li_x@ == g1_mul_of(lp.li_x@[id as int]@, sk)
    &&& pk.sk_li_lj_z@.len() == n
    &&& forall|j: int|
        0 <= j < n ==> #[trigger] pk.sk_li_lj_z@[j]@ == g1_mul_of(lp.li_lj_z@[id as int]@[j]@, sk)
}

/// The commitment `commit_g1` computes for the coefficient sequence `p`.
pub open spec fn commit_g1_of(params: PowersOfTau, p: Seq<Seq<u8>>) -> Seq<u8> {
    g1_msm_of(
        g1_views(params.powers_of_g@.subrange(0, commit_len(p) as int)),
        p.subrange(0, commit_len(p) as int),
    )
}

/// Numerator of the cross term: `L_i^2 - L_i` on the diagonal, `L_j L_i` off it.
pub open spec fn cross_num(n: nat, i: nat, j: nat) -> Seq<Seq<u8>> {
    if i == j {
        poly_sub_of(poly_mul_of(lag(n, i), lag(n, i)), lag(n, i))
    } else {
        poly_mul_of(lag(n, j), lag(n, i))
    }
}

/// `sk` times the cross term divided by `Z`.
pub open spec fn cross_poly(n: nat, i: nat, j: nat, sk: Seq<u8>) -> Seq<Seq<u8>> {
    poly_scale_of(poly_div_vanishing_of(cross_num(n, i, j), n as usize), sk)
}

/// `(L_i(X) - L_i(0)) / X`: the coefficients after the constant one (the zero
/// constant when there are none).
pub open spec fn div_x(p: Seq<Seq<u8>>) -> Seq<Seq<u8>> {
    if p.len() > 1 {
        p.subrange(1, p.len() as int)
    } else {
        seq![fr_u64_bytes(0)]
    }
}

/// A polynomial with its constant coefficient set to zero.
pub open spec fn drop_const(p: Seq<Seq<u8>>) -> Seq<Seq<u8>> {
    if p.len() == 0 {
        p
    } else {
        p.update(0, fr_u64_bytes(0))
    }
}

/// The polynomials `get_pk` commits to, in the order it commits to them: the
/// `n` cross terms, then `(L_i - L_i(0)) / X`, `L_i`, `L_i - L_i(0)`, each
/// times `sk`.
pub open spec fn pk_polys(n: nat, i: nat, sk: Seq<u8>) -> Seq<Seq<Seq<u8>>> {
    Seq::new(n, |j: int| cross_poly(n, i, j as nat, sk)) + seq![
        poly_scale_of(div_x(lag(n, i)), sk),
        poly_scale_of(lag(n, i), sk),
        drop_const(poly_scale_of(lag(n, i), sk)),
    ]
}

/// Whether every polynomial of `get_pk` fits the transcript.
pub open spec fn pk_polys_fit(params: PowersOfTau, n: nat, i: nat, sk: Seq<u8>) -> bool {
    forall|k: int|
        0 <= k < n + 3 ==> commit_len(#[trigger] pk_polys(n, i, sk)[k]) <= params.powers_of_g@.len()
}

impl SecretKey {
    /// A secret key drawn uniformly (see `Fr::rand`); `RandomnessError` when
    /// the random source fails.
    pub fn new() -> (r: Result<SecretKey, SteError>)
        ensures
            r matches Ok(k) ==> crate::algebra::fr_valid(k.scalar()),
            r matches Err(e) ==> e is RandomnessError,
    {
        match Fr::rand() {
            Ok(sk) => Ok(SecretKey { sk }),
            Err(e) => Err(e),
        }
    }

    /// The secret key with the given scalar.
    pub fn from_scalar(sk: Fr) -> (r: SecretKey)
        ensures
            r.scalar() == sk@,
    {
        SecretKey { sk }
    }

    /// The encoding of the scalar.
    pub closed spec fn scalar(&self) -> Seq<u8> {
        self.sk@
    }

    /// Sets the scalar to one: the key of the dummy party 0.
    pub fn nullify(&mut self)
        ensures
            final(self).scalar() == fr_u64_bytes(1),
    {
        self.sk = Fr::one();
    }

    /// Overwrites the scalar with zero.
    pub fn zeroize(&mut self)
        ensures
            final(self).scalar() == fr_u64_bytes(0),
    {
        self.sk.zeroize();
    }

    /// The canonical encoding of the scalar.
    pub fn to_bytes(&self) -> (r: Vec<u8>)
        ensures
            r@ == self.scalar(),
    {
        self.sk.to_bytes()
    }

    /// Reads a secret key from the encoding of its scalar.
    pub fn from_bytes(b: &Vec<u8>) -> (r: Result<SecretKey, SteError>)
        ensures
            r.is_ok() <==> (b@.len() == crate::algebra::FR_BYTES && crate::algebra::fr_valid(b@)),
            r matches Ok(k) ==> k.scalar() == b@,
            r matches Err(e) ==> e is SerializationError,
    {
        match Fr::from_bytes(b) {
            Ok(sk) => Ok(SecretKey { sk }),
            Err(e) => Err(e),
        }
    }

    /// A textual form that shows no part of the scalar.
    pub fn redacted(&self) -> (r: String)
        ensures
            r@ == "SecretKey([REDACTED])"@,
    {
        "SecretKey([REDACTED])".to_string()
    }

    /// The public key of index `id` from the preprocessed tables: a fixed
    /// number of scalar multiplications plus one per column of the cross-term
    /// table. `ValidationError` when `id >= n` or the tables do not cover the
    /// domain of size `n`.
    pub fn lagrange_get_pk(&self, id: usize, params: &LagrangePowers, n: usize) -> (r: Result<PublicKey, SteError>)
        ensures
            r.is_ok() <==> (id < n && id < params.li@.len() && id < params.li_minus0@.len()
                && id < params.li_x@.len() && id < params.li_lj_z@.len()
                && n <= params.li_lj_z@[id as int]@.len()),
            r matches Ok(pk) ==> is_lagrange_pk(pk, self.scalar(), id as nat, *params, n as nat),
            r matches Ok(pk) ==> (self.scalar() == fr_u64_bytes(0) ==> is_zero_slot(pk, id as nat, n as nat)),
            r matches Ok(pk) ==> (self.scalar() == fr_u64_bytes(1) ==> is_one_key(pk, id as nat, *params, n as nat)),
            r matches Err(e) ==> e is ValidationError,
    {
        if id >= n {
            return Err(SteError::ValidationError("id must be < n".to_string()));
        }
        if id >= params.li.len() || id >= params.li_minus0.len() || id >= params.li_x.len()
            || id >= params.li_lj_z.len() || n > params.li_lj_z[id].len() {
            return Err(SteError::ValidationError("Lagrange tables do not cover id".to_string()));
        }
        let sk_li = params.li[id].mul(&self.sk);
        let sk_li_minus0 = params.li_minus0[id].mul(&self.sk);
        let sk_li_x = params.li_x[id].mul(&self.sk);
        let row = &params.li_lj_z[id];
        let mut sk_li_lj_z: Vec<G1> = Vec::new();
        let mut j: usize = 0;
        while j < n
            invariant
                j <= n,
                n <= row@.len(),
                row == params.li_lj_z@[id as int],
                sk_li_lj_z@.len() == j,
                forall|k: int| 0 <= k < j ==> #[trigger] sk_li_lj_z@[k]@ == g1_mul_of(row@[k]@, self.sk@),
                self.sk@ == fr_u64_bytes(0) ==> forall|k: int| 0 <= k < j ==> #[trigger] sk_li_lj_z@[k]@
                    == g1_identity(),
                self.sk@ == fr_u64_bytes(1) ==> forall|k: int| 0 <= k < j ==> #[trigger] sk_li_lj_z@[k]@
                    == row@[k]@,
            decreases n - j,
        {
            sk_li_lj_z.push(row[j].mul(&self.sk));
            j = j + 1;
        }
        Ok(PublicKey {
            id,
            bls_pk: G1::gen_mul(&self.sk),
            sk_li,
            sk_li_minus0,
            sk_li_lj_z,
            sk_li_x,
        })
    }

    /// The public key of index `id` computed from the transcript alone, by
    /// committing to each hint polynomial (quadratic in `n`). It gives the same
    /// key as `lagrange_get_pk` with the tables of the same `tau`.
    /// `ValidationError` when `id >= n`, `InvalidParameter` when `n` is not a
    /// power of two, `DomainError` when it is beyond the largest domain, and
    /// `KzgError` when a hint polynomial does not fit the transcript.
    pub fn get_pk(&self, id: usize, params: &PowersOfTau, n: usize) -> (r: Result<PublicKey, SteError>)
        ensures
            r.is_ok() <==> (id < n && domain_ok(n as nat)
                && pk_polys_fit(*params, n as nat, id as nat, self.scalar())),
            r matches Ok(pk) ==> {
                let ps = pk_polys(n as nat, id as nat, self.scalar());
                &&& pk.id == id
                &&& pk.bls_pk@ == g1_gen_mul_of(self.scalar())
                &&& pk.sk_li_lj_z@.len() == n
                &&& (forall|j: int| 0 <= j < n ==> #[trigger] pk.sk_li_lj_z@[j]@ == commit_g1_of(*params, ps[j]))
                &&& pk.sk_li_x@ == commit_g1_of(*params, ps[n as int])
                &&& pk.sk_li@ == commit_g1_of(*params, ps[n + 1])
                &&& pk.sk_li_minus0@ == commit_g1_of(*params, ps[n + 2])
            },
            r matches Err(e) ==> {
                &&& (id >= n ==> e is ValidationError)
                &&& (id < n && !is_pow2(n as nat) ==> e is InvalidParameter)
                &&& (id < n && is_pow2(n as nat) && !domain_ok(n as nat) ==> e is DomainError)
                &&& (id < n && domain_ok(n as nat) ==> e is KzgError)
            },
    {
        if id >= n {
            return Err(SteError::ValidationError("id must be < n".to_string()));
        }
        if !is_power_of_two(n) {
            return Err(SteError::InvalidParameter("n must be a power of 2".to_string()));
        }
        if !domain_exists(n) {
            return Err(SteError::DomainError("no evaluation domain of size n".to_string()));
        }
        let ghost nn = n as nat;
        let ghost ps = pk_polys(nn, id as nat, self.sk@);
        let li = lagrange_poly(n, id);
        let mut sk_li_lj_z: Vec<G1> = Vec::new();
        let mut j: usize = 0;
        while j < n
            invariant
                j <= n,
                id < n,
                nn == n,
                domain_ok(nn),
                ps == pk_polys(nn, id as nat, self.sk@),
                li@ == lag(nn, id as nat),
                sk_li_lj_z@.len() == j,
                forall|k: int| 0 <= k < j ==> commit_len(#[trigger] ps[k]) <= params.powers_of_g@.len(),
                forall|k: int| 0 <= k < j ==> #[trigger] sk_li_lj_z@[k]@ == commit_g1_of(*params, ps[k]),
            decreases n - j,
        {
            let num = if id == j {
                li.naive_mul(&li).sub(&li)
            } else {
                let lj = lagrange_poly(n, j);
                lj.naive_mul(&li)
            };
            let f = num.divide_by_vanishing(n).scale(&self.sk);
            assert(f@ == ps[j as int]);
            let com = match params.commit_g1(&f) {
                Ok(c) => c,
                Err(e) => {
                    return Err(e);
                },
            };
            sk_li_lj_z.push(com);
            j = j + 1;
        }
        let mut tail: Vec<Fr> = Vec::new();
        if li.coeffs.len() > 1 {
            let mut k: usize = 1;
            while k < li.coeffs.len()
                invariant
                    1 <= k <= li.coeffs@.len(),
                    tail@.len() == k - 1,
                    forall|m: int| 0 <= m < k - 1 ==> #[trigger] tail@[m]@ == li.coeffs@[m + 1]@,
                decreases li.coeffs@.len() - k,
            {
                tail.push(li.coeffs[k].copy());
                k = k + 1;
            }
        } else {
            tail.push(Fr::zero());
        }
        let lx = Poly::from_coeffs(tail);
        assert(lx@ =~= div_x(li@));
        let f = lx.scale(&self.sk);
        assert(f@ == ps[n as int]);
        let sk_li_x = match params.commit_g1(&f) {
            Ok(c) => c,
            Err(e) => {
                return Err(e);
            },
        };
        let mut f = li.scale(&self.sk);
        assert(f@ == ps[n + 1]);
        let sk_li = match params.commit_g1(&f) {
            Ok(c) => c,
            Err(e) => {
                return Err(e);
            },
        };
        if f.coeffs.len() > 0 {
            f.coeffs.set(0, Fr::zero());
        }
        assert(f@ =~= ps[n + 2]);
        let sk_li_minus0 = match params.commit_g1(&f) {
            Ok(c) => c,
            Err(e) => {
                return Err(e);
            },
        };
        proof {
            assert forall|k: int| 0 <= k < n + 3 implies commit_len(#[trigger] ps[k])
                <= params.powers_of_g@.len() by {
                if k >= n {
                    assert(k == n || k == n + 1 || k == n + 2);
                }
            }
        }
        Ok(PublicKey {
            id,
            bls_pk: G1::gen_mul(&self.sk),
            sk_li,
            sk_li_minus0,
            sk_li_lj_z,
            sk_li_x,
        })
    }

    /// The partial decryption `sk * gamma_g2` of a ciphertext: a BLS signature
    /// on `gamma_g2`. The ciphertext is not checked here.
    pub fn partial_decryption(&self, ct: &Ciphertext) -> (r: G2)
        ensures
            r@ == g2_mul_of(ct.gamma_g2@, self.scalar()),
            self.scalar() == fr_u64_bytes(1) ==> r@ == ct.gamma_g2@,
    {
        ct.gamma_g2.mul(&self.sk)
    }
}

/// `sum_{k < m} s[k]` in `G1`, added from the identity on the left.
pub open spec fn g1_sum(s: Seq<Seq<u8>>, m: nat) -> Seq<u8>
    decreases m,
{
    if m == 0 {
        g1_identity()
    } else {
        g1_add_of(g1_sum(s, (m - 1) as nat), s[m - 1])
    }
}

/// The `sk_li` hints of a sequence of public keys.
pub open spec fn sk_li_views(pk: Seq<PublicKey>) -> Seq<Seq<u8>> {
    pk.map_values(|p: PublicKey| p.sk_li@)
}

/// Column `j` of the cross-term hints of a sequence of public keys.
pub open spec fn column_views(pk: Seq<PublicKey>, j: int) -> Seq<Seq<u8>> {
    pk.map_values(|p: PublicKey| p.sk_li_lj_z@[j]@)
}

/// When `AggregateKey::new` succeeds: some keys, a transcript that reaches
/// degree `n`, and cross-term rows of length at least `n`.
pub open spec fn aggregate_ok(pk: Seq<PublicKey>, params: PowersOfTau) -> bool {
    &&& pk.len() > 0
    &&& pk.len() < params.powers_of_h@.len()
    &&& params.powers_of_g@.len() > 0
    &&& forall|k: int| 0 <= k < pk.len() ==> (#[trigger] pk[k]).sk_li_lj_z@.len() >= pk.len()
}

/// The aggregate key: the public keys, the sum of their `sk_li` hints, the
/// column sums of their cross-term hints, `Z(tau) h`, `-h` and `e(g, h)`.
#[derive(Debug, Clone)]
pub struct AggregateKey {
    pub pk: Vec<PublicKey>,
    pub agg_sk_li_lj_z: Vec<G1>,
    pub ask: G1,
    pub z_g2: G2,
    pub h_minus1: G2,
    pub e_gh: Gt,
}

/// Whether `ak` is the aggregate key of the keys `pk` over `params`.
pub open spec fn is_aggregate_of(ak: AggregateKey, pk: Seq<PublicKey>, params: PowersOfTau) -> bool {
    let n = pk.len();
    let h = params.powers_of_h@;
    let h_minus1 = g2_mul_of(h[0]@, fr_neg_of(fr_u64_bytes(1)));
    &&& ak.pk@.len() == n
    &&& forall|k: int| 0 <= k < n ==> (#[trigger] pk[k]).sk_li_lj_z@.len() >= n
    &&& forall|k: int| 0 <= k < n ==> same_pk(#[trigger] ak.pk@[k], pk[k])
    &&& ak.ask@ == g1_sum(sk_li_views(pk), n)
    &&& ak.agg_sk_li_lj_z@.len() == n
    &&& forall|j: int| 0 <= j < n ==> #[trigger] ak.agg_sk_li_lj_z@[j]@ == g1_sum(column_views(pk, j), n)
    &&& ak.h_minus1@ == h_minus1
    &&& ak.z_g2@ == g2_add_of(h[n as int]@, h_minus1)
    &&& ak.e_gh@ == multi_pairing_of(seq![params.powers_of_g@[0]@], seq![h[0]@])
}

/// The aggregate key is a function of the values of the keys it aggregates.
pub proof fn lemma_aggregate_of_same_keys(
    ak1: AggregateKey,
    ak2: AggregateKey,
    pk1: Seq<PublicKey>,
    pk2: Seq<PublicKey>,
    params: PowersOfTau,
)
    requires
        is_aggregate_of(ak1, pk1, params),
        is_aggregate_of(ak2, pk2, params),
        pk1.len() == pk2.len(),
        forall|k: int| 0 <= k < pk1.len() ==> same_pk(#[trigger] pk1[k], pk2[k]),
    ensures
        ak1.ask@ == ak2.ask@,
        g1_views(ak1.agg_sk_li_lj_z@) == g1_views(ak2.agg_sk_li_lj_z@),
        ak1.z_g2@ == ak2.z_g2@,
        ak1.h_minus1@ == ak2.h_minus1@,
        ak1.e_gh@ == ak2.e_gh@,
        forall|k: int| 0 <= k < pk1.len() ==> same_pk(#[trigger] ak1.pk@[k], ak2.pk@[k]),
{
    let n = pk1.len();
    assert(sk_li_views(pk1) =~= sk_li_views(pk2));
    assert forall|j: int| 0 <= j < n implies #[trigger] ak1.agg_sk_li_lj_z@[j]@ == ak2.agg_sk_li_lj_z@[j]@ by {
        assert forall|k: int| 0 <= k < n implies #[trigger] column_views(pk1, j)[k] == column_views(pk2, j)[k] by {
            assert(same_pk(pk1[k], pk2[k]));
            assert(g1_views(pk1[k].sk_li_lj_z@)[j] == pk1[k].sk_li_lj_z@[j]@);
            assert(g1_views(pk2[k].sk_li_lj_z@)[j] == pk2[k].sk_li_lj_z@[j]@);
        }
        assert(column_views(pk1, j) =~= column_views(pk2, j));
    }
    assert(g1_views(ak1.agg_sk_li_lj_z@) =~= g1_views(ak2.agg_sk_li_lj_z@));
    assert forall|k: int| 0 <= k < n implies same_pk(#[trigger] ak1.pk@[k], ak2.pk@[k]) by {
        assert(same_pk(ak1.pk@[k], pk1[k]));
        assert(same_pk(ak2.pk@[k], pk2[k]));
        assert(same_pk(pk1[k], pk2[k]));
    }
}

/// Filling the slot of an absent party `i` with `PublicKey::zero_for_domain`
/// gives the same aggregate key as filling it with the key of a secret key of
/// zero: two key vectors that agree except at `i`, where both hold a zero
/// slot, aggregate to the same values.
pub proof fn lemma_zero_slot_aggregate(
    ak1: AggregateKey,
    ak2: AggregateKey,
    pk1: Seq<PublicKey>,
    pk2: Seq<PublicKey>,
    params: PowersOfTau,
    i: int,
)
    requires
        is_aggregate_of(ak1, pk1, params),
        is_aggregate_of(ak2, pk2, params),
        pk1.len() == pk2.len(),
        0 <= i < pk1.len(),
        is_zero_slot(pk1[i], i as nat, pk1.len()),
        is_zero_slot(pk2[i], i as nat, pk1.len()),
        forall|k: int| 0 <= k < pk1.len() && k != i ==> same_pk(#[trigger] pk1[k], pk2[k]),
    ensures
        ak1.ask@ == ak2.ask@,
        g1_views(ak1.agg_sk_li_lj_z@) == g1_views(ak2.agg_sk_li_lj_z@),
        ak1.z_g2@ == ak2.z_g2@,
        ak1.h_minus1@ == ak2.h_minus1@,
        ak1.e_gh@ == ak2.e_gh@,
{
    assert(g1_views(pk1[i].sk_li_lj_z@) =~= g1_views(pk2[i].sk_li_lj_z@));
    assert(same_pk(pk1[i], pk2[i]));
    lemma_aggregate_of_same_keys(ak1, ak2, pk1, pk2, params);
}

impl AggregateKey {
    /// Aggregates the public keys of all `n` parties. `ValidationError` when
    /// there is no key, when the transcript does not reach degree `n`, or when
    /// a key's cross-term row is shorter than `n`.
    pub fn new(pk: Vec<PublicKey>, params: &PowersOfTau) -> (r: Result<AggregateKey, SteError>)
        ensures
            r.is_ok() <==> aggregate_ok(pk@, *params),
            r matches Ok(ak) ==> is_aggregate_of(ak, pk@, *params),
            r matches Err(e) ==> e is ValidationError,
    {
        let n = pk.len();
        if n == 0 {
            return Err(SteError::ValidationError("pk cannot be empty".to_string()));
        }
        if n >= params.powers_of_h.len() || params.powers_of_g.len() == 0 {
            return Err(SteError::ValidationError("n exceeds KZG parameters length".to_string()));
        }
        let mut k: usize = 0;
        while k < n
            invariant
                k <= n,
                n == pk@.len(),
                forall|m: int| 0 <= m < k ==> (#[trigger] pk@[m]).sk_li_lj_z@.len() >= n,
            decreases n - k,
        {
            if pk[k].sk_li_lj_z.len() < n {
                return Err(SteError::ValidationError("public key hints shorter than n".to_string()));
            }
            k = k + 1;
        }
        let h_minus1 = params.powers_of_h[0].mul(&Fr::one().neg());
        let z_g2 = params.powers_of_h[n].add(&h_minus1);
        let mut ask = G1::zero();
        let mut k: usize = 0;
        while k < n
            invariant
                k <= n,
                n == pk@.len(),
                ask@ == g1_sum(sk_li_views(pk@), k as nat),
            decreases n - k,
        {
            ask = ask.add(&pk[k].sk_li);
            k = k + 1;
        }
        let mut agg_sk_li_lj_z: Vec<G1> = Vec::new();
        let mut i: usize = 0;
        while i < n
            invariant
                i <= n,
                n == pk@.len(),
                forall|m: int| 0 <= m < n ==> (#[trigger] pk@[m]).sk_li_lj_z@.len() >= n,
                agg_sk_li_lj_z@.len() == i,
                forall|j: int| 0 <= j < i ==> #[trigger] agg_sk_li_lj_z@[j]@ == g1_sum(column_views(pk@, j), n as nat),
            decreases n - i,
        {
            let mut acc = G1::zero();
            let mut k: usize = 0;
            while k < n
                invariant
                    k <= n,
                    i < n,
                    n == pk@.len(),
                    forall|m: int| 0 <= m < n ==> (#[trigger] pk@[m]).sk_li_lj_z@.len() >= n,
                    acc@ == g1_sum(column_views(pk@, i as int), k as nat),
                decreases n - k,
            {
                acc = acc.add(&pk[k].sk_li_lj_z[i]);
                k = k + 1;
            }
            agg_sk_li_lj_z.push(acc);
            i = i + 1;
        }
        let e_gh = Gt::pairing(&params.powers_of_g[0], &params.powers_of_h[0]);
        let ghost pk0 = pk@;
        let ak = AggregateKey { pk, agg_sk_li_lj_z, ask, z_g2, h_minus1, e_gh };
        Ok(ak)
    }
}

/// The encodings of public keys, one after the other.
pub open spec fn pks_encoding(pks: Seq<PublicKey>) -> Seq<u8>
    decreases pks.len(),
{
    if pks.len() == 0 {
        seq![]
    } else {
        pks_encoding(pks.drop_last()) + pk_encoding(pks.last())
    }
}

/// The encoding of an aggregate key: the count of public keys, the keys, the
/// counted column sums, then `ask`, `z_g2`, `h_minus1` and `e_gh`.
pub open spec fn ak_encoding(ak: AggregateKey) -> Seq<u8> {
    u64_le(ak.pk@.len() as u64) + pks_encoding(ak.pk@) + vec_encoding(g1_views(ak.agg_sk_li_lj_z@))
        + ak.ask@ + ak.z_g2@ + ak.h_minus1@ + ak.e_gh@
}

/// Where `k` public keys that start at `pos` end, if they all decode.
pub open spec fn pks_end(b: Seq<u8>, pos: int, k: nat) -> Option<int>
    decreases k,
{
    if k == 0 {
        Some(pos)
    } else {
        match pks_end(b, pos, (k - 1) as nat) {
            Some(p) => pk_end(b, p),
            None => None,
        }
    }
}

/// Whether the fixed tail of an aggregate key (`ask`, `z_g2`, `h_minus1`,
/// `e_gh`) is valid at `q` and ends the bytes.
pub open spec fn ak_tail_ok(b: Seq<u8>, q: int) -> bool {
    &&& b.len() == q + 816
    &&& g1_valid(b.subrange(q, q + 48))
    &&& g2_valid(b.subrange(q + 48, q + 144))
    &&& g2_valid(b.subrange(q + 144, q + 240))
    &&& gt_valid(b.subrange(q + 240, q + 816))
}

/// Whether `b` is the encoding of an aggregate key.
pub open spec fn ak_decodable(b: Seq<u8>) -> bool {
    &&& b.len() >= 8
    &&& le_u64(b.subrange(0, 8)) <= usize::MAX
    &&& pks_end(b, 8, le_u64(b.subrange(0, 8)) as nat) is Some
    &&& g1s_decodable(b, pks_end(b, 8, le_u64(b.subrange(0, 8)) as nat)->Some_0)
    &&& ak_tail_ok(b, g1s_end(b, pks_end(b, 8, le_u64(b.subrange(0, 8)) as nat)->Some_0))
}

/// Keys that fail to decode stay failed when more are read.
pub proof fn lemma_pks_end_none(b: Seq<u8>, pos: int, i: nat, k: nat)
    requires
        pks_end(b, pos, i) is None,
        i <= k,
    ensures
        pks_end(b, pos, k) is None,
    decreases k - i,
{
    if i < k {
        lemma_pks_end_none(b, pos, i, (k - 1) as nat);
    }
}

/// Valid keys embedded at `pos` decode there and end after their encoding;
/// other valid keys, as many, with an encoding there hold the same values.
pub proof fn lemma_pks_at(b: Seq<u8>, pos: int, ks: Seq<PublicKey>, ls: Seq<PublicKey>)
    requires
        forall|i: int| 0 <= i < ks.len() ==> pk_valid(#[trigger] ks[i]),
        forall|i: int| 0 <= i < ls.len() ==> pk_valid(#[trigger] ls[i]),
        0 <= pos,
        pos + pks_encoding(ks).len() <= b.len(),
        b.subrange(pos, pos + pks_encoding(ks).len()) == pks_encoding(ks),
    ensures
        pks_end(b, pos, ks.len()) == Some(pos + pks_encoding(ks).len()),
        ls.len() == ks.len() && pos + pks_encoding(ls).len() <= b.len() && b.subrange(
            pos,
            pos + pks_encoding(ls).len(),
        ) == pks_encoding(ls) ==> forall|i: int| 0 <= i < ks.len() ==> same_pk(#[trigger] ls[i], ks[i]),
    decreases ks.len(),
{
    if ks.len() > 0 {
        let pk = ks.drop_last();
        let last = ks.last();
        let ep = pks_encoding(pk);
        let el = pk_encoding(last);
        let lp = ep.len() as int;
        let lt = pks_encoding(ks).len() as int;
        assert(pks_encoding(ks) == ep + el);
        assert(b.subrange(pos, pos + lp) =~= pks_encoding(ks).subrange(0, lp));
        assert(pks_encoding(ks).subrange(0, lp) =~= ep);
        let pl = if ls.len() == ks.len() { ls.drop_last() } else { ls };
        lemma_pks_at(b, pos, pk, pl);
        let q = pos + lp;
        assert(b.subrange(q, q + el.len()) =~= pks_encoding(ks).subrange(lp, lt));
        assert(pks_encoding(ks).subrange(lp, lt) =~= el);
        let ll = if ls.len() == ks.len() { ls.last() } else { last };
        lemma_public_key_at(b, q, last, ll);
        if ls.len() == ks.len() && pos + pks_encoding(ls).len() <= b.len() && b.subrange(
            pos,
            pos + pks_encoding(ls).len(),
        ) == pks_encoding(ls) {
            let eo = pks_encoding(pl);
            let fl = pk_encoding(ll);
            let lo = eo.len() as int;
            let lu = pks_encoding(ls).len() as int;
            assert(pks_encoding(ls) == eo + fl);
            assert(b.subrange(pos, pos + lo) =~= pks_encoding(ls).subrange(0, lo));
            assert(pks_encoding(ls).subrange(0, lo) =~= eo);
            lemma_pks_at(b, pos, pl, pk);
            assert(lo == lp);
            assert(b.subrange(q, q + fl.len()) =~= pks_encoding(ls).subrange(lo, lu));
            assert(pks_encoding(ls).subrange(lo, lu) =~= fl);
            assert forall|i: int| 0 <= i < ks.len() implies same_pk(#[trigger] ls[i], ks[i]) by {
                if i < ks.len() - 1 {
                    assert(ks[i] == pk[i]);
                    assert(ls[i] == pl[i]);
                }
            }
        }
    }
}

/// Whether every element of an aggregate key has a valid encoding of its
/// size and the counts fit, as the types guarantee of every value.
pub open spec fn ak_valid(ak: AggregateKey) -> bool {
    &&& ak.pk@.len() <= usize::MAX
    &&& ak.pk@.len() <= u64::MAX
    &&& forall|i: int| 0 <= i < ak.pk@.len() ==> pk_valid(#[trigger] ak.pk@[i])
    &&& g1s_valid(ak.agg_sk_li_lj_z@)
    &&& ak.ask@.len() == G1_BYTES && g1_valid(ak.ask@)
    &&& ak.z_g2@.len() == G2_BYTES && g2_valid(ak.z_g2@)
    &&& ak.h_minus1@.len() == G2_BYTES && g2_valid(ak.h_minus1@)
    &&& ak.e_gh@.len() == GT_BYTES && gt_valid(ak.e_gh@)
}

/// Serialization round trip of aggregate keys: the encoding of an aggregate
/// key decodes, and the only aggregate key with that encoding holds the same
/// values.
#[verifier::rlimit(100)]
pub proof fn lemma_aggregate_key_round_trip(ak: AggregateKey, other: AggregateKey)
    requires
        ak_valid(ak),
        ak_valid(other),
    ensures
        ak_decodable(ak_encoding(ak)),
        ak_encoding(other) == ak_encoding(ak) ==> {
            &&& other.pk@.len() == ak.pk@.len()
            &&& forall|i: int| 0 <= i < ak.pk@.len() ==> same_pk(#[trigger] other.pk@[i], ak.pk@[i])
            &&& g1_views(other.agg_sk_li_lj_z@) == g1_views(ak.agg_sk_li_lj_z@)
            &&& other.ask@ == ak.ask@
            &&& other.z_g2@ == ak.z_g2@
            &&& other.h_minus1@ == ak.h_minus1@
            &&& other.e_gh@ == ak.e_gh@
        },
{
    let b = ak_encoding(ak);
    let ep = pks_encoding(ak.pk@);
    let ev = vec_encoding(g1_views(ak.agg_sk_li_lj_z@));
    let lp = ep.len() as int;
    assert(ev.subrange(0, ev.len() as int) =~= ev);
    lemma_g1s_at(ev, 0, ak.agg_sk_li_lj_z@);
    let lv = ev.len() as int;
    let p = 8 + lp;
    let q = p + lv;
    assert(b == u64_le(ak.pk@.len() as u64) + ep + ev + ak.ask@ + ak.z_g2@ + ak.h_minus1@ + ak.e_gh@);
    assert(b.subrange(0, 8) =~= u64_le(ak.pk@.len() as u64));
    lemma_u64_le(ak.pk@.len() as u64, seq![]);
    assert(b.subrange(8, p) =~= ep);
    lemma_pks_at(b, 8, ak.pk@, other.pk@);
    assert(b.subrange(p, q) =~= ev);
    lemma_g1s_at(b, p, ak.agg_sk_li_lj_z@);
    assert(b.subrange(q, q + 48) =~= ak.ask@);
    assert(b.subrange(q + 48, q + 144) =~= ak.z_g2@);
    assert(b.subrange(q + 144, q + 240) =~= ak.h_minus1@);
    assert(b.subrange(q + 240, q + 816) =~= ak.e_gh@);
    if ak_encoding(other) == b {
        lemma_aggregate_key_same_encoding(ak, other);

    }
}

/// Two aggregate keys with the same encoding hold the same public keys, and
/// their key parts have the same length.
#[verifier::rlimit(100)]
proof fn lemma_aggregate_key_same_keys(ak: AggregateKey, other: AggregateKey)
    requires
        ak_valid(ak),
        ak_valid(other),
        ak_encoding(other) == ak_encoding(ak),
    ensures
        other.pk@.len() == ak.pk@.len(),
        pks_encoding(other.pk@).len() == pks_encoding(ak.pk@).len(),
        forall|i: int| 0 <= i < ak.pk@.len() ==> same_pk(#[trigger] other.pk@[i], ak.pk@[i]),
{
    let b = ak_encoding(ak);
    let ep = pks_encoding(ak.pk@);
    let fp = pks_encoding(other.pk@);
    let lp = ep.len() as int;
    let lf = fp.len() as int;
    assert(b.subrange(0, 8) =~= u64_le(ak.pk@.len() as u64));
    assert(b.subrange(0, 8) =~= u64_le(other.pk@.len() as u64));
    lemma_u64_le(ak.pk@.len() as u64, seq![]);
    lemma_u64_le(other.pk@.len() as u64, seq![]);
    assert(b.subrange(8, 8 + lp) =~= ep);
    assert(b.subrange(8, 8 + lf) =~= fp);
    lemma_pks_at(b, 8, ak.pk@, other.pk@);
    lemma_pks_at(b, 8, other.pk@, ak.pk@);
    assert forall|i: int| 0 <= i < ak.pk@.len() implies same_pk(#[trigger] other.pk@[i], ak.pk@[i]) by {
        assert(same_pk(ak.pk@[i], other.pk@[i]));
        assert(g1_views(other.pk@[i].sk_li_lj_z@) == g1_views(ak.pk@[i].sk_li_lj_z@));
    }
}

/// An aggregate key whose encoding equals that of another holds the same
/// values.
#[verifier::rlimit(100)]
proof fn lemma_aggregate_key_same_encoding(ak: AggregateKey, other: AggregateKey)
    requires
        ak_valid(ak),
        ak_valid(other),
        ak_encoding(other) == ak_encoding(ak),
    ensures
        other.pk@.len() == ak.pk@.len(),
        forall|i: int| 0 <= i < ak.pk@.len() ==> same_pk(#[trigger] other.pk@[i], ak.pk@[i]),
        g1_views(other.agg_sk_li_lj_z@) == g1_views(ak.agg_sk_li_lj_z@),
        other.ask@ == ak.ask@,
        other.z_g2@ == ak.z_g2@,
        other.h_minus1@ == ak.h_minus1@,
        other.e_gh@ == ak.e_gh@,
{
    lemma_aggregate_key_same_keys(ak, other);
    let b = ak_encoding(ak);
    let p: int = 8 + pks_encoding(ak.pk@).len() as int;
    let ev = vec_encoding(g1_views(ak.agg_sk_li_lj_z@));
    let fv = vec_encoding(g1_views(other.agg_sk_li_lj_z@));
    assert(ev.subrange(0, ev.len() as int) =~= ev);
    assert(fv.subrange(0, fv.len() as int) =~= fv);
    lemma_g1s_at(ev, 0, ak.agg_sk_li_lj_z@);
    lemma_g1s_at(fv, 0, other.agg_sk_li_lj_z@);
    let q: int = p + ev.len() as int;
    let lf: int = fv.len() as int;
    assert(b.subrange(p, q) =~= ev);
    assert(b.subrange(p, p + lf) =~= fv);
    lemma_g1s_at(b, p, ak.agg_sk_li_lj_z@);
    lemma_g1s_at(b, p, other.agg_sk_li_lj_z@);
    assert(fv =~= ev);
    lemma_g1s_injective(ak.agg_sk_li_lj_z@, other.agg_sk_li_lj_z@);
    assert(b.subrange(q, q + 48) =~= ak.ask@);
    assert(b.subrange(q, q + 48) =~= other.ask@);
    assert(b.subrange(q + 48, q + 144) =~= ak.z_g2@);
    assert(b.subrange(q + 48, q + 144) =~= other.z_g2@);
    assert(b.subrange(q + 144, q + 240) =~= ak.h_minus1@);
    assert(b.subrange(q + 144, q + 240) =~= other.h_minus1@);
    assert(b.subrange(q + 240, q + 816) =~= ak.e_gh@);
    assert(b.subrange(q + 240, q + 816) =~= other.e_gh@);
}

impl AggregateKey {
    /// The encoding (see `ak_encoding`).
    pub fn to_bytes(&self) -> (r: Vec<u8>)
        ensures
            r@ == ak_encoding(*self),
    {
        let mut out: Vec<u8> = Vec::new();
        put_u64(&mut out, self.pk.len() as u64);
        let ghost head = out@;
        let mut k: usize = 0;
        while k < self.pk.len()
            invariant
                k <= self.pk@.len(),
                out@ == head + pks_encoding(self.pk@.subrange(0, k as int)),
            decreases self.pk@.len() - k,
        {
            let mut x = self.pk[k].to_bytes();
            out.append(&mut x);
            assert(self.pk@.subrange(0, k + 1).drop_last() =~= self.pk@.subrange(0, k as int));
            k = k + 1;
        }
        assert(self.pk@.subrange(0, self.pk@.len() as int) =~= self.pk@);
        write_g1s(&mut out, &self.agg_sk_li_lj_z);
        let mut x = self.ask.to_bytes();
        out.append(&mut x);
        let mut x = self.z_g2.to_bytes();
        out.append(&mut x);
        let mut x = self.h_minus1.to_bytes();
        out.append(&mut x);
        let mut x = self.e_gh.to_bytes();
        out.append(&mut x);
        assert(out@ =~= ak_encoding(*self));
        out
    }

    /// Decodes an aggregate key; `SerializationError` unless the bytes are
    /// the encoding of one. Encoding the result gives the bytes back.
    pub fn from_bytes(b: &Vec<u8>) -> (r: Result<AggregateKey, SteError>)
        ensures
            r is Ok <==> ak_decodable(b@),
            r matches Ok(ak) ==> ak_encoding(ak) == b@,
            r matches Err(e) ==> e is SerializationError,
    {
        if b.len() < 8 {
            return Err(SteError::SerializationError("aggregate key too short".to_string()));
        }
        let k64 = get_u64(b, 0);
        if k64 > usize::MAX as u64 {
            return Err(SteError::SerializationError("key count too large".to_string()));
        }
        let k = k64 as usize;
        let mut pk: Vec<PublicKey> = Vec::new();
        let mut pos: usize = 8;
        let mut i: usize = 0;
        while i < k
            invariant
                i <= k,
                k == le_u64(b@.subrange(0, 8)),
                8 <= pos <= b@.len(),
                pk@.len() == i,
                pks_end(b@, 8, i as nat) == Some(pos as int),
                b@.subrange(8, pos as int) == pks_encoding(pk@),
            decreases k - i,
        {
            let (key, next) = match read_public_key(b, pos) {
                Ok(v) => v,
                Err(e) => {
                    proof {
                        lemma_pks_end_none(b@, 8, (i + 1) as nat, k as nat);
                    }
                    return Err(e);
                },
            };
            let ghost before = pk@;
            pk.push(key);
            proof {
                assert(pk@.drop_last() == before);
                assert(b@.subrange(8, next as int) =~= b@.subrange(8, pos as int) + b@.subrange(
                    pos as int,
                    next as int,
                ));
            }
            pos = next;
            i = i + 1;
        }
        let (agg_sk_li_lj_z, q) = match read_g1s(b, pos) {
            Ok(v) => v,
            Err(e) => {
                return Err(e);
            },
        };
        if b.len() - q != 816 {
            return Err(SteError::SerializationError("aggregate key length".to_string()));
        }
        let ask = match G1::from_bytes(&take(b, q, 48)) {
            Ok(v) => v,
            Err(e) => {
                return Err(e);
            },
        };
        let z_g2 = match G2::from_bytes(&take(b, q + 48, 96)) {
            Ok(v) => v,
            Err(e) => {
                return Err(e);
            },
        };
        let h_minus1 = match G2::from_bytes(&take(b, q + 144, 96)) {
            Ok(v) => v,
            Err(e) => {
                return Err(e);
            },
        };
        let e_gh = match Gt::from_bytes(&take(b, q + 240, 576)) {
            Ok(v) => v,
            Err(e) => {
                return Err(e);
            },
        };
        proof {
            lemma_u64_le(0, b@.subrange(0, 8));
            assert(b@ =~= b@.subrange(0, 8) + b@.subrange(8, pos as int) + b@.subrange(pos as int, q as int)
                + b@.subrange(q as int, q + 48) + b@.subrange(q + 48, q + 144) + b@.subrange(q + 144, q + 240)
                + b@.subrange(q + 240, q + 816));
        }
        Ok(AggregateKey { pk, agg_sk_li_lj_z, ask, z_g2, h_minus1, e_gh })
    }
}

} // verus!
