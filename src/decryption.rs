//! Aggregate decryption: checks the quorum, recombines the partial
//! decryptions and verifies the result against the ciphertext.
use vstd::prelude::*;

use crate::algebra::{
    all_zero, fr_inverse_of, fr_neg_of, fr_sub_of, fr_u64_bytes, fr_views, g1_msm_of, g1_mul_of,
    g1_views, g2_msm_of, g2_mul_of, g2_views, multi_pairing_of, Fr, Gt, G1, G2,
};
use crate::encryption::Ciphertext;
use crate::error::SteError;
use crate::kzg::{commit_len, PowersOfTau};
use crate::poly::{
    degree_of, domain_elements, domain_elements_of, domain_exists, domain_ok, fft, fft_of,
    interp_mostly_zero, is_pow2, is_power_of_two, mostly_zero_defined, mostly_zero_of,
    poly_div_of, poly_eval_of, Poly,
};
use crate::setup::{commit_g1_of, AggregateKey, PublicKey};

verus! {

/// Indices `i < m` with `sel[i]`, in increasing order.
pub open spec fn parties_upto(sel: Seq<bool>, m: nat) -> Seq<int>
    decreases m,
{
    if m == 0 {
        seq![]
    } else if sel[m - 1] {
        parties_upto(sel, (m - 1) as nat).push(m - 1)
    } else {
        parties_upto(sel, (m - 1) as nat)
    }
}

/// `dom[0]` followed by `dom[i]` for each `i < m` with `!sel[i]`.
pub open spec fn points_upto(sel: Seq<bool>, dom: Seq<Seq<u8>>, m: nat) -> Seq<Seq<u8>>
    decreases m,
{
    if m == 0 {
        seq![dom[0]]
    } else if sel[m - 1] {
        points_upto(sel, dom, (m - 1) as nat)
    } else {
        points_upto(sel, dom, (m - 1) as nat).push(dom[m - 1])
    }
}

/// The entries of `v` at the indices `idx`.
pub open spec fn pick(v: Seq<Seq<u8>>, idx: Seq<int>) -> Seq<Seq<u8>> {
    idx.map_values(|i: int| v[i])
}

/// Number of selected parties.
pub open spec fn num_selected(sel: Seq<bool>) -> nat {
    parties_upto(sel, sel.len()).len()
}

/// The quorum checks that precede any pairing: lengths agree with `n`, `n`
/// is a power of two with a domain, party 0 is selected, at least `t + 1`
/// parties are selected, and the aggregate key has its `n` column sums.
pub open spec fn quorum_ok(n_partials: nat, sel: Seq<bool>, ak: AggregateKey, t: nat) -> bool {
    let n = ak.pk@.len();
    &&& n_partials == n
    &&& sel.len() == n
    &&& domain_ok(n)
    &&& sel[0]
    &&& num_selected(sel) >= t + 1
    &&& ak.agg_sk_li_lj_z@.len() == n
}

/// The polynomial `B`: one at `omega^0`, zero at every unselected party.
pub open spec fn b_poly(sel: Seq<bool>, n: nat) -> Seq<Seq<u8>> {
    mostly_zero_of(fr_u64_bytes(1), points_upto(sel, domain_elements_of(n as usize), n))
}

/// `B - 1`.
pub open spec fn b_minus1(b: Seq<Seq<u8>>) -> Seq<Seq<u8>> {
    b.update(0, fr_sub_of(b[0], fr_u64_bytes(1)))
}

/// `X - omega^0`.
pub open spec fn x_minus_1(n: nat) -> Seq<Seq<u8>> {
    seq![fr_neg_of(domain_elements_of(n as usize)[0]), fr_u64_bytes(1)]
}

/// `X^(t+1) B`.
pub open spec fn b_hat(b: Seq<Seq<u8>>, t: nat) -> Seq<Seq<u8>> {
    Seq::new(t + 1, |i: int| fr_u64_bytes(0)) + b
}

/// The polynomial checks of aggregate decryption, on `B`.
pub open spec fn b_checks_ok(sel: Seq<bool>, n: nat, t: nat, params: PowersOfTau) -> bool {
    let dom = domain_elements_of(n as usize);
    let pts = points_upto(sel, dom, n);
    let b = b_poly(sel, n);
    &&& mostly_zero_defined(pts)
    &&& 0 < b.len() <= n
    &&& degree_of(b) == pts.len() - 1
    &&& poly_eval_of(b, dom[0]) == fr_u64_bytes(1)
    &&& all_zero(poly_eval_of(b_minus1(b), dom[0]))
    &&& degree_of(b_hat(b, t)) <= n
    &&& commit_len(b) <= params.powers_of_h@.len()
    &&& commit_len(poly_div_of(b_minus1(b), x_minus_1(n))) <= params.powers_of_g@.len()
    &&& commit_len(b_hat(b, t)) <= params.powers_of_g@.len()
}

/// `-1`.
pub open spec fn minus_one() -> Seq<u8> {
    fr_neg_of(fr_u64_bytes(1))
}

/// The key the multi-pairing of aggregate decryption recombines.
pub open spec fn recombined_key(
    partials: Seq<Seq<u8>>,
    ct: Ciphertext,
    sel: Seq<bool>,
    ak: AggregateKey,
    params: PowersOfTau,
) -> Seq<u8> {
    let n = ak.pk@.len();
    let t = ct.t as nat;
    let b = b_poly(sel, n);
    let ev = fft_of(n as usize, b);
    let ps = parties_upto(sel, n);
    let evs = pick(ev, ps);
    let n_inv = fr_inverse_of(fr_u64_bytes(n as u64));
    let pk = ak.pk@;
    let apk = g1_mul_of(g1_msm_of(pick(pk.map_values(|p: PublicKey| p.bls_pk@), ps), evs), n_inv);
    let sigma = g2_mul_of(g2_msm_of(pick(partials, ps), evs), n_inv);
    let qx = g1_msm_of(pick(pk.map_values(|p: PublicKey| p.sk_li_x@), ps), evs);
    let qz = g1_msm_of(pick(g1_views(ak.agg_sk_li_lj_z@), ps), evs);
    let qhatx = g1_msm_of(pick(pk.map_values(|p: PublicKey| p.sk_li_minus0@), ps), evs);
    let b_g2 = g2_msm_of(
        g2_views(params.powers_of_h@.subrange(0, commit_len(b) as int)),
        b.subrange(0, commit_len(b) as int),
    );
    let q0_g1 = commit_g1_of(params, poly_div_of(b_minus1(b), x_minus_1(n)));
    let bhat_g1 = commit_g1_of(params, b_hat(b, t));
    let m1 = minus_one();
    multi_pairing_of(
        seq![
            g1_mul_of(apk, m1),
            g1_mul_of(qz, m1),
            g1_mul_of(qx, m1),
            qhatx,
            g1_mul_of(bhat_g1, m1),
            g1_mul_of(q0_g1, m1),
            ct.sa1[0]@,
            ct.sa1[1]@,
        ],
        seq![
            ct.sa2[0]@,
            ct.sa2[1]@,
            ct.sa2[2]@,
            ct.sa2[3]@,
            ct.sa2[4]@,
            ct.sa2[5]@,
            b_g2,
            sigma,
        ],
    )
}

/// The parties below `m` are increasing indices below `m`.
proof fn lemma_parties_bound(sel: Seq<bool>, m: nat)
    ensures
        parties_upto(sel, m).len() <= m,
        forall|k: int|
            0 <= k < parties_upto(sel, m).len() ==> 0 <= #[trigger] parties_upto(sel, m)[k] < m,
    decreases m,
{
    if m > 0 {
        lemma_parties_bound(sel, (m - 1) as nat);
    }
}

/// Points and parties split the indices below `m`: one point per unselected
/// index plus `omega^0`.
proof fn lemma_points_len(sel: Seq<bool>, dom: Seq<Seq<u8>>, m: nat)
    ensures
        points_upto(sel, dom, m).len() + parties_upto(sel, m).len() == m + 1,
    decreases m,
{
    if m > 0 {
        lemma_points_len(sel, dom, (m - 1) as nat);
    }
}

/// Copies of `v[idx[k]]`.
fn pick_g1(v: &Vec<G1>, idx: &Vec<usize>) -> (r: Vec<G1>)
    requires
        forall|k: int| 0 <= k < idx@.len() ==> #[trigger] idx@[k] < v@.len(),
    ensures
        g1_views(r@) == pick(g1_views(v@), idx@.map_values(|i: usize| i as int)),
{
    let mut r: Vec<G1> = Vec::new();
    let mut k: usize = 0;
    while k < idx.len()
        invariant
            k <= idx@.len(),
            forall|m: int| 0 <= m < idx@.len() ==> #[trigger] idx@[m] < v@.len(),
            r@.len() == k,
            forall|m: int| 0 <= m < k ==> #[trigger] r@[m]@ == v@[idx@[m] as int]@,
        decreases idx@.len() - k,
    {
        r.push(v[idx[k]].copy());
        k = k + 1;
    }
    assert(g1_views(r@) =~= pick(g1_views(v@), idx@.map_values(|i: usize| i as int)));
    r
}

/// Copies of `v[idx[k]]`.
fn pick_g2(v: &Vec<G2>, idx: &Vec<usize>) -> (r: Vec<G2>)
    requires
        forall|k: int| 0 <= k < idx@.len() ==> #[trigger] idx@[k] < v@.len(),
    ensures
        g2_views(r@) == pick(g2_views(v@), idx@.map_values(|i: usize| i as int)),
{
    let mut r: Vec<G2> = Vec::new();
    let mut k: usize = 0;
    while k < idx.len()
        invariant
            k <= idx@.len(),
            forall|m: int| 0 <= m < idx@.len() ==> #[trigger] idx@[m] < v@.len(),
            r@.len() == k,
            forall|m: int| 0 <= m < k ==> #[trigger] r@[m]@ == v@[idx@[m] as int]@,
        decreases idx@.len() - k,
    {
        r.push(v[idx[k]].copy());
        k = k + 1;
    }
    assert(g2_views(r@) =~= pick(g2_views(v@), idx@.map_values(|i: usize| i as int)));
    r
}

/// Copies of `v[idx[k]]`.
fn pick_fr(v: &Vec<Fr>, idx: &Vec<usize>) -> (r: Vec<Fr>)
    requires
        forall|k: int| 0 <= k < idx@.len() ==> #[trigger] idx@[k] < v@.len(),
    ensures
        fr_views(r@) == pick(fr_views(v@), idx@.map_values(|i: usize| i as int)),
{
    let mut r: Vec<Fr> = Vec::new();
    let mut k: usize = 0;
    while k < idx.len()
        invariant
            k <= idx@.len(),
            forall|m: int| 0 <= m < idx@.len() ==> #[trigger] idx@[m] < v@.len(),
            r@.len() == k,
            forall|m: int| 0 <= m < k ==> #[trigger] r@[m]@ == v@[idx@[m] as int]@,
        decreases idx@.len() - k,
    {
        r.push(v[idx[k]].copy());
        k = k + 1;
    }
    assert(fr_views(r@) =~= pick(fr_views(v@), idx@.map_values(|i: usize| i as int)));
    r
}

/// One field of every public key: 0 for `bls_pk`, 1 for `sk_li_x`, otherwise
/// `sk_li_minus0`.
fn pk_column(pk: &Vec<PublicKey>, which: u8) -> (r: Vec<G1>)
    ensures
        which == 0 ==> g1_views(r@) == pk@.map_values(|p: PublicKey| p.bls_pk@),
        which == 1 ==> g1_views(r@) == pk@.map_values(|p: PublicKey| p.sk_li_x@),
        which >= 2 ==> g1_views(r@) == pk@.map_values(|p: PublicKey| p.sk_li_minus0@),
{
    let mut r: Vec<G1> = Vec::new();
    let mut k: usize = 0;
    while k < pk.len()
        invariant
            k <= pk@.len(),
            r@.len() == k,
            forall|m: int|
                0 <= m < k ==> #[trigger] r@[m]@ == (if which == 0 {
                    pk@[m].bls_pk@
                } else if which == 1 {
                    pk@[m].sk_li_x@
                } else {
                    pk@[m].sk_li_minus0@
                }),
        decreases pk@.len() - k,
    {
        let p = if which == 0 {
            pk[k].bls_pk.copy()
        } else if which == 1 {
            pk[k].sk_li_x.copy()
        } else {
            pk[k].sk_li_minus0.copy()
        };
        r.push(p);
        k = k + 1;
    }
    if which == 0 {
        assert(g1_views(r@) =~= pk@.map_values(|p: PublicKey| p.bls_pk@));
    } else if which == 1 {
        assert(g1_views(r@) =~= pk@.map_values(|p: PublicKey| p.sk_li_x@));
    } else {
        assert(g1_views(r@) =~= pk@.map_values(|p: PublicKey| p.sk_li_minus0@));
    }
    r
}

/// Aggregate decryption: recovers the session key from the partial
/// decryptions of the selected parties (`partials[i]` is the `G2` identity for
/// an absent party).
///
/// Before any pairing it fails with `ValidationError` when a length differs
/// from `n`, with `InvalidParameter` when `n` is not a power of two, with
/// `ValidationError` when party 0 is not selected, and with `InvalidThreshold`
/// when fewer than `t + 1` parties are selected. It returns the recombined key
/// exactly when the polynomial checks pass and that key equals `ct.enc_key`;
/// otherwise `ValidationError` ("decryption verification failed" for the final
/// comparison) or the `KzgError` of a commitment beyond the transcript.
pub fn agg_dec(
    partial_decryptions: &Vec<G2>,
    ct: &Ciphertext,
    selector: &Vec<bool>,
    agg_key: &AggregateKey,
    params: &PowersOfTau,
) -> (r: Result<Gt, SteError>)
    ensures
        ({
            let n = agg_key.pk@.len();
            let sel = selector@;
            let t = ct.t as nat;
            &&& (partial_decryptions@.len() != n ==> r matches Err(SteError::ValidationError(_)))
            &&& (partial_decryptions@.len() == n && sel.len() != n ==> r matches Err(
                SteError::ValidationError(_),
            ))
            &&& (partial_decryptions@.len() == n && sel.len() == n && !is_pow2(n)
                ==> r matches Err(SteError::InvalidParameter(_)))
            &&& (partial_decryptions@.len() == n && sel.len() == n && is_pow2(n) && !sel[0]
                ==> (r matches Err(SteError::ValidationError(m)) && m@
                == "Party 0 (dummy party) must always be selected"@))
            &&& (partial_decryptions@.len() == n && sel.len() == n && is_pow2(n) && sel[0]
                && num_selected(sel) < t + 1 ==> r matches Err(SteError::InvalidThreshold(_)))
            &&& (r is Ok ==> quorum_ok(partial_decryptions@.len(), sel, *agg_key, t))
            &&& (r matches Ok(k) ==> k@ == ct.enc_key@ && k@ == recombined_key(
                g2_views(partial_decryptions@),
                *ct,
                sel,
                *agg_key,
                *params,
            ))
            &&& (quorum_ok(partial_decryptions@.len(), sel, *agg_key, t) && b_checks_ok(
                sel,
                n,
                t,
                *params,
            ) && recombined_key(g2_views(partial_decryptions@), *ct, sel, *agg_key, *params)
                == ct.enc_key@ ==> r is Ok)
            &&& (quorum_ok(partial_decryptions@.len(), sel, *agg_key, t) && b_checks_ok(
                sel,
                n,
                t,
                *params,
            ) && recombined_key(g2_views(partial_decryptions@), *ct, sel, *agg_key, *params)
                != ct.enc_key@ ==> (r matches Err(SteError::ValidationError(m)) && m@
                == "decryption verification failed"@))
        }),
{
    let n = agg_key.pk.len();
    let t = ct.t;
    let ghost sel = selector@;
    if partial_decryptions.len() != n {
        return Err(SteError::ValidationError("partial_decryptions length must equal n".to_string()));
    }
    if selector.len() != n {
        return Err(SteError::ValidationError("selector length must equal n".to_string()));
    }
    if !is_power_of_two(n) {
        return Err(SteError::InvalidParameter("n must be a power of 2".to_string()));
    }
    if !selector[0] {
        proof {
            reveal_strlit("Party 0 (dummy party) must always be selected");
        }
        return Err(
            SteError::ValidationError("Party 0 (dummy party) must always be selected".to_string()),
        );
    }
    // the selected parties, in increasing order
    let mut parties: Vec<usize> = Vec::new();
    let mut i: usize = 0;
    while i < n
        invariant
            i <= n,
            n == selector@.len(),
            sel == selector@,
            parties@.len() == parties_upto(sel, i as nat).len(),
            forall|k: int| 0 <= k < parties@.len() ==> #[trigger] parties@[k] as int == parties_upto(sel, i as nat)[k],
        decreases n - i,
    {
        if selector[i] {
            parties.push(i);
        }
        proof {
            if sel[i as int] {
                assert(parties_upto(sel, (i + 1) as nat) == parties_upto(sel, i as nat).push(i as int));
            }
        }
        i = i + 1;
    }
    proof {
        lemma_parties_bound(sel, n as nat);
        assert(parties@.map_values(|x: usize| x as int) =~= parties_upto(sel, n as nat));
    }
    let num = parties.len();
    if num <= t {
        return Err(SteError::InvalidThreshold("Insufficient parties selected".to_string()));
    }
    if !domain_exists(n) {
        return Err(SteError::DomainError("no evaluation domain of size n".to_string()));
    }
    if agg_key.agg_sk_li_lj_z.len() != n {
        return Err(SteError::ValidationError("aggregate key does not have n column sums".to_string()));
    }
    let dom = domain_elements(n);
    let ghost domv = fr_views(dom@);
    let mut points: Vec<Fr> = Vec::new();
    points.push(dom[0].copy());
    let mut i: usize = 0;
    while i < n
        invariant
            i <= n,
            n == selector@.len(),
            sel == selector@,
            dom@.len() == n,
            domv == fr_views(dom@),
            fr_views(points@) == points_upto(sel, domv, i as nat),
        decreases n - i,
    {
        if !selector[i] {
            points.push(dom[i].copy());
            assert(fr_views(points@) =~= points_upto(sel, domv, i as nat).push(domv[i as int]));
        }
        i = i + 1;
    }
    proof {
        lemma_points_len(sel, domv, n as nat);
    }
    let b = match interp_mostly_zero(&Fr::one(), &points) {
        Some(b) => b,
        None => {
            return Err(SteError::ValidationError("points of B are not distinct".to_string()));
        },
    };
    if b.coeffs.len() == 0 || b.coeffs.len() > n {
        return Err(SteError::ValidationError("B does not fit the domain".to_string()));
    }
    let b_evals = fft(&b, n);
    if b.degree() != points.len() - 1 {
        return Err(SteError::ValidationError("b.degree() != points.len() - 1".to_string()));
    }
    if !b.evaluate(&dom[0]).equals(&Fr::one()) {
        return Err(SteError::ValidationError("b(omega^0) != 1, polynomial construction failed".to_string()));
    }
    let b_g2 = match params.commit_g2(&b) {
        Ok(c) => c,
        Err(e) => {
            return Err(e);
        },
    };
    let mut bminus1 = b.copy();
    let c0 = bminus1.coeffs[0].sub(&Fr::one());
    bminus1.coeffs.set(0, c0);
    assert(bminus1@ =~= b_minus1(b@));
    if !bminus1.evaluate(&dom[0]).is_zero() {
        return Err(SteError::ValidationError("bminus1(omega^0) != 0, polynomial construction failed".to_string()));
    }
    let xminus1 = Poly::from_coeffs(vec![dom[0].neg(), Fr::one()]);
    assert(xminus1@ =~= x_minus_1(n as nat));
    assert(!all_zero(xminus1@[1]));
    let q0 = bminus1.div(&xminus1);
    let q0_g1 = match params.commit_g1(&q0) {
        Ok(c) => c,
        Err(e) => {
            return Err(e);
        },
    };
    let mut bhat_coeffs: Vec<Fr> = Vec::new();
    let mut k: usize = 0;
    while k <= t
        invariant
            t < n,
            k <= t + 1,
            bhat_coeffs@.len() == k,
            forall|m: int| 0 <= m < k ==> #[trigger] bhat_coeffs@[m]@ == fr_u64_bytes(0),
        decreases t + 1 - k,
    {
        bhat_coeffs.push(Fr::zero());
        k = k + 1;
    }
    let mut k: usize = 0;
    while k < b.coeffs.len()
        invariant
            t < n,
            k <= b.coeffs@.len(),
            bhat_coeffs@.len() == t + 1 + k,
            forall|m: int| 0 <= m <= t ==> #[trigger] bhat_coeffs@[m]@ == fr_u64_bytes(0),
            forall|m: int| 0 <= m < k ==> #[trigger] bhat_coeffs@[t + 1 + m]@ == b.coeffs@[m]@,
        decreases b.coeffs@.len() - k,
    {
        bhat_coeffs.push(b.coeffs[k].copy());
        k = k + 1;
    }
    proof {
        let target = b_hat(b@, t as nat);
        assert forall|m: int| 0 <= m < bhat_coeffs@.len() implies #[trigger] fr_views(bhat_coeffs@)[m]
            == target[m] by {
            if m > t {
                let q = m - t - 1;
                assert(bhat_coeffs@[t + 1 + q]@ == b.coeffs@[q]@);
            }
        }
        assert(fr_views(bhat_coeffs@) =~= target);
    }
    let bhat = Poly::from_coeffs(bhat_coeffs);
    assert(bhat@ =~= b_hat(b@, t as nat));
    // a quorum of exactly t + 1 parties gives degree n; a larger one less
    if bhat.degree() > n {
        return Err(SteError::ValidationError("bhat.degree() > n".to_string()));
    }
    let bhat_g1 = match params.commit_g1(&bhat) {
        Ok(c) => c,
        Err(e) => {
            return Err(e);
        },
    };
    proof {
        crate::algebra::lemma_u64_bytes_zero(n as u64);
    }
    let n_inv = match Fr::from_u64(n as u64).inverse() {
        Some(v) => v,
        None => {
            return Err(SteError::FieldInverseError("n has no inverse".to_string()));
        },
    };
    proof {
        assert forall|k: int| 0 <= k < parties@.len() implies #[trigger] parties@[k] < n by {
            assert(parties@[k] as int == parties_upto(sel, n as nat)[k]);
        }
    }
    let scalars = pick_fr(&b_evals, &parties);
    let bls = pk_column(&agg_key.pk, 0);
    assert(g1_views(bls@).len() == bls@.len());
    assert(fr_views(scalars@).len() == scalars@.len());
    let bls_p = pick_g1(&bls, &parties);
    assert(g1_views(bls_p@).len() == bls_p@.len());
    let apk = match G1::msm(&bls_p, &scalars, "apk computation") {
        Ok(v) => v.mul(&n_inv),
        Err(e) => {
            return Err(e);
        },
    };
    let pd_p = pick_g2(partial_decryptions, &parties);
    assert(g2_views(pd_p@).len() == pd_p@.len());
    let sigma = match G2::msm(&pd_p, &scalars, "sigma computation") {
        Ok(v) => v.mul(&n_inv),
        Err(e) => {
            return Err(e);
        },
    };
    let xs = pk_column(&agg_key.pk, 1);
    assert(g1_views(xs@).len() == xs@.len());
    let xs_p = pick_g1(&xs, &parties);
    assert(g1_views(xs_p@).len() == xs_p@.len());
    let qx = match G1::msm(&xs_p, &scalars, "qx computation") {
        Ok(v) => v,
        Err(e) => {
            return Err(e);
        },
    };
    let z_p = pick_g1(&agg_key.agg_sk_li_lj_z, &parties);
    assert(g1_views(z_p@).len() == z_p@.len());
    let qz = match G1::msm(&z_p, &scalars, "qz computation") {
        Ok(v) => v,
        Err(e) => {
            return Err(e);
        },
    };
    let m0s = pk_column(&agg_key.pk, 2);
    assert(g1_views(m0s@).len() == m0s@.len());
    let m0s_p = pick_g1(&m0s, &parties);
    assert(g1_views(m0s_p@).len() == m0s_p@.len());
    let qhatx = match G1::msm(&m0s_p, &scalars, "qhatx computation") {
        Ok(v) => v,
        Err(e) => {
            return Err(e);
        },
    };
    let minus1 = Fr::one().neg();
    let lhs = vec![
        apk.mul(&minus1),
        qz.mul(&minus1),
        qx.mul(&minus1),
        qhatx,
        bhat_g1.mul(&minus1),
        q0_g1.mul(&minus1),
        ct.sa1[0].copy(),
        ct.sa1[1].copy(),
    ];
    let rhs = vec![
        ct.sa2[0].copy(),
        ct.sa2[1].copy(),
        ct.sa2[2].copy(),
        ct.sa2[3].copy(),
        ct.sa2[4].copy(),
        ct.sa2[5].copy(),
        b_g2,
        sigma,
    ];
    let enc_key = Gt::multi_pairing(&lhs, &rhs);
    proof {
        assert(g1_views(lhs@) =~= seq![lhs@[0]@, lhs@[1]@, lhs@[2]@, lhs@[3]@, lhs@[4]@, lhs@[5]@, lhs@[6]@, lhs@[7]@]);
        assert(g2_views(rhs@) =~= seq![rhs@[0]@, rhs@[1]@, rhs@[2]@, rhs@[3]@, rhs@[4]@, rhs@[5]@, rhs@[6]@, rhs@[7]@]);
    }
    if !enc_key.equals(&ct.enc_key) {
        proof {
            reveal_strlit("decryption verification failed");
        }
        return Err(SteError::ValidationError("decryption verification failed".to_string()));
    }
    Ok(enc_key)
}

} // verus!
