//! Multi-party powers-of-tau ceremony.
//!
//! Each participant multiplies the `i`-th powers of the previous contribution
//! by `tau_k^i`, so that after `k` contributions the transcript holds the
//! powers of `tau_1 * ... * tau_k`, which no participant knows as long as one
//! of them destroyed their `tau_k`.
use vstd::prelude::*;

use crate::algebra::{
    g1_generator, g1_mul_of, g1_valid, g1_views, g1s_decodable, g1s_end, g1s_valid, g2_generator,
    g2_mul_of, g2_valid, g2_views, g2s_decodable, g2s_end, g2s_valid, lemma_g1s_at,
    lemma_g1s_injective, lemma_g2s_at, lemma_g2s_injective, read_g1s, read_g2s, write_g1s,
    write_g2s, Fr, G1, G1_BYTES, G2, G2_BYTES,
};
use crate::codec::{get_u64, le_u64, lemma_u64_le, put_u64, take, u64_le, vec_encoding};
use crate::error::SteError;
use crate::kzg::{fr_power, powers_of, PowersOfTau};

verus! {

/// One contribution: the accumulated powers after it, and the degree-one
/// entries as its proof elements.
#[derive(Debug, Clone)]
pub struct Contribution {
    pub powers_of_g: Vec<G1>,
    pub powers_of_h: Vec<G2>,
    pub proof_g: G1,
    pub proof_h: G2,
}

/// The ceremony: every contribution so far, oldest first.
#[derive(Debug, Clone)]
pub struct Ceremony {
    pub max_degree: usize,
    pub contributions: Vec<Contribution>,
}

/// Whether a contribution has `d + 1` powers in each group, the generators
/// at index zero, and its degree-one entries as proof elements.
pub open spec fn contribution_wf(c: Contribution, d: nat) -> bool {
    &&& d >= 1
    &&& c.powers_of_g@.len() == d + 1
    &&& c.powers_of_h@.len() == d + 1
    &&& c.powers_of_g@[0]@ == g1_generator()
    &&& c.powers_of_h@[0]@ == g2_generator()
    &&& c.proof_g@ == c.powers_of_g@[1]@
    &&& c.proof_h@ == c.powers_of_h@[1]@
}

/// Whether a contribution holds the powers of `tau` up to degree `d`.
pub open spec fn is_powers_of(c: Contribution, tau: Seq<u8>, d: nat) -> bool {
    forall|i: int|
        0 <= i <= d ==> #[trigger] c.powers_of_g@[i]@ == g1_mul_of(g1_generator(), fr_power(tau, i as nat))
            && c.powers_of_h@[i]@ == g2_mul_of(g2_generator(), fr_power(tau, i as nat))
}

/// Whether `next` is `prev` with its `i`-th powers multiplied by `tau^i`.
pub open spec fn is_contribution_of(next: Contribution, prev: Contribution, tau: Seq<u8>) -> bool {
    &&& next.powers_of_g@.len() == prev.powers_of_g@.len()
    &&& next.powers_of_h@.len() == prev.powers_of_h@.len()
    &&& forall|i: int|
        0 <= i < prev.powers_of_g@.len() ==> #[trigger] next.powers_of_g@[i]@ == g1_mul_of(
            prev.powers_of_g@[i]@,
            fr_power(tau, i as nat),
        )
    &&& forall|i: int|
        0 <= i < prev.powers_of_h@.len() ==> #[trigger] next.powers_of_h@[i]@ == g2_mul_of(
            prev.powers_of_h@[i]@,
            fr_power(tau, i as nat),
        )
}

/// What `verify_contribution` checks of contribution `index`: that it is not
/// the first, has `max_degree + 1` powers in each group, and keeps the
/// index-zero entries of the one before (which has some).
pub open spec fn contribution_checks(c: Ceremony, index: int) -> bool {
    let cs = c.contributions@;
    &&& 0 < index < cs.len()
    &&& cs[index - 1].powers_of_g@.len() > 0
    &&& cs[index - 1].powers_of_h@.len() > 0
    &&& cs[index].powers_of_g@.len() == c.max_degree + 1
    &&& cs[index].powers_of_h@.len() == c.max_degree + 1
    &&& cs[index].powers_of_g@[0]@ == cs[index - 1].powers_of_g@[0]@
    &&& cs[index].powers_of_h@[0]@ == cs[index - 1].powers_of_h@[0]@
}

impl Ceremony {
    /// The ceremony invariant: at least one contribution, and every one well
    /// formed for `max_degree`.
    pub open spec fn wf(&self) -> bool {
        &&& self.max_degree < usize::MAX
        &&& self.contributions@.len() > 0
        &&& forall|k: int|
            0 <= k < self.contributions@.len() ==> contribution_wf(
                #[trigger] self.contributions@[k],
                self.max_degree as nat,
            )
    }

    /// Starts a ceremony whose first contribution is the powers of `tau` up to
    /// `max_degree`. `KzgError` for degree zero.
    pub fn new_with(max_degree: usize, tau: &Fr) -> (r: Result<Ceremony, SteError>)
        requires
            max_degree < usize::MAX,
        ensures
            r.is_ok() <==> max_degree >= 1,
            r matches Ok(c) ==> {
                &&& c.wf()
                &&& c.max_degree == max_degree
                &&& c.contributions@.len() == 1
                &&& forall|i: int|
                    0 <= i <= max_degree ==> #[trigger] c.contributions@[0].powers_of_g@[i]@
                        == g1_mul_of(g1_generator(), fr_power(tau@, i as nat))
                &&& forall|i: int|
                    0 <= i <= max_degree ==> #[trigger] c.contributions@[0].powers_of_h@[i]@
                        == g2_mul_of(g2_generator(), fr_power(tau@, i as nat))
            },
            r matches Err(e) ==> e is KzgError,
    {
        if max_degree < 1 {
            return Err(SteError::KzgError("degree must be at least one".to_string()));
        }
        let powers = powers_of(tau, max_degree);
        let g = G1::generator();
        let h = G2::generator();
        let powers_of_g = g.batch_mul(&powers);
        let powers_of_h = h.batch_mul(&powers);
        assert(powers@[0]@ == fr_power(tau@, 0));
        let proof_g = powers_of_g[1].copy();
        let proof_h = powers_of_h[1].copy();
        let first = Contribution { powers_of_g, powers_of_h, proof_g, proof_h };
        let contributions = vec![first];
        Ok(Ceremony { max_degree, contributions })
    }

    /// Starts a ceremony from a freshly drawn `tau`. The caller must make sure
    /// nothing derived from the random source outlives the call.
    pub fn new(max_degree: usize) -> (r: Result<Ceremony, SteError>)
        requires
            max_degree < usize::MAX,
        ensures
            r.is_ok() ==> max_degree >= 1,
            max_degree < 1 ==> r matches Err(SteError::KzgError(_)),
            max_degree >= 1 ==> r is Ok || r matches Err(SteError::RandomnessError(_)),
            r matches Ok(c) ==> c.wf() && c.max_degree == max_degree && c.contributions@.len() == 1,
            r matches Ok(c) ==> exists|tau: Seq<u8>|
                #[trigger] is_powers_of(c.contributions@[0], tau, max_degree as nat),
    {
        if max_degree < 1 {
            return Err(SteError::KzgError("degree must be at least one".to_string()));
        }
        let tau = match Fr::rand() {
            Ok(x) => x,
            Err(e) => {
                return Err(e);
            },
        };
        let r = Ceremony::new_with(max_degree, &tau);
        proof {
            if r is Ok {
                assert(is_powers_of(r->Ok_0.contributions@[0], tau@, max_degree as nat));
            }
        }
        r
    }

    /// Adds the contribution of `tau`: each `i`-th power of the last
    /// contribution multiplied by `tau^i`.
    pub fn contribute_with(&mut self, tau: &Fr)
        requires
            old(self).wf(),
        ensures
            final(self).wf(),
            final(self).max_degree == old(self).max_degree,
            final(self).contributions@.len() == old(self).contributions@.len() + 1,
            forall|k: int|
                0 <= k < old(self).contributions@.len() ==> #[trigger] final(self).contributions@[k]
                    == old(self).contributions@[k],
            is_contribution_of(final(self).contributions@.last(), old(self).contributions@.last(), tau@),
    {
        let d = self.max_degree;
        let last = self.contributions.len() - 1;
        let ghost prev = self.contributions@[last as int];
        assert(contribution_wf(prev, d as nat));
        let powers = powers_of(tau, d);
        let mut new_g: Vec<G1> = Vec::new();
        let mut new_h: Vec<G2> = Vec::new();
        let mut i: usize = 0;
        while i <= d
            invariant
                d < usize::MAX,
                d == self.max_degree,
                self.contributions@ == old(self).contributions@,
                last + 1 == self.contributions@.len(),
                i <= d + 1,
                prev == self.contributions@[last as int],
                contribution_wf(prev, d as nat),
                powers@.len() == d + 1,
                forall|k: int| 0 <= k <= d ==> #[trigger] powers@[k]@ == fr_power(tau@, k as nat),
                new_g@.len() == i,
                new_h@.len() == i,
                i > 0 ==> new_g@[0]@ == prev.powers_of_g@[0]@,
                i > 0 ==> new_h@[0]@ == prev.powers_of_h@[0]@,
                forall|k: int|
                    0 <= k < i ==> #[trigger] new_g@[k]@ == g1_mul_of(
                        prev.powers_of_g@[k]@,
                        fr_power(tau@, k as nat),
                    ),
                forall|k: int|
                    0 <= k < i ==> #[trigger] new_h@[k]@ == g2_mul_of(
                        prev.powers_of_h@[k]@,
                        fr_power(tau@, k as nat),
                    ),
            decreases d + 1 - i,
        {
            new_g.push(self.contributions[last].powers_of_g[i].mul(&powers[i]));
            new_h.push(self.contributions[last].powers_of_h[i].mul(&powers[i]));
            i = i + 1;
        }
        assert(powers@[0]@ == fr_power(tau@, 0));
        let proof_g = new_g[1].copy();
        let proof_h = new_h[1].copy();
        let next = Contribution { powers_of_g: new_g, powers_of_h: new_h, proof_g, proof_h };
        self.contributions.push(next);
        proof {
            assert(self.contributions@.last() == next);
            assert(contribution_wf(next, d as nat));
            assert forall|k: int| 0 <= k < self.contributions@.len() implies contribution_wf(
                #[trigger] self.contributions@[k],
                self.max_degree as nat,
            ) by {
                if k < old(self).contributions@.len() {
                    assert(self.contributions@[k] == old(self).contributions@[k]);
                }
            }
        }
    }

    /// Adds the contribution of a freshly drawn `tau`; `RandomnessError`,
    /// changing nothing, when the random source fails. The participant must
    /// make sure nothing derived from the random source outlives the call.
    pub fn contribute(&mut self) -> (r: Result<(), SteError>)
        requires
            old(self).wf(),
        ensures
            final(self).wf(),
            r matches Err(e) ==> e is RandomnessError && *final(self) == *old(self),
            r is Ok ==> {
                &&& final(self).max_degree == old(self).max_degree
                &&& final(self).contributions@.len() == old(self).contributions@.len() + 1
                &&& forall|k: int|
                    0 <= k < old(self).contributions@.len() ==> #[trigger] final(self).contributions@[k]
                        == old(self).contributions@[k]
                &&& exists|tau: Seq<u8>|
                    is_contribution_of(
                        #[trigger] final(self).contributions@.last(),
                        old(self).contributions@.last(),
                        tau,
                    )
            },
    {
        let tau = match Fr::rand() {
            Ok(x) => x,
            Err(e) => {
                return Err(e);
            },
        };
        self.contribute_with(&tau);
        Ok(())
    }

    /// Structural check of contribution `index`: not the first, `max_degree + 1`
    /// powers in each group, and the index-zero entries of the one before
    /// (since `tau^0 = 1`). The pairing consistency of the powers is not
    /// checked: a contribution that passes is not thereby validated.
    pub fn verify_contribution(&self, index: usize) -> (r: bool)
        ensures
            r == contribution_checks(*self, index as int),
    {
        if index == 0 || index >= self.contributions.len() {
            return false;
        }
        let prev = &self.contributions[index - 1];
        let curr = &self.contributions[index];
        if curr.powers_of_g.len() == 0 || curr.powers_of_g.len() - 1 != self.max_degree
            || curr.powers_of_h.len() == 0 || curr.powers_of_h.len() - 1 != self.max_degree {
            return false;
        }
        if prev.powers_of_g.len() == 0 || prev.powers_of_h.len() == 0 {
            return false;
        }
        curr.powers_of_g[0].equals(&prev.powers_of_g[0]) && curr.powers_of_h[0].equals(&prev.powers_of_h[0])
    }

    /// The transcript: the powers of the last contribution.
    pub fn finalize(self) -> (r: PowersOfTau)
        requires
            self.contributions@.len() > 0,
        ensures
            g1_views_eq(r.powers_of_g@, self.contributions@.last().powers_of_g@),
            g2_views_eq(r.powers_of_h@, self.contributions@.last().powers_of_h@),
    {
        let mut cs = self.contributions;
        let last = cs.pop().unwrap();
        PowersOfTau { powers_of_g: last.powers_of_g, powers_of_h: last.powers_of_h }
    }

    /// Number of contributions so far.
    pub fn num_participants(&self) -> (r: usize)
        ensures
            r == self.contributions@.len(),
    {
        self.contributions.len()
    }
}

/// Two sequences of `G1` elements with the same encodings.
pub open spec fn g1_views_eq(a: Seq<G1>, b: Seq<G1>) -> bool {
    a.len() == b.len() && forall|i: int| 0 <= i < a.len() ==> #[trigger] a[i]@ == b[i]@
}

/// Two sequences of `G2` elements with the same encodings.
pub open spec fn g2_views_eq(a: Seq<G2>, b: Seq<G2>) -> bool {
    a.len() == b.len() && forall|i: int| 0 <= i < a.len() ==> #[trigger] a[i]@ == b[i]@
}

/// Whatever the number of contributions, the transcript of a well-formed
/// ceremony starts with the generators `g` and `h`, and every contribution
/// after the first passes `verify_contribution`.
pub proof fn lemma_ceremony_base_points(c: Ceremony)
    requires
        c.wf(),
    ensures
        c.contributions@.last().powers_of_g@[0]@ == g1_generator(),
        c.contributions@.last().powers_of_h@[0]@ == g2_generator(),
        forall|k: int| 0 < k < c.contributions@.len() ==> #[trigger] contribution_checks(c, k),
{
    let cs = c.contributions@;
    assert(contribution_wf(cs[cs.len() - 1], c.max_degree as nat));
    assert forall|k: int| 0 < k < cs.len() implies #[trigger] contribution_checks(c, k) by {
        assert(contribution_wf(cs[k], c.max_degree as nat));
        assert(contribution_wf(cs[k - 1], c.max_degree as nat));
    }
}

/// The encoding of a contribution: the counted powers of `g`, the counted
/// powers of `h`, then the two proof elements.
pub open spec fn contribution_encoding(c: Contribution) -> Seq<u8> {
    vec_encoding(g1_views(c.powers_of_g@)) + vec_encoding(g2_views(c.powers_of_h@)) + c.proof_g@
        + c.proof_h@
}

/// The encodings of contributions, one after the other.
pub open spec fn contributions_encoding(cs: Seq<Contribution>) -> Seq<u8>
    decreases cs.len(),
{
    if cs.len() == 0 {
        seq![]
    } else {
        contributions_encoding(cs.drop_last()) + contribution_encoding(cs.last())
    }
}

/// The encoding of a ceremony: `max_degree` and the number of contributions,
/// each in 8 little-endian bytes, then the contributions.
pub open spec fn ceremony_encoding(c: Ceremony) -> Seq<u8> {
    u64_le(c.max_degree as u64) + u64_le(c.contributions@.len() as u64) + contributions_encoding(
        c.contributions@,
    )
}

/// Where a contribution that starts at `pos` ends, if it decodes.
pub open spec fn contribution_end(b: Seq<u8>, pos: int) -> Option<int> {
    if g1s_decodable(b, pos) && g2s_decodable(b, g1s_end(b, pos)) {
        let q = g2s_end(b, g1s_end(b, pos));
        if q + 144 <= b.len() && g1_valid(b.subrange(q, q + 48)) && g2_valid(
            b.subrange(q + 48, q + 144),
        ) {
            Some(q + 144)
        } else {
            None
        }
    } else {
        None
    }
}

/// Where `k` contributions that start at `pos` end, if they all decode.
pub open spec fn contributions_end(b: Seq<u8>, pos: int, k: nat) -> Option<int>
    decreases k,
{
    if k == 0 {
        Some(pos)
    } else {
        match contributions_end(b, pos, (k - 1) as nat) {
            Some(p) => contribution_end(b, p),
            None => None,
        }
    }
}

/// Whether `b` is the encoding of a ceremony.
pub open spec fn ceremony_decodable(b: Seq<u8>) -> bool {
    &&& b.len() >= 16
    &&& le_u64(b.subrange(0, 8)) <= usize::MAX
    &&& le_u64(b.subrange(8, 16)) <= usize::MAX
    &&& contributions_end(b, 16, le_u64(b.subrange(8, 16)) as nat) == Some(b.len() as int)
}

/// Whether every element of a contribution has a valid encoding of its size.
pub open spec fn contribution_valid(c: Contribution) -> bool {
    &&& g1s_valid(c.powers_of_g@)
    &&& g2s_valid(c.powers_of_h@)
    &&& c.proof_g@.len() == G1_BYTES && g1_valid(c.proof_g@)
    &&& c.proof_h@.len() == G2_BYTES && g2_valid(c.proof_h@)
}

/// Whether two contributions hold the same values.
pub open spec fn same_contribution(a: Contribution, b: Contribution) -> bool {
    &&& g1_views(a.powers_of_g@) == g1_views(b.powers_of_g@)
    &&& g2_views(a.powers_of_h@) == g2_views(b.powers_of_h@)
    &&& a.proof_g@ == b.proof_g@
    &&& a.proof_h@ == b.proof_h@
}

/// A valid contribution embedded at `pos` decodes there and ends after its
/// encoding; another valid contribution with an encoding there is the same.
pub proof fn lemma_contribution_at(b: Seq<u8>, pos: int, c: Contribution, d: Contribution)
    requires
        contribution_valid(c),
        contribution_valid(d),
        0 <= pos,
        pos + contribution_encoding(c).len() <= b.len(),
        b.subrange(pos, pos + contribution_encoding(c).len()) == contribution_encoding(c),
    ensures
        contribution_end(b, pos) == Some(pos + contribution_encoding(c).len()),
        pos + contribution_encoding(d).len() <= b.len() && b.subrange(
            pos,
            pos + contribution_encoding(d).len(),
        ) == contribution_encoding(d) ==> same_contribution(c, d),
{
    let e = contribution_encoding(c);
    let eg = vec_encoding(g1_views(c.powers_of_g@));
    let eh = vec_encoding(g2_views(c.powers_of_h@));
    let p = pos + eg.len();
    let q = p + eh.len();
    assert(e == eg + eh + c.proof_g@ + c.proof_h@);
    assert(b.subrange(pos, p) =~= e.subrange(0, eg.len() as int));
    assert(e.subrange(0, eg.len() as int) =~= eg);
    lemma_g1s_at(b, pos, c.powers_of_g@);
    assert(b.subrange(p, q) =~= e.subrange(eg.len() as int, (eg.len() + eh.len()) as int));
    assert(e.subrange(eg.len() as int, (eg.len() + eh.len()) as int) =~= eh);
    lemma_g2s_at(b, p, c.powers_of_h@);
    let m = (eg.len() + eh.len()) as int;
    assert(b.subrange(q, q + 48) =~= e.subrange(m, m + 48));
    assert(e.subrange(m, m + 48) =~= c.proof_g@);
    assert(b.subrange(q + 48, q + 144) =~= e.subrange(m + 48, m + 144));
    assert(e.subrange(m + 48, m + 144) =~= c.proof_h@);
    let f = contribution_encoding(d);
    if pos + f.len() <= b.len() && b.subrange(pos, pos + f.len()) == f {
        let fg = vec_encoding(g1_views(d.powers_of_g@));
        let fh = vec_encoding(g2_views(d.powers_of_h@));
        assert(f == fg + fh + d.proof_g@ + d.proof_h@);
        assert(b.subrange(pos, pos + fg.len()) =~= f.subrange(0, fg.len() as int));
        assert(f.subrange(0, fg.len() as int) =~= fg);
        lemma_g1s_at(b, pos, d.powers_of_g@);
        assert(fg =~= eg);
        lemma_g1s_injective(c.powers_of_g@, d.powers_of_g@);
        assert(b.subrange(p, p + fh.len()) =~= f.subrange(fg.len() as int, (fg.len() + fh.len()) as int));
        assert(f.subrange(fg.len() as int, (fg.len() + fh.len()) as int) =~= fh);
        lemma_g2s_at(b, p, d.powers_of_h@);
        assert(fh =~= eh);
        lemma_g2s_injective(c.powers_of_h@, d.powers_of_h@);
        let mf = (fg.len() + fh.len()) as int;
        assert(b.subrange(q, q + 48) =~= f.subrange(mf, mf + 48));
        assert(f.subrange(mf, mf + 48) =~= d.proof_g@);
        assert(b.subrange(q + 48, q + 144) =~= f.subrange(mf + 48, mf + 144));
        assert(f.subrange(mf + 48, mf + 144) =~= d.proof_h@);
    }
}

/// Valid contributions embedded at `pos` decode there and end after their
/// encoding; other valid contributions, as many, with an encoding there are
/// the same.
pub proof fn lemma_contributions_at(b: Seq<u8>, pos: int, cs: Seq<Contribution>, ds: Seq<Contribution>)
    requires
        forall|i: int| 0 <= i < cs.len() ==> contribution_valid(#[trigger] cs[i]),
        forall|i: int| 0 <= i < ds.len() ==> contribution_valid(#[trigger] ds[i]),
        0 <= pos,
        pos + contributions_encoding(cs).len() <= b.len(),
        b.subrange(pos, pos + contributions_encoding(cs).len()) == contributions_encoding(cs),
    ensures
        contributions_end(b, pos, cs.len()) == Some(pos + contributions_encoding(cs).len()),
        ds.len() == cs.len() && pos + contributions_encoding(ds).len() <= b.len() && b.subrange(
            pos,
            pos + contributions_encoding(ds).len(),
        ) == contributions_encoding(ds) ==> forall|i: int|
            0 <= i < cs.len() ==> same_contribution(#[trigger] cs[i], ds[i]),
    decreases cs.len(),
{
    if cs.len() > 0 {
        let pc = cs.drop_last();
        let last = cs.last();
        let ep = contributions_encoding(pc);
        let el = contribution_encoding(last);
        assert(contributions_encoding(cs) == ep + el);
        assert(b.subrange(pos, pos + ep.len()) =~= contributions_encoding(cs).subrange(0, ep.len() as int));
        assert(contributions_encoding(cs).subrange(0, ep.len() as int) =~= ep);
        let pd = if ds.len() == cs.len() { ds.drop_last() } else { ds };
        lemma_contributions_at(b, pos, pc, pd);
        let q = pos + ep.len();
        assert(b.subrange(q, q + el.len()) =~= contributions_encoding(cs).subrange(
            ep.len() as int,
            contributions_encoding(cs).len() as int,
        ));
        assert(contributions_encoding(cs).subrange(ep.len() as int, contributions_encoding(cs).len() as int)
            =~= el);
        let dl = if ds.len() == cs.len() { ds.last() } else { last };
        lemma_contribution_at(b, q, last, dl);
        if ds.len() == cs.len() && pos + contributions_encoding(ds).len() <= b.len() && b.subrange(
            pos,
            pos + contributions_encoding(ds).len(),
        ) == contributions_encoding(ds) {
            let eo = contributions_encoding(pd);
            let fl = contribution_encoding(dl);
            assert(contributions_encoding(ds) == eo + fl);
            assert(b.subrange(pos, pos + eo.len()) =~= contributions_encoding(ds).subrange(0, eo.len() as int));
            assert(contributions_encoding(ds).subrange(0, eo.len() as int) =~= eo);
            lemma_contributions_at(b, pos, pd, pc);
            assert(eo.len() == ep.len());
            assert(b.subrange(q, q + fl.len()) =~= contributions_encoding(ds).subrange(
                eo.len() as int,
                contributions_encoding(ds).len() as int,
            ));
            assert(contributions_encoding(ds).subrange(eo.len() as int, contributions_encoding(ds).len() as int)
                =~= fl);
            assert forall|i: int| 0 <= i < cs.len() implies same_contribution(#[trigger] cs[i], ds[i]) by {
                if i < cs.len() - 1 {
                    assert(cs[i] == pc[i]);
                    assert(ds[i] == pd[i]);
                }
            }
        }
    }
}

/// Whether every contribution of a ceremony has valid elements and the counts
/// fit, as the types guarantee of every ceremony.
pub open spec fn ceremony_valid(c: Ceremony) -> bool {
    &&& c.contributions@.len() <= usize::MAX
    &&& c.contributions@.len() <= u64::MAX
    &&& forall|i: int| 0 <= i < c.contributions@.len() ==> contribution_valid(#[trigger] c.contributions@[i])
}

/// Serialization round trip of ceremony state: the encoding of a ceremony
/// decodes, and the only ceremony with that encoding is the ceremony itself.
pub proof fn lemma_ceremony_round_trip(c: Ceremony, d: Ceremony)
    requires
        ceremony_valid(c),
        ceremony_valid(d),
    ensures
        ceremony_decodable(ceremony_encoding(c)),
        ceremony_encoding(d) == ceremony_encoding(c) ==> {
            &&& d.max_degree == c.max_degree
            &&& d.contributions@.len() == c.contributions@.len()
            &&& forall|i: int|
                0 <= i < c.contributions@.len() ==> same_contribution(
                    #[trigger] c.contributions@[i],
                    d.contributions@[i],
                )
        },
{
    let b = ceremony_encoding(c);
    let er = contributions_encoding(c.contributions@);
    lemma_u64_le(c.max_degree as u64, seq![]);
    lemma_u64_le(c.contributions@.len() as u64, seq![]);
    assert(b.subrange(0, 8) =~= u64_le(c.max_degree as u64));
    assert(b.subrange(8, 16) =~= u64_le(c.contributions@.len() as u64));
    assert(b.subrange(16, (16 + er.len()) as int) =~= er);
    lemma_contributions_at(b, 16, c.contributions@, d.contributions@);
    if ceremony_encoding(d) == b {
        lemma_u64_le(d.max_degree as u64, seq![]);
        lemma_u64_le(d.contributions@.len() as u64, seq![]);
        assert(b.subrange(0, 8) =~= u64_le(d.max_degree as u64));
        assert(b.subrange(8, 16) =~= u64_le(d.contributions@.len() as u64));
        let fr = contributions_encoding(d.contributions@);
        assert(b.subrange(16, (16 + fr.len()) as int) =~= fr);
    }
}

/// Reads a contribution at `pos`; returns it with the position after it.
pub fn read_contribution(b: &Vec<u8>, pos: usize) -> (r: Result<(Contribution, usize), SteError>)
    ensures
        r is Ok <==> contribution_end(b@, pos as int) is Some,
        r matches Ok((c, next)) ==> {
            &&& contribution_valid(c)
            &&& contribution_end(b@, pos as int) == Some(next as int)
            &&& pos <= next <= b@.len()
            &&& b@.subrange(pos as int, next as int) == contribution_encoding(c)
        },
        r matches Err(e) ==> e is SerializationError,
{
    let (powers_of_g, p) = match read_g1s(b, pos) {
        Ok(v) => v,
        Err(e) => {
            return Err(e);
        },
    };
    let (powers_of_h, q) = match read_g2s(b, p) {
        Ok(v) => v,
        Err(e) => {
            return Err(e);
        },
    };
    if b.len() - q < 144 {
        return Err(SteError::SerializationError("contribution proof missing".to_string()));
    }
    let proof_g = match G1::from_bytes(&take(b, q, 48)) {
        Ok(v) => v,
        Err(e) => {
            return Err(e);
        },
    };
    let proof_h = match G2::from_bytes(&take(b, q + 48, 96)) {
        Ok(v) => v,
        Err(e) => {
            return Err(e);
        },
    };
    let c = Contribution { powers_of_g, powers_of_h, proof_g, proof_h };
    proof {
        assert(b@.subrange(pos as int, q + 144) =~= b@.subrange(pos as int, p as int) + b@.subrange(
            p as int,
            q as int,
        ) + b@.subrange(q as int, q + 48) + b@.subrange(q + 48, q + 144));
    }
    Ok((c, q + 144))
}

impl Ceremony {
    /// The encoding (see `ceremony_encoding`).
    pub fn to_bytes(&self) -> (r: Vec<u8>)
        ensures
            r@ == ceremony_encoding(*self),
    {
        let mut out: Vec<u8> = Vec::new();
        put_u64(&mut out, self.max_degree as u64);
        put_u64(&mut out, self.contributions.len() as u64);
        let ghost head = out@;
        let mut k: usize = 0;
        while k < self.contributions.len()
            invariant
                k <= self.contributions@.len(),
                out@ == head + contributions_encoding(self.contributions@.subrange(0, k as int)),
            decreases self.contributions@.len() - k,
        {
            let c = &self.contributions[k];
            write_g1s(&mut out, &c.powers_of_g);
            write_g2s(&mut out, &c.powers_of_h);
            let mut x = c.proof_g.to_bytes();
            out.append(&mut x);
            let mut x = c.proof_h.to_bytes();
            out.append(&mut x);
            assert(self.contributions@.subrange(0, k + 1).drop_last() =~= self.contributions@.subrange(
                0,
                k as int,
            ));
            k = k + 1;
        }
        assert(self.contributions@.subrange(0, self.contributions@.len() as int) =~= self.contributions@);
        assert(out@ =~= ceremony_encoding(*self));
        out
    }

    /// Decodes a ceremony; `SerializationError` unless the bytes are the
    /// encoding of one. Encoding the result gives the bytes back.
    pub fn from_bytes(b: &Vec<u8>) -> (r: Result<Ceremony, SteError>)
        ensures
            r is Ok <==> ceremony_decodable(b@),
            r matches Ok(c) ==> ceremony_encoding(c) == b@ && ceremony_valid(c),
            r matches Err(e) ==> e is SerializationError,
    {
        if b.len() < 16 {
            return Err(SteError::SerializationError("ceremony too short".to_string()));
        }
        let d64 = get_u64(b, 0);
        let k64 = get_u64(b, 8);
        if d64 > usize::MAX as u64 || k64 > usize::MAX as u64 {
            return Err(SteError::SerializationError("count too large".to_string()));
        }
        let k = k64 as usize;
        let mut contributions: Vec<Contribution> = Vec::new();
        let mut pos: usize = 16;
        let mut i: usize = 0;
        while i < k
            invariant
                i <= k,
                k == le_u64(b@.subrange(8, 16)),
                16 <= pos <= b@.len(),
                contributions@.len() == i,
                forall|q: int| 0 <= q < i ==> contribution_valid(#[trigger] contributions@[q]),
                contributions_end(b@, 16, i as nat) == Some(pos as int),
                b@.subrange(16, pos as int) == contributions_encoding(contributions@),
            decreases k - i,
        {
            let (c, next) = match read_contribution(b, pos) {
                Ok(v) => v,
                Err(e) => {
                    proof {
                        lemma_contributions_end_none(b@, 16, (i + 1) as nat, k as nat);
                    }
                    return Err(e);
                },
            };
            let ghost before = contributions@;
            contributions.push(c);
            proof {
                assert(contributions@.drop_last() == before);
                assert(b@.subrange(16, next as int) =~= b@.subrange(16, pos as int) + b@.subrange(
                    pos as int,
                    next as int,
                ));
            }
            pos = next;
            i = i + 1;
        }
        if pos != b.len() {
            return Err(SteError::SerializationError("trailing bytes after the ceremony".to_string()));
        }
        proof {
            lemma_u64_le(0, b@.subrange(0, 8));
            lemma_u64_le(0, b@.subrange(8, 16));
            assert(b@ =~= b@.subrange(0, 8) + b@.subrange(8, 16) + b@.subrange(16, pos as int));
        }
        Ok(Ceremony { max_degree: d64 as usize, contributions })
    }
}

/// Contributions that fail to decode stay failed when more are read.
pub proof fn lemma_contributions_end_none(b: Seq<u8>, pos: int, i: nat, k: nat)
    requires
        contributions_end(b, pos, i) is None,
        i <= k,
    ensures
        contributions_end(b, pos, k) is None,
    decreases k - i,
{
    if i < k {
        lemma_contributions_end_none(b, pos, i, (k - 1) as nat);
    }
}

} // verus!
