//! The decisions of a peer in the distributed protocol: which keys it holds,
//! when it builds the aggregate key, whom it asks for partial decryptions,
//! what it answers, and when it decrypts. Receiving and sending messages, and
//! checking their transport signatures, are left to the caller, which hands
//! over verified payloads and sends what comes back.
use vstd::prelude::*;

use super::gossip::ids_equal;
use super::messages::MessageId;
use super::protocol::{
    build_selector, chosen, dense_partials, last_response, has_minimum_quorum, order_public_keys,
    select_parties_for_decryption, PeerConfig, PeerError,
};
use crate::algebra::{g1_identity, g1_views, g2_identity, g2_mul_of, g2_valid, g2_views, Gt, G2, G2_BYTES};
use crate::decryption::{b_checks_ok, quorum_ok, recombined_key};
use crate::decryption::agg_dec;
use crate::encryption::{ct_decodable, Ciphertext};
use crate::kzg::PowersOfTau;
use crate::setup::{
    aggregate_ok, is_zero_slot, pk_decodable, pk_encoding, same_pk, AggregateKey, PublicKey, SecretKey,
};

verus! {

/// A decryption this peer started: the ciphertext, the quorum asked, and the
/// partial decryptions received so far (one per party).
pub struct DecryptSession {
    pub request_id: MessageId,
    pub ciphertext: Ciphertext,
    pub selector: Vec<bool>,
    pub responses: Vec<(usize, G2)>,
    pub requested_parties: Vec<usize>,
}

/// The state of one peer.
pub struct ProtocolState {
    config: PeerConfig,
    params: PowersOfTau,
    secret_key: SecretKey,
    party_keys: Vec<(usize, PublicKey)>,
    aggregate_key: Option<AggregateKey>,
    sessions: Vec<DecryptSession>,
}

/// Whether the party ids of `keys` are pairwise distinct.
pub open spec fn distinct_parties(keys: Seq<(usize, PublicKey)>) -> bool {
    forall|i: int, j: int|
        0 <= i < keys.len() && 0 <= j < keys.len() && i != j ==> (#[trigger] keys[i]).0 != (
        #[trigger] keys[j]).0
}

/// The party ids of registered keys, in order.
pub open spec fn party_ids(keys: Seq<(usize, PublicKey)>) -> Seq<usize>
    decreases keys.len(),
{
    if keys.len() == 0 {
        seq![]
    } else {
        party_ids(keys.drop_last()).push(keys.last().0)
    }
}

/// Whether the registered keys can be aggregated over `params` for `n`
/// parties: the transcript reaches degree `n`, and every key of a party
/// below `n` has at least `n` cross-term hints.
pub open spec fn keys_fit(keys: Seq<(usize, PublicKey)>, n: nat, params: PowersOfTau) -> bool {
    &&& 0 < n < params.powers_of_h@.len()
    &&& params.powers_of_g@.len() > 0
    &&& forall|j: int| 0 <= j < keys.len() && keys[j].0 < n ==> (#[trigger] keys[j]).1.sk_li_lj_z@.len() >= n
}

/// Whether a key registered for `party` is in `keys`.
pub open spec fn has_party(keys: Seq<(usize, PublicKey)>, party: usize) -> bool {
    exists|i: int| 0 <= i < keys.len() && (#[trigger] keys[i]).0 == party
}

/// The index of the first session with request id `id` among the first `m`.
pub open spec fn first_session(ss: Seq<DecryptSession>, id: Seq<u8>, m: nat) -> Option<int>
    decreases m,
{
    if m == 0 {
        None
    } else {
        match first_session(ss, id, (m - 1) as nat) {
            Some(x) => Some(x),
            None => if ss[m - 1].request_id@ == id {
                Some(m - 1)
            } else {
                None
            },
        }
    }
}

/// Whether some response in `rs` comes from `party`.
pub open spec fn has_response(rs: Seq<(usize, G2)>, party: usize) -> bool {
    exists|k: int| 0 <= k < rs.len() && (#[trigger] rs[k]).0 == party
}

/// `after` is `before` with the partial decryption `pd` of `party` recorded:
/// in place of the party's earlier response, or added when it had none.
pub open spec fn recorded(before: Seq<(usize, G2)>, after: Seq<(usize, G2)>, party: usize, pd: Seq<u8>) -> bool {
    &&& after.len() == before.len() + (if has_response(before, party) { 0int } else { 1int })
    &&& exists|k: int| 0 <= k < after.len() && (#[trigger] after[k]).0 == party && after[k].1@ == pd
    &&& forall|k: int| 0 <= k < before.len() && (#[trigger] before[k]).0 != party ==> after[k] == before[k]
}

/// The encodings of the dense vector of partial decryptions built from `rs`.
pub open spec fn dense_views(n: nat, rs: Seq<(usize, G2)>) -> Seq<Seq<u8>> {
    Seq::new(
        n,
        |i: int|
            match last_response(rs, i, rs.len()) {
                Some(pd) => pd,
                None => g2_identity(),
            },
    )
}

/// Whether aggregate decryption owes the session key of session `s` once its
/// responses are `rs`: the quorum and polynomial checks pass and the
/// recombined key is the encapsulated one.
pub open spec fn session_decrypts(s: DecryptSession, rs: Seq<(usize, G2)>, n: nat, ak: AggregateKey, params: PowersOfTau) -> bool {
    &&& quorum_ok(n, s.selector@, ak, s.ciphertext.t as nat)
    &&& b_checks_ok(s.selector@, ak.pk@.len(), s.ciphertext.t as nat, params)
    &&& recombined_key(dense_views(n, rs), s.ciphertext, s.selector@, ak, params) == s.ciphertext.enc_key@
}

/// What recording a response to session `m`, whose responses become `rs`,
/// does: while answers are missing the session stays open with `rs` and the
/// result is `None`; once all are in it closes, and the result is the
/// outcome of aggregate decryption on `rs`.
pub open spec fn response_outcome(
    pre: ProtocolState,
    post: ProtocolState,
    m: int,
    rs: Seq<(usize, G2)>,
    r: Result<Option<Gt>, PeerError>,
) -> bool {
    let s = pre.spec_sessions()[m];
    let n = pre.spec_config().n as nat;
    if rs.len() != s.requested_parties@.len() {
        &&& r matches Ok(None)
        &&& post.spec_sessions() == pre.spec_sessions().update(m, post.spec_sessions()[m])
        &&& post.spec_sessions()[m].responses@ == rs
        &&& post.spec_sessions()[m].request_id == s.request_id
        &&& post.spec_sessions()[m].ciphertext == s.ciphertext
        &&& post.spec_sessions()[m].selector == s.selector
        &&& post.spec_sessions()[m].requested_parties == s.requested_parties
    } else {
        &&& post.spec_sessions() == pre.spec_sessions().remove(m)
        &&& !(r matches Ok(None))
        &&& (pre.spec_aggregate() is None ==> r matches Err(PeerError::Config(_)))
        &&& (pre.spec_aggregate() matches Some(ak) ==> {
            &&& (r matches Ok(Some(k)) ==> k@ == s.ciphertext.enc_key@ && k@ == recombined_key(
                dense_views(n, rs),
                s.ciphertext,
                s.selector@,
                ak,
                pre.spec_params(),
            ))
            &&& (session_decrypts(s, rs, n, ak, pre.spec_params()) ==> r is Ok)
            &&& (r matches Err(e) ==> e is Crypto)
        })
    }
}

impl ProtocolState {
    /// The keys registered so far, by party id.
    pub closed spec fn keys(&self) -> Seq<(usize, PublicKey)> {
        self.party_keys@
    }

    /// The configuration.
    pub closed spec fn spec_config(&self) -> PeerConfig {
        self.config
    }

    /// The aggregate key, once built.
    pub closed spec fn spec_aggregate(&self) -> Option<AggregateKey> {
        self.aggregate_key
    }

    /// The open decryption sessions.
    pub closed spec fn spec_sessions(&self) -> Seq<DecryptSession> {
        self.sessions@
    }

    /// The transcript this peer uses.
    pub closed spec fn spec_params(&self) -> PowersOfTau {
        self.params
    }

    /// The secret scalar of this peer.
    pub closed spec fn spec_secret(&self) -> Seq<u8> {
        self.secret_key.scalar()
    }

    /// The state invariant: one registered key per party.
    pub closed spec fn wf(&self) -> bool {
        distinct_parties(self.party_keys@)
    }

    /// A peer that knows no key and has no session yet.
    pub fn new(config: PeerConfig, params: PowersOfTau, secret_key: SecretKey) -> (r: Self)
        ensures
            r.wf(),
            r.keys().len() == 0,
            r.spec_config() == config,
            r.spec_aggregate() is None,
            r.spec_sessions().len() == 0,
            r.spec_secret() == secret_key.scalar(),
    {
        ProtocolState {
            config,
            params,
            secret_key,
            party_keys: Vec::new(),
            aggregate_key: None,
            sessions: Vec::new(),
        }
    }

    /// The aggregate key, once built.
    pub fn aggregate_key(&self) -> (r: &Option<AggregateKey>)
        ensures
            *r == self.spec_aggregate(),
    {
        &self.aggregate_key
    }

    /// Number of parties whose key is registered.
    pub fn key_count(&self) -> (r: usize)
        ensures
            r == self.keys().len(),
    {
        self.party_keys.len()
    }

    /// Registers the public key that party `party_id` broadcast (its transport
    /// signature already checked), replacing an earlier one for that party,
    /// then builds the aggregate key if enough keys are in. `Serialization`
    /// when the bytes are not a public key; `Crypto` when the aggregate key
    /// cannot be built.
    pub fn register_public_key(&mut self, party_id: usize, pk_bytes: &Vec<u8>) -> (r: Result<(), PeerError>)
        requires
            old(self).wf(),
        ensures
            final(self).wf(),
            final(self).spec_config() == old(self).spec_config(),
            final(self).spec_secret() == old(self).spec_secret(),
            final(self).spec_sessions() == old(self).spec_sessions(),
            r matches Err(PeerError::Serialization(_)) <==> !pk_decodable(pk_bytes@),
            pk_decodable(pk_bytes@) ==> exists|i: int|
                0 <= i < final(self).keys().len() && (#[trigger] final(self).keys()[i]).0 == party_id
                    && pk_encoding(final(self).keys()[i].1) == pk_bytes@,
            !pk_decodable(pk_bytes@) ==> *final(self) == *old(self),
    {
        let pk = match PublicKey::from_bytes(pk_bytes) {
            Ok(pk) => pk,
            Err(e) => {
                return Err(PeerError::Serialization(e.message().clone()));
            },
        };
        let mut found: Option<usize> = None;
        let mut j: usize = 0;
        while j < self.party_keys.len()
            invariant
                j <= self.party_keys@.len(),
                found is None ==> forall|m: int| 0 <= m < j ==> (#[trigger] self.party_keys@[m]).0 != party_id,
                found matches Some(m) ==> m < self.party_keys@.len() && self.party_keys@[m as int].0 == party_id,
            decreases self.party_keys@.len() - j,
        {
            if found.is_none() && self.party_keys[j].0 == party_id {
                found = Some(j);
            }
            j = j + 1;
        }
        let ghost before = self.party_keys@;
        let ghost enc = pk_encoding(pk);
        match found {
            Some(m) => {
                self.party_keys.set(m, (party_id, pk));
                proof {
                    assert forall|a: int, b: int|
                        0 <= a < self.party_keys@.len() && 0 <= b < self.party_keys@.len() && a != b implies (
                        #[trigger] self.party_keys@[a]).0 != (#[trigger] self.party_keys@[b]).0 by {
                        assert(self.party_keys@[a].0 == before[a].0);
                        assert(self.party_keys@[b].0 == before[b].0);
                    }
                    assert(self.party_keys@[m as int].0 == party_id);
                }
            },
            None => {
                self.party_keys.push((party_id, pk));
                proof {
                    assert forall|a: int, b: int|
                        0 <= a < self.party_keys@.len() && 0 <= b < self.party_keys@.len() && a != b implies (
                        #[trigger] self.party_keys@[a]).0 != (#[trigger] self.party_keys@[b]).0 by {
                        if a < before.len() {
                            assert(self.party_keys@[a] == before[a]);
                        }
                        if b < before.len() {
                            assert(self.party_keys@[b] == before[b]);
                        }
                    }
                    assert(self.party_keys@[before.len() as int].0 == party_id);
                }
            },
        }
        let ghost keys_now = self.party_keys@;
        let r = self.try_build_aggregate_key();
        proof {
            assert(self.party_keys@ == keys_now);
        }
        match r {
            Ok(()) => Ok(()),
            Err(e) => Err(e),
        }
    }

    /// Builds the aggregate key once keys of at least `threshold + 1` parties
    /// are in: the registered keys by party id, zero slots for the others.
    /// `Crypto` when `AggregateKey::new` refuses them.
    pub fn try_build_aggregate_key(&mut self) -> (r: Result<(), PeerError>)
        ensures
            final(self).keys() == old(self).keys(),
            final(self).wf() == old(self).wf(),
            final(self).spec_config() == old(self).spec_config(),
            final(self).spec_secret() == old(self).spec_secret(),
            final(self).spec_sessions() == old(self).spec_sessions(),
            old(self).keys().len() < old(self).spec_config().threshold + 1 ==> r is Ok && *final(self)
                == *old(self),
            r matches Err(e) ==> e is Crypto,
            old(self).keys().len() >= old(self).spec_config().threshold + 1 && keys_fit(
                old(self).keys(),
                old(self).spec_config().n as nat,
                old(self).spec_params(),
            ) ==> r is Ok,
            r is Ok && old(self).keys().len() >= old(self).spec_config().threshold + 1 ==> {
                let n = old(self).spec_config().n;
                let keys = old(self).keys();
                &&& final(self).spec_aggregate() is Some
                &&& final(self).spec_aggregate()->Some_0.pk@.len() == n
                &&& forall|i: int|
                    0 <= i < n ==> {
                        let k = #[trigger] final(self).spec_aggregate()->Some_0.pk@[i];
                        if has_party(keys, i as usize) {
                            exists|j: int| 0 <= j < keys.len() && keys[j].0 == i && same_pk(k, keys[j].1)
                        } else {
                            is_zero_slot(k, i as nat, n as nat)
                        }
                    }
            },
    {
        if !has_minimum_quorum(self.party_keys.len(), self.config.threshold) {
            return Ok(());
        }
        let n = self.config.n;
        let ordered = order_public_keys(n, &self.party_keys);
        let ghost ord = ordered@;
        proof {
            if keys_fit(self.party_keys@, n as nat, self.params) {
                assert forall|i: int| 0 <= i < ord.len() implies (#[trigger] ord[i]).sk_li_lj_z@.len() >= ord.len() by {
                    let o = ord[i];
                    assert(g1_views(o.sk_li_lj_z@).len() == o.sk_li_lj_z@.len());
                    if exists|j: int| 0 <= j < self.party_keys@.len() && self.party_keys@[j].0 == i {
                        let j = choose|j: int| 0 <= j < self.party_keys@.len() && self.party_keys@[j].0 == i
                            && same_pk(o, self.party_keys@[j].1);
                        let kj = self.party_keys@[j];
                        assert(g1_views(kj.1.sk_li_lj_z@).len() == kj.1.sk_li_lj_z@.len());
                        assert(kj.1.sk_li_lj_z@.len() >= n);
                    }
                }
                assert(aggregate_ok(ord, self.params));
            }
        }
        match AggregateKey::new(ordered, &self.params) {
            Ok(ak) => {
                proof {
                    assert forall|i: int| 0 <= i < n implies {
                        let k = #[trigger] ak.pk@[i];
                        if has_party(self.party_keys@, i as usize) {
                            exists|j: int| 0 <= j < self.party_keys@.len() && self.party_keys@[j].0 == i
                                && same_pk(k, self.party_keys@[j].1)
                        } else {
                            is_zero_slot(k, i as nat, n as nat)
                        }
                    } by {
                        let a = ak.pk@[i];
                        let o = ord[i];
                        assert(same_pk(a, o));
                        assert(g1_views(a.sk_li_lj_z@).len() == a.sk_li_lj_z@.len());
                        assert(g1_views(o.sk_li_lj_z@).len() == o.sk_li_lj_z@.len());
                        if has_party(self.party_keys@, i as usize) {
                            assert(exists|j: int| 0 <= j < self.party_keys@.len() && self.party_keys@[j].0 == i);
                            let j = choose|j: int| 0 <= j < self.party_keys@.len() && self.party_keys@[j].0 == i
                                && same_pk(o, self.party_keys@[j].1);
                            assert(same_pk(a, self.party_keys@[j].1));
                        } else {
                            assert(!exists|j: int| 0 <= j < self.party_keys@.len() && self.party_keys@[j].0 == i);
                            assert(is_zero_slot(o, i as nat, n as nat));
                            assert forall|m: int| 0 <= m < n implies #[trigger] a.sk_li_lj_z@[m]@ == g1_identity() by {
                                assert(g1_views(a.sk_li_lj_z@)[m] == a.sk_li_lj_z@[m]@);
                                assert(g1_views(o.sk_li_lj_z@)[m] == o.sk_li_lj_z@[m]@);
                            }
                        }
                    }
                }
                self.aggregate_key = Some(ak);
                Ok(())
            },
            Err(e) => Err(PeerError::Crypto(e)),
        }
    }

    /// Opens a decryption of `ciphertext` under the request id `request_id`:
    /// asks the `threshold + 1` smallest parties with a registered key, and
    /// adds this peer's own partial decryption when it is among them. Returns
    /// the parties to ask. `Config` when fewer than `threshold + 1` keys are
    /// in.
    pub fn start_decryption_session(&mut self, ciphertext: Ciphertext, request_id: MessageId) -> (r: Result<
        Vec<usize>,
        PeerError,
    >)
        ensures
            final(self).keys() == old(self).keys(),
            final(self).wf() == old(self).wf(),
            final(self).spec_config() == old(self).spec_config(),
            final(self).spec_aggregate() == old(self).spec_aggregate(),
            final(self).spec_secret() == old(self).spec_secret(),
            r is Ok <==> chosen(
                party_ids(old(self).keys()),
                old(self).spec_config().n as nat,
                (old(self).spec_config().threshold + 1) as nat,
            ).len() == old(self).spec_config().threshold + 1,
            r matches Err(e) ==> e is Config && final(self).spec_sessions() == old(self).spec_sessions(),
            r matches Ok(parties) ==> {
                let cfg = old(self).spec_config();
                &&& parties@ == chosen(party_ids(old(self).keys()), cfg.n as nat, (cfg.threshold + 1) as nat)
                &&& parties@.len() == cfg.threshold + 1
                &&& final(self).spec_sessions().len() == old(self).spec_sessions().len() + 1
                &&& final(self).spec_sessions().last().request_id == request_id
                &&& final(self).spec_sessions().last().requested_parties@ == parties@
                &&& final(self).spec_sessions().drop_last() == old(self).spec_sessions()
                &&& final(self).spec_sessions().last().ciphertext == ciphertext
                &&& final(self).spec_sessions().last().selector@.len() == cfg.n
                &&& (forall|i: int|
                    0 <= i < cfg.n ==> #[trigger] final(self).spec_sessions().last().selector@[i]
                        == parties@.contains(i as usize))
                &&& (parties@.contains(cfg.party_id) ==> final(self).spec_sessions().last().responses@
                    == seq![(cfg.party_id, final(self).spec_sessions().last().responses@[0].1)]
                    && final(self).spec_sessions().last().responses@[0].1@ == g2_mul_of(
                    ciphertext.gamma_g2@,
                    old(self).spec_secret(),
                ))
                &&& (!parties@.contains(cfg.party_id) ==> final(self).spec_sessions().last().responses@.len()
                    == 0)
            },
    {
        let mut ids: Vec<usize> = Vec::new();
        let mut k: usize = 0;
        while k < self.party_keys.len()
            invariant
                k <= self.party_keys@.len(),
                ids@ == party_ids(self.party_keys@.subrange(0, k as int)),
            decreases self.party_keys@.len() - k,
        {
            ids.push(self.party_keys[k].0);
            assert(self.party_keys@.subrange(0, k + 1).drop_last() =~= self.party_keys@.subrange(0, k as int));
            k = k + 1;
        }
        assert(self.party_keys@.subrange(0, self.party_keys@.len() as int) =~= self.party_keys@);
        let parties = select_parties_for_decryption(ids.as_slice(), self.config.n, self.config.threshold);
        if parties.len() <= self.config.threshold || parties.len() - 1 != self.config.threshold {
            return Err(PeerError::Config("not enough parties for the threshold".to_string()));
        }
        let selector = build_selector(self.config.n, parties.as_slice());
        let mut responses: Vec<(usize, G2)> = Vec::new();
        let me = self.config.party_id;
        let mut mine = false;
        let mut k: usize = 0;
        while k < parties.len()
            invariant
                k <= parties@.len(),
                mine == parties@.subrange(0, k as int).contains(me),
            decreases parties@.len() - k,
        {
            proof {
                let pre = parties@.subrange(0, k as int);
                let post = parties@.subrange(0, k + 1);
                assert(post =~= pre.push(parties@[k as int]));
                assert(post[k as int] == parties@[k as int]);
                if pre.contains(me) {
                    let w = choose|w: int| 0 <= w < pre.len() && pre[w] == me;
                    assert(post[w] == me);
                }
                if post.contains(me) && !pre.contains(me) {
                    let w = choose|w: int| 0 <= w < post.len() && post[w] == me;
                    if w < pre.len() {
                        assert(pre[w] == post[w]);
                    }
                }
            }
            if parties[k] == me {
                mine = true;
            }
            k = k + 1;
        }
        assert(parties@.subrange(0, parties@.len() as int) =~= parties@);
        if mine {
            responses.push((self.config.party_id, self.secret_key.partial_decryption(&ciphertext)));
        }
        let requested_parties = parties.clone();
        let ghost before = self.sessions@;
        self.sessions.push(DecryptSession { request_id, ciphertext, selector, responses, requested_parties });
        assert(self.sessions@.drop_last() =~= before);
        Ok(parties)
    }

    /// The answer to a request for partial decryptions (its transport
    /// signature already checked): this peer's partial decryption of the
    /// ciphertext when it is among the requested parties, `None` otherwise.
    /// `Serialization` when asked and the bytes are not a ciphertext.
    pub fn respond_to_request(&self, ct_bytes: &Vec<u8>, requesting_parties: &Vec<usize>) -> (r: Result<
        Option<G2>,
        PeerError,
    >)
        ensures
            !requesting_parties@.contains(self.spec_config().party_id) ==> r matches Ok(None),
            requesting_parties@.contains(self.spec_config().party_id) ==> {
                &&& (r is Ok <==> ct_decodable(ct_bytes@))
                &&& (r matches Err(e) ==> e is Serialization)
                &&& (r matches Ok(Some(pd)) ==> exists|ct: Ciphertext|
                    crate::encryption::ct_encoding(ct) == ct_bytes@ && pd@ == g2_mul_of(
                        #[trigger] ct.gamma_g2@,
                        self.spec_secret(),
                    ))
                &&& !(r matches Ok(None))
            },
    {
        let me = self.config.party_id;
        let mut asked = false;
        let mut k: usize = 0;
        while k < requesting_parties.len()
            invariant
                k <= requesting_parties@.len(),
                asked == requesting_parties@.subrange(0, k as int).contains(me),
            decreases requesting_parties@.len() - k,
        {
            proof {
                let pre = requesting_parties@.subrange(0, k as int);
                let post = requesting_parties@.subrange(0, k + 1);
                assert(post =~= pre.push(requesting_parties@[k as int]));
                assert(post[k as int] == requesting_parties@[k as int]);
                if pre.contains(me) {
                    let w = choose|w: int| 0 <= w < pre.len() && pre[w] == me;
                    assert(post[w] == me);
                }
                if post.contains(me) && !pre.contains(me) {
                    let w = choose|w: int| 0 <= w < post.len() && post[w] == me;
                    if w < pre.len() {
                        assert(pre[w] == post[w]);
                    }
                }
            }
            if requesting_parties[k] == me {
                asked = true;
            }
            k = k + 1;
        }
        assert(requesting_parties@.subrange(0, requesting_parties@.len() as int) =~= requesting_parties@);
        if !asked {
            return Ok(None);
        }
        match Ciphertext::from_bytes(ct_bytes) {
            Ok(ct) => Ok(Some(self.secret_key.partial_decryption(&ct))),
            Err(e) => Err(PeerError::Serialization(e.message().clone())),
        }
    }

    /// Records the partial decryption that party `party_id` sent for request
    /// `request_id` (its transport signature already checked), replacing an
    /// earlier one from that party. Once every requested party has answered,
    /// the session closes and aggregate decryption runs on its responses:
    /// `Some` with the recovered session key, or its error as `Crypto`
    /// (`Config` without an aggregate key). `Serialization` when the bytes
    /// are not a `G2` element; `None` for an unknown request or while answers
    /// are missing.
    pub fn record_response(&mut self, request_id: &MessageId, party_id: usize, pd_bytes: &Vec<u8>) -> (r: Result<
        Option<Gt>,
        PeerError,
    >)
        ensures
            final(self).keys() == old(self).keys(),
            final(self).wf() == old(self).wf(),
            final(self).spec_config() == old(self).spec_config(),
            final(self).spec_params() == old(self).spec_params(),
            final(self).spec_aggregate() == old(self).spec_aggregate(),
            final(self).spec_secret() == old(self).spec_secret(),
            r matches Err(PeerError::Serialization(_)) <==> !(pd_bytes@.len() == G2_BYTES && g2_valid(pd_bytes@)),
            !(pd_bytes@.len() == G2_BYTES && g2_valid(pd_bytes@)) ==> final(self).spec_sessions()
                == old(self).spec_sessions(),
            pd_bytes@.len() == G2_BYTES && g2_valid(pd_bytes@) ==> match first_session(
                old(self).spec_sessions(),
                request_id@,
                old(self).spec_sessions().len(),
            ) {
                None => r matches Ok(None) && final(self).spec_sessions() == old(self).spec_sessions(),
                Some(m) => exists|rs: Seq<(usize, G2)>|
                    #[trigger] recorded(old(self).spec_sessions()[m].responses@, rs, party_id, pd_bytes@)
                        && response_outcome(*old(self), *final(self), m, rs, r),
            },
    {
        let pd = match G2::from_bytes(pd_bytes) {
            Ok(v) => v,
            Err(e) => {
                return Err(PeerError::Serialization(e.message().clone()));
            },
        };
        let mut found: Option<usize> = None;
        let mut j: usize = 0;
        while j < self.sessions.len()
            invariant
                j <= self.sessions@.len(),
                found is None <==> first_session(self.sessions@, request_id@, j as nat) is None,
                found matches Some(x) ==> first_session(self.sessions@, request_id@, j as nat) == Some(
                    x as int,
                ) && x < j,
            decreases self.sessions@.len() - j,
        {
            if found.is_none() && ids_equal(&self.sessions[j].request_id, request_id) {
                found = Some(j);
            }
            j = j + 1;
        }
        let m = match found {
            Some(m) => m,
            None => {
                return Ok(None);
            },
        };
        let ghost old_sessions = self.sessions@;
        assert(old_sessions == old(self).sessions@);
        assert(first_session(old_sessions, request_id@, old_sessions.len()) == Some(m as int));
        assert(old(self).spec_sessions() == old_sessions);
        assert(first_session(old(self).spec_sessions(), request_id@, old(self).spec_sessions().len()) == Some(
            m as int,
        ));
        let mut session = self.sessions.remove(m);
        let ghost opened = old_sessions[m as int];
        assert(opened == session);
        let ghost before = session.responses@;
        let mut slot: Option<usize> = None;
        let mut j: usize = 0;
        while j < session.responses.len()
            invariant
                j <= session.responses@.len(),
                session.responses@ == before,
                slot is None ==> forall|k: int| 0 <= k < j ==> (#[trigger] before[k]).0 != party_id,
                slot matches Some(q) ==> q < before.len() && before[q as int].0 == party_id,
            decreases session.responses@.len() - j,
        {
            if slot.is_none() && session.responses[j].0 == party_id {
                slot = Some(j);
            }
            j = j + 1;
        }
        match slot {
            Some(q) => {
                session.responses.set(q, (party_id, pd));
                proof {
                    assert(has_response(before, party_id));
                    assert(session.responses@[q as int].0 == party_id);
                }
            },
            None => {
                session.responses.push((party_id, pd));
                proof {
                    assert(!has_response(before, party_id));
                    assert(session.responses@[before.len() as int].0 == party_id);
                }
            },
        }
        let ghost rs = session.responses@;
        assert(recorded(before, rs, party_id, pd_bytes@));
        assert(recorded(old(self).spec_sessions()[m as int].responses@, rs, party_id, pd_bytes@));
        let r: Result<Option<Gt>, PeerError> = if session.responses.len() != session.requested_parties.len() {
            self.sessions.insert(m, session);
            assert(self.sessions@ =~= old_sessions.update(m as int, self.sessions@[m as int]));
            assert(self.sessions@[m as int].responses@ == rs);
            Ok(None)
        } else {
            assert(self.sessions@ =~= old_sessions.remove(m as int));
            match &self.aggregate_key {
                None => Err(PeerError::Config("aggregate key missing".to_string())),
                Some(agg) => {
                    let partials = dense_partials(self.config.n, &session.responses);
                    assert(g2_views(partials@) =~= dense_views(self.config.n as nat, rs));
                    match agg_dec(&partials, &session.ciphertext, &session.selector, agg, &self.params) {
                        Ok(key) => Ok(Some(key)),
                        Err(e) => Err(PeerError::Crypto(e)),
                    }
                },
            }
        };
        proof {
            assert(response_outcome(*old(self), *self, m as int, rs, r));
            let mm = first_session(old(self).spec_sessions(), request_id@, old(self).spec_sessions().len())->Some_0;
            assert(mm == m as int);
            assert(recorded(old(self).spec_sessions()[mm].responses@, rs, party_id, pd_bytes@));
            assert(response_outcome(*old(self), *self, mm, rs, r));
        }
        r
    }

}

} // verus!
