//! Configuration of a peer and the plain decisions of the peer protocol.
use vstd::prelude::*;

use crate::algebra::{g2_identity, G2};
use crate::error::SteError;
use crate::setup::{is_zero_slot, same_pk, PublicKey};

verus! {

/// Whether the peer starts an example encryption once ready.
#[derive(Debug, Clone, Copy, PartialEq, Eq, Structural)]
pub enum PeerRuntimeMode {
    Passive,
    Initiator,
}

/// Runtime configuration of a peer. The parameter files are named by path.
#[derive(Debug, Clone)]
pub struct PeerConfig {
    pub party_id: usize,
    pub n: usize,
    pub threshold: usize,
    pub listen_addresses: Vec<String>,
    pub bootstrap_nodes: Vec<String>,
    pub gossip_topic: String,
    pub kzg_params_path: String,
    pub lagrange_params_path: String,
    pub mode: PeerRuntimeMode,
    pub auto_decrypt: bool,
    pub enable_mdns: bool,
}

/// Errors of the peer protocol.
#[derive(Debug)]
pub enum PeerError {
    /// An invalid configuration.
    Config(String),
    /// Bytes that do not decode.
    Serialization(String),
    /// Input/output failure.
    Io(String),
    /// A failure of the scheme itself.
    Crypto(SteError),
    /// Transport failure.
    Network(String),
    /// A signature that does not verify.
    Signature(String),
}

/// A peer of the network, by its configuration.
pub struct PeerNode {
    config: PeerConfig,
}

impl PeerNode {
    /// The peer with the given configuration.
    pub fn new(config: PeerConfig) -> (r: Self)
        ensures
            r.spec_config() == config,
    {
        PeerNode { config }
    }

    /// The configuration.
    pub closed spec fn spec_config(&self) -> PeerConfig {
        self.config
    }

    /// The configuration.
    pub fn config(&self) -> (r: &PeerConfig)
        ensures
            *r == self.spec_config(),
    {
        &self.config
    }
}

/// Whether a configuration is usable: at least two parties, `1 <= t < n`,
/// a party id below `n`, and a listen address.
pub open spec fn config_ok(c: PeerConfig) -> bool {
    &&& c.n >= 2
    &&& 1 <= c.threshold < c.n
    &&& c.party_id < c.n
    &&& c.listen_addresses@.len() > 0
}

/// Checks a configuration; `PeerError::Config` names the first rule broken.
pub fn validate_config(config: &PeerConfig) -> (r: Result<(), PeerError>)
    ensures
        r is Ok <==> config_ok(*config),
        r matches Err(e) ==> e is Config,
{
    if config.n < 2 {
        return Err(PeerError::Config("n must be at least 2".to_string()));
    }
    if config.threshold == 0 || config.threshold >= config.n {
        return Err(PeerError::Config("threshold must be between 1 and n-1".to_string()));
    }
    if config.party_id >= config.n {
        return Err(PeerError::Config("party_id must be < n".to_string()));
    }
    if config.listen_addresses.len() == 0 {
        return Err(PeerError::Config("at least one listen address is required".to_string()));
    }
    Ok(())
}

/// The selector of length `n` that marks the given parties; ids at or beyond
/// `n` are ignored.
pub fn build_selector(n: usize, parties: &[usize]) -> (r: Vec<bool>)
    ensures
        r@.len() == n,
        forall|i: int| 0 <= i < n ==> #[trigger] r@[i] == parties@.contains(i as usize),
{
    let mut selector: Vec<bool> = Vec::new();
    let mut i: usize = 0;
    while i < n
        invariant
            i <= n,
            selector@.len() == i,
            forall|k: int| 0 <= k < i ==> !#[trigger] selector@[k],
        decreases n - i,
    {
        selector.push(false);
        i = i + 1;
    }
    let mut k: usize = 0;
    while k < parties.len()
        invariant
            k <= parties@.len(),
            selector@.len() == n,
            forall|j: int|
                0 <= j < n ==> #[trigger] selector@[j] == parties@.subrange(0, k as int).contains(j as usize),
        decreases parties@.len() - k,
    {
        let id = parties[k];
        let ghost before = selector@;
        if id < n {
            selector.set(id, true);
        }
        proof {
            assert forall|j: int| 0 <= j < n implies #[trigger] selector@[j] == parties@.subrange(
                0,
                k + 1,
            ).contains(j as usize) by {
                let pre = parties@.subrange(0, k as int);
                let post = parties@.subrange(0, k + 1);
                assert(post =~= pre.push(id));
                assert(before[j] == pre.contains(j as usize));
                if id < n && j == id as int {
                    assert(post[k as int] == id);
                } else {
                    assert(selector@[j] == before[j]);
                }
                if pre.contains(j as usize) {
                    let w = choose|w: int| 0 <= w < pre.len() && pre[w] == j as usize;
                    assert(post[w] == j as usize);
                }
                if post.contains(j as usize) && !pre.contains(j as usize) {
                    let w = choose|w: int| 0 <= w < post.len() && post[w] == j as usize;
                    if w < pre.len() {
                        assert(pre[w] == post[w]);
                    }
                }
            }
        }
        k = k + 1;
    }
    assert(parties@.subrange(0, parties@.len() as int) =~= parties@);
    selector
}

/// The ids below `m` that are in `avail`, in increasing order, until `k` are
/// taken.
pub open spec fn chosen(avail: Seq<usize>, m: nat, k: nat) -> Seq<usize>
    decreases m,
{
    if m == 0 {
        seq![]
    } else {
        let p = chosen(avail, (m - 1) as nat, k);
        if avail.contains((m - 1) as usize) && p.len() < k {
            p.push((m - 1) as usize)
        } else {
            p
        }
    }
}

/// The quorum asked for partial decryptions: the `threshold + 1` smallest
/// party ids below `n` among those whose public keys arrived (fewer when
/// fewer arrived). Party 0 comes first whenever its key arrived.
pub fn select_parties_for_decryption(party_ids: &[usize], n: usize, threshold: usize) -> (r: Vec<usize>)
    ensures
        r@ == chosen(party_ids@, n as nat, (threshold + 1) as nat),
{
    let mut selected: Vec<usize> = Vec::new();
    let mut id: usize = 0;
    while id < n
        invariant
            id <= n,
            selected@ == chosen(party_ids@, id as nat, (threshold + 1) as nat),
        decreases n - id,
    {
        let mut present = false;
        let mut k: usize = 0;
        while k < party_ids.len()
            invariant
                k <= party_ids@.len(),
                present == party_ids@.subrange(0, k as int).contains(id),
            decreases party_ids@.len() - k,
        {
            proof {
                let pre = party_ids@.subrange(0, k as int);
                let post = party_ids@.subrange(0, k + 1);
                assert(post =~= pre.push(party_ids@[k as int]));
                assert(post[k as int] == party_ids@[k as int]);
                if pre.contains(id) {
                    let w = choose|w: int| 0 <= w < pre.len() && pre[w] == id;
                    assert(post[w] == id);
                }
                if post.contains(id) && !pre.contains(id) {
                    let w = choose|w: int| 0 <= w < post.len() && post[w] == id;
                    if w < pre.len() {
                        assert(pre[w] == post[w]);
                    }
                }
            }
            if party_ids[k] == id {
                present = true;
            }
            k = k + 1;
        }
        assert(party_ids@.subrange(0, party_ids@.len() as int) =~= party_ids@);
        if present && selected.len() <= threshold {
            selected.push(id);
        }
        id = id + 1;
    }
    selected
}

/// Whether the aggregate key can be built: keys from at least `threshold + 1`
/// parties have arrived.
pub fn has_minimum_quorum(available: usize, threshold: usize) -> (r: bool)
    ensures
        r == (available >= threshold + 1),
{
    available > threshold
}

/// The public-key vector of the aggregate key in the peer-to-peer setting: for
/// each party below `n`, the first key registered for it in `received` (party
/// id, key), or the zero slot `PublicKey::zero_for_domain(id, n)` when none
/// arrived.
pub fn order_public_keys(n: usize, received: &Vec<(usize, PublicKey)>) -> (r: Vec<PublicKey>)
    ensures
        r@.len() == n,
        forall|i: int|
            0 <= i < n ==> {
                let k = #[trigger] r@[i];
                if exists|j: int| 0 <= j < received@.len() && received@[j].0 == i {
                    exists|j: int|
                        0 <= j < received@.len() && received@[j].0 == i && same_pk(k, received@[j].1)
                } else {
                    is_zero_slot(k, i as nat, n as nat)
                }
            },
{
    let mut ordered: Vec<PublicKey> = Vec::new();
    let mut id: usize = 0;
    while id < n
        invariant
            id <= n,
            ordered@.len() == id,
            forall|i: int|
                0 <= i < id ==> {
                    let k = #[trigger] ordered@[i];
                    if exists|j: int| 0 <= j < received@.len() && received@[j].0 == i {
                        exists|j: int|
                            0 <= j < received@.len() && received@[j].0 == i && same_pk(k, received@[j].1)
                    } else {
                        is_zero_slot(k, i as nat, n as nat)
                    }
                },
        decreases n - id,
    {
        let mut found: Option<usize> = None;
        let mut j: usize = 0;
        while j < received.len()
            invariant
                j <= received@.len(),
                found is None ==> forall|m: int| 0 <= m < j ==> (#[trigger] received@[m]).0 != id,
                found matches Some(m) ==> m < received@.len() && received@[m as int].0 == id,
            decreases received@.len() - j,
        {
            if found.is_none() && received[j].0 == id {
                found = Some(j);
            }
            j = j + 1;
        }
        let ghost before = ordered@;
        match found {
            Some(m) => {
                let k = received[m].1.copy();
                ordered.push(k);
                proof {
                    assert(same_pk(ordered@[id as int], received@[m as int].1));
                }
            },
            None => {
                ordered.push(PublicKey::zero_for_domain(id, n));
            },
        }
        proof {
            assert forall|i: int| 0 <= i < id implies #[trigger] ordered@[i] == before[i] by {}
        }
        id = id + 1;
    }
    ordered
}

/// The partial decryption party `i` sent last among the first `m`
/// responses, if any.
pub open spec fn last_response(responses: Seq<(usize, G2)>, i: int, m: nat) -> Option<Seq<u8>>
    decreases m,
{
    if m == 0 {
        None
    } else if responses[m - 1].0 as int == i {
        Some(responses[m - 1].1@)
    } else {
        last_response(responses, i, (m - 1) as nat)
    }
}

/// The dense vector of partial decryptions that aggregate decryption takes:
/// for each party below `n`, the last response it sent, or the `G2` identity
/// for a party that sent none. Responses from ids at or beyond `n` are
/// ignored.
pub fn dense_partials(n: usize, responses: &Vec<(usize, G2)>) -> (r: Vec<G2>)
    ensures
        r@.len() == n,
        forall|i: int|
            0 <= i < n ==> (#[trigger] r@[i])@ == match last_response(responses@, i, responses@.len()) {
                Some(pd) => pd,
                None => g2_identity(),
            },
{
    let mut partials: Vec<G2> = Vec::new();
    let mut i: usize = 0;
    while i < n
        invariant
            i <= n,
            partials@.len() == i,
            forall|k: int| 0 <= k < i ==> (#[trigger] partials@[k])@ == g2_identity(),
        decreases n - i,
    {
        partials.push(G2::zero());
        i = i + 1;
    }
    let mut j: usize = 0;
    while j < responses.len()
        invariant
            j <= responses@.len(),
            partials@.len() == n,
            forall|k: int|
                0 <= k < n ==> (#[trigger] partials@[k])@ == match last_response(responses@, k, j as nat) {
                    Some(pd) => pd,
                    None => g2_identity(),
                },
        decreases responses@.len() - j,
    {
        let id = responses[j].0;
        if id < n {
            partials.set(id, responses[j].1.copy());
        }
        j = j + 1;
    }
    partials
}

} // verus!
