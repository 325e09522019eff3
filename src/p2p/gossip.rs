//! Gossip: flooding messages through the network with a hop limit and a
//! cache of the messages already seen.
use vstd::prelude::*;

use super::config::{blake2b512, blake2b512_of};
use super::discovery::current_timestamp;
use crate::codec::{put_u64, u64_le};
use super::messages::{MessageId, P2PMessage, PeerId};

verus! {

/// Hop limit given to a message this peer starts.
pub const DEFAULT_TTL: u8 = 5;

/// Number of peers a message is forwarded to.
pub const DEFAULT_FANOUT: usize = 3;

/// Seconds a seen message stays in the cache.
pub const CACHE_TIMEOUT: u64 = 300;

/// Local processing of a message of one class, registered by the user.
pub trait MessageHandler {
    fn handle(&self, msg: &P2PMessage) -> Result<(), String>;
}

/// A handler that accepts every message.
pub struct NoHandler;

impl MessageHandler for NoHandler {
    fn handle(&self, msg: &P2PMessage) -> Result<(), String> {
        Ok(())
    }
}

/// A message travelling by gossip.
#[derive(Debug, Clone)]
pub struct GossipMessage {
    pub message_id: MessageId,
    pub ttl: u8,
    pub seen_by: Vec<PeerId>,
    pub payload: P2PMessage,
}

/// What to do with an incoming gossip message.
pub enum GossipResult {
    /// Seen before: ignore.
    AlreadySeen,
    /// No hops left.
    Expired,
    /// Processed here, not to be forwarded.
    Processed,
    /// Processed here; forward this copy.
    ShouldForward(GossipMessage),
    /// The local handler refused it.
    HandlerError(String),
}

/// Whether `id` is in the cache `seen`.
pub open spec fn in_cache(seen: Seq<(MessageId, u64)>, id: Seq<u8>) -> bool {
    exists|i: int| 0 <= i < seen.len() && (#[trigger] seen[i]).0@ == id
}

/// Whether the names in `v` include `p`.
pub open spec fn names(v: Seq<PeerId>, p: Seq<char>) -> bool {
    exists|i: int| 0 <= i < v.len() && (#[trigger] v[i])@ == p
}

/// Whether two message ids are equal.
pub fn ids_equal(a: &MessageId, b: &MessageId) -> (r: bool)
    ensures
        r == (a@ == b@),
{
    let mut i: usize = 0;
    while i < 32
        invariant
            i <= 32,
            a@.len() == 32,
            b@.len() == 32,
            forall|k: int| 0 <= k < i ==> a@[k] == b@[k],
        decreases 32 - i,
    {
        if a[i] != b[i] {
            return false;
        }
        i = i + 1;
    }
    assert(a@ =~= b@);
    true
}

/// Whether `v` holds the name `p`.
pub fn contains_peer(v: &Vec<PeerId>, p: &PeerId) -> (r: bool)
    ensures
        r == names(v@, p@),
{
    let mut i: usize = 0;
    while i < v.len()
        invariant
            i <= v@.len(),
            forall|k: int| 0 <= k < i ==> (#[trigger] v@[k])@ != p@,
        decreases v@.len() - i,
    {
        if v[i] == *p {
            return true;
        }
        i = i + 1;
    }
    false
}

/// The id of a message started at time `now`: the first 32 bytes of the
/// BLAKE2b-512 digest of the message's encoding followed by `now` in 8
/// little-endian bytes.
pub fn compute_message_id(msg: &P2PMessage, now: u64) -> (r: MessageId)
    ensures
        exists|enc: Seq<u8>| r@ == (#[trigger] blake2b512_of(enc + u64_le(now))).subrange(0, 32),
{
    let mut bytes: Vec<u8> = Vec::new();
    msg.encode_into(&mut bytes);
    let ghost enc = bytes@;
    put_u64(&mut bytes, now);
    let digest = blake2b512(bytes.as_slice());
    let mut id = [0u8; 32];
    let mut i: usize = 0;
    while i < 32
        invariant
            i <= 32,
            digest@.len() == 64,
            id@.len() == 32,
            forall|k: int| 0 <= k < i ==> id@[k] == digest@[k],
        decreases 32 - i,
    {
        id.set(i, digest[i]);
        i = i + 1;
    }
    assert(id@ =~= digest@.subrange(0, 32));
    assert(digest@ == blake2b512_of(enc + u64_le(now)));
    id
}

/// The gossip state of one peer: its cache of seen messages and its handlers.
pub struct GossipProtocol<H> {
    local_peer_id: PeerId,
    seen_messages: Vec<(MessageId, u64)>,
    handlers: Vec<(String, H)>,
    fanout: usize,
    default_ttl: u8,
}

impl GossipProtocol<NoHandler> {
    /// Gossip with the default fanout and hop limit, without handlers.
    pub fn new(local_peer_id: PeerId) -> (r: Self)
        ensures
            r.local_id() == local_peer_id@,
            r.cache().len() == 0,
            r.spec_fanout() == DEFAULT_FANOUT,
            r.spec_default_ttl() == DEFAULT_TTL,
    {
        GossipProtocol::with_handlers(local_peer_id, DEFAULT_FANOUT, DEFAULT_TTL)
    }

    /// Gossip with the given fanout and hop limit, without handlers.
    pub fn with_params(local_peer_id: PeerId, fanout: usize, default_ttl: u8) -> (r: Self)
        ensures
            r.local_id() == local_peer_id@,
            r.cache().len() == 0,
            r.spec_fanout() == fanout,
            r.spec_default_ttl() == default_ttl,
    {
        GossipProtocol::with_handlers(local_peer_id, fanout, default_ttl)
    }
}

impl<H: MessageHandler> GossipProtocol<H> {
    /// Our peer id.
    pub closed spec fn local_id(&self) -> Seq<char> {
        self.local_peer_id@
    }

    /// The cache of seen messages, with the time each was last marked.
    pub closed spec fn cache(&self) -> Seq<(MessageId, u64)> {
        self.seen_messages@
    }

    /// The fanout.
    pub closed spec fn spec_fanout(&self) -> usize {
        self.fanout
    }

    /// The hop limit of new messages.
    pub closed spec fn spec_default_ttl(&self) -> u8 {
        self.default_ttl
    }

    /// Gossip with the given fanout and hop limit, with handlers of type `H`
    /// to be registered.
    pub fn with_handlers(local_peer_id: PeerId, fanout: usize, default_ttl: u8) -> (r: Self)
        ensures
            r.local_id() == local_peer_id@,
            r.cache().len() == 0,
            r.spec_fanout() == fanout,
            r.spec_default_ttl() == default_ttl,
    {
        GossipProtocol {
            local_peer_id,
            seen_messages: Vec::new(),
            handlers: Vec::new(),
            fanout,
            default_ttl,
        }
    }

    /// Registers the handler for the messages whose class is named
    /// `message_type`.
    pub fn register_handler(&mut self, message_type: String, handler: H)
        ensures
            final(self).local_id() == old(self).local_id(),
            final(self).cache() == old(self).cache(),
    {
        self.handlers.push((message_type, handler));
    }

    /// Index of `id` in the cache.
    fn seen_index(&self, id: &MessageId) -> (r: Option<usize>)
        ensures
            r is None <==> !in_cache(self.seen_messages@, id@),
            r matches Some(i) ==> i < self.seen_messages@.len() && self.seen_messages@[i as int].0@ == id@,
    {
        let mut i: usize = 0;
        while i < self.seen_messages.len()
            invariant
                i <= self.seen_messages@.len(),
                forall|k: int| 0 <= k < i ==> (#[trigger] self.seen_messages@[k]).0@ != id@,
            decreases self.seen_messages@.len() - i,
        {
            if ids_equal(&self.seen_messages[i].0, id) {
                return Some(i);
            }
            i = i + 1;
        }
        None
    }

    /// Whether the message `message_id` has been seen.
    pub fn has_seen(&self, message_id: &MessageId) -> (r: bool)
        ensures
            r == in_cache(self.cache(), message_id@),
    {
        self.seen_index(message_id).is_some()
    }

    /// Marks the message `id` as seen at time `now`.
    fn mark_as_seen(&mut self, id: &MessageId, now: u64)
        ensures
            final(self).local_id() == old(self).local_id(),
            final(self).spec_default_ttl() == old(self).spec_default_ttl(),
            in_cache(final(self).cache(), id@),
            forall|x: Seq<u8>| in_cache(old(self).cache(), x) ==> in_cache(final(self).cache(), x),
    {
        match self.seen_index(id) {
            Some(i) => {
                let ghost before = self.seen_messages@;
                self.seen_messages.set(i, (*id, now));
                proof {
                    assert(self.seen_messages@[i as int].0@ == id@);
                    assert forall|x: Seq<u8>| in_cache(before, x) implies in_cache(self.seen_messages@, x) by {
                        let j = choose|j: int| 0 <= j < before.len() && (#[trigger] before[j]).0@ == x;
                        assert(self.seen_messages@[j].0@ == x);
                    }
                }
            },
            None => {
                let ghost before = self.seen_messages@;
                self.seen_messages.push((*id, now));
                proof {
                    assert(self.seen_messages@[before.len() as int].0@ == id@);
                    assert forall|x: Seq<u8>| in_cache(before, x) implies in_cache(self.seen_messages@, x) by {
                        let j = choose|j: int| 0 <= j < before.len() && (#[trigger] before[j]).0@ == x;
                        assert(self.seen_messages@[j] == before[j]);
                    }
                }
            },
        }
    }

    /// Starts the gossip of `msg`: a new message seen by this peer only, with
    /// the default hop limit, and marked as seen here.
    pub fn broadcast(&mut self, msg: P2PMessage) -> (r: GossipMessage)
        ensures
            r.ttl == old(self).spec_default_ttl(),
            r.payload == msg,
            r.seen_by@.len() == 1,
            r.seen_by@[0]@ == old(self).local_id(),
            in_cache(final(self).cache(), r.message_id@),
            final(self).local_id() == old(self).local_id(),
    {
        let now = current_timestamp();
        let message_id = compute_message_id(&msg, now);
        let seen_by = vec![self.local_peer_id.clone()];
        self.mark_as_seen(&message_id, now);
        GossipMessage { message_id, ttl: self.default_ttl, seen_by, payload: msg }
    }

    /// Handles an incoming gossip message at time `now`: a message seen before
    /// is ignored, one with no hops left expires; otherwise it is marked as
    /// seen and given to the handler of its class. Unless the handler refuses
    /// it, it is forwarded with one hop less when it has more than one hop left
    /// and this peer is not yet among those that have seen it.
    pub fn handle_gossip_at(&mut self, gossip: &GossipMessage, now: u64) -> (r: GossipResult)
        ensures
            final(self).local_id() == old(self).local_id(),
            in_cache(old(self).cache(), gossip.message_id@) ==> r is AlreadySeen && final(self).cache()
                == old(self).cache(),
            !in_cache(old(self).cache(), gossip.message_id@) && gossip.ttl == 0 ==> r is Expired
                && final(self).cache() == old(self).cache(),
            !in_cache(old(self).cache(), gossip.message_id@) && gossip.ttl > 0 ==> in_cache(
                final(self).cache(),
                gossip.message_id@,
            ),
            r is ShouldForward ==> gossip.ttl > 1 && !names(gossip.seen_by@, old(self).local_id()),
            r matches GossipResult::ShouldForward(m) ==> m.ttl == gossip.ttl - 1 && names(
                m.seen_by@,
                old(self).local_id(),
            ),
            r is Processed ==> gossip.ttl <= 1 || names(gossip.seen_by@, old(self).local_id()),
            !in_cache(old(self).cache(), gossip.message_id@) && gossip.ttl > 0 ==> (r is ShouldForward
                || r is Processed || r is HandlerError),
    {
        if self.has_seen(&gossip.message_id) {
            return GossipResult::AlreadySeen;
        }
        if gossip.ttl == 0 {
            return GossipResult::Expired;
        }
        self.mark_as_seen(&gossip.message_id, now);
        let message_type = gossip.payload.message_type().name();
        let mut k: usize = 0;
        while k < self.handlers.len()
            invariant
                k <= self.handlers@.len(),
                self.local_peer_id@ == old(self).local_peer_id@,
                !in_cache(old(self).seen_messages@, gossip.message_id@),
                in_cache(self.seen_messages@, gossip.message_id@),
                gossip.ttl > 0,
            decreases self.handlers@.len() - k,
        {
            if self.handlers[k].0 == message_type {
                match self.handlers[k].1.handle(&gossip.payload) {
                    Ok(()) => {},
                    Err(e) => {
                        return GossipResult::HandlerError(e);
                    },
                }
                break;
            }
            k = k + 1;
        }
        if gossip.ttl > 1 && !contains_peer(&gossip.seen_by, &self.local_peer_id) {
            let mut next = GossipMessage {
                message_id: gossip.message_id,
                ttl: gossip.ttl - 1,
                seen_by: gossip.seen_by.clone(),
                payload: gossip.payload.clone(),
            };
            let ghost before = next.seen_by@;
            next.seen_by.push(self.local_peer_id.clone());
            assert(next.seen_by@[before.len() as int]@ == self.local_peer_id@);
            GossipResult::ShouldForward(next)
        } else {
            GossipResult::Processed
        }
    }

    /// Handles an incoming gossip message now.
    pub fn handle_gossip(&mut self, gossip: &GossipMessage) -> (r: GossipResult)
        ensures
            in_cache(old(self).cache(), gossip.message_id@) ==> r is AlreadySeen,
            !in_cache(old(self).cache(), gossip.message_id@) && gossip.ttl == 0 ==> r is Expired,
            r matches GossipResult::ShouldForward(m) ==> m.ttl == gossip.ttl - 1,
    {
        let now = current_timestamp();
        self.handle_gossip_at(gossip, now)
    }

    /// Drops the cached messages older than the cache timeout at time `now`
    /// (a mark later than `now` counts as fresh).
    pub fn cleanup_old_messages_at(&mut self, now: u64)
        ensures
            final(self).local_id() == old(self).local_id(),
            forall|k: int|
                0 <= k < final(self).cache().len() ==> old(self).cache().contains(
                    #[trigger] final(self).cache()[k],
                ) && (final(self).cache()[k].1 > now || now - final(self).cache()[k].1 < CACHE_TIMEOUT),
            forall|j: int|
                0 <= j < old(self).cache().len() && ((#[trigger] old(self).cache()[j]).1 > now || now
                    - old(self).cache()[j].1 < CACHE_TIMEOUT) ==> final(self).cache().contains(
                    old(self).cache()[j],
                ),
    {
        let mut kept: Vec<(MessageId, u64)> = Vec::new();
        let mut i: usize = 0;
        let ghost orig = self.seen_messages@;
        while i < self.seen_messages.len()
            invariant
                i <= orig.len(),
                orig == self.seen_messages@,
                orig == old(self).seen_messages@,
                self.local_peer_id == old(self).local_peer_id,
                forall|k: int|
                    0 <= k < kept@.len() ==> orig.contains(#[trigger] kept@[k]) && (kept@[k].1 > now
                        || now - kept@[k].1 < CACHE_TIMEOUT),
                forall|j: int|
                    0 <= j < i && ((#[trigger] orig[j]).1 > now || now - orig[j].1 < CACHE_TIMEOUT)
                        ==> kept@.contains(orig[j]),
            decreases orig.len() - i,
        {
            let e = self.seen_messages[i];
            if e.1 > now || now - e.1 < CACHE_TIMEOUT {
                let ghost before = kept@;
                kept.push(e);
                proof {
                    assert(kept@[before.len() as int] == orig[i as int]);
                    assert forall|j: int|
                        0 <= j < i + 1 && ((#[trigger] orig[j]).1 > now || now - orig[j].1 < CACHE_TIMEOUT)
                            implies kept@.contains(orig[j]) by {
                        if j < i {
                            let k = choose|k: int| 0 <= k < before.len() && before[k] == orig[j];
                            assert(kept@[k] == before[k]);
                        }
                    }
                    assert forall|k: int| 0 <= k < kept@.len() implies orig.contains(#[trigger] kept@[k]) && (
                        kept@[k].1 > now || now - kept@[k].1 < CACHE_TIMEOUT) by {
                        if k < before.len() {
                            assert(kept@[k] == before[k]);
                        } else {
                            assert(kept@[k] == orig[i as int]);
                        }
                    }
                }
            }
            i = i + 1;
        }
        self.seen_messages = kept;
    }

    /// Drops the cached messages older than the cache timeout.
    pub fn cleanup_old_messages(&mut self) {
        let now = current_timestamp();
        self.cleanup_old_messages_at(now);
    }

    /// The fanout.
    pub fn fanout(&self) -> (r: usize)
        ensures
            r == self.spec_fanout(),
    {
        self.fanout
    }

    /// Number of cached messages.
    pub fn seen_count(&self) -> (r: usize)
        ensures
            r == self.cache().len(),
    {
        self.seen_messages.len()
    }
}

} // verus!
