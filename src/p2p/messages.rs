//! Messages exchanged between peers.
use vstd::prelude::*;

use crate::codec::{put_u64, u64_le};

verus! {

/// Unique message identifier.
pub type MessageId = [u8; 32];

/// Peer identifier (derived from a public key or a network address).
pub type PeerId = String;

/// A message of the peer-to-peer protocol.
#[derive(Debug)]
pub enum P2PMessage {
    /// Discovery: announce presence to the network.
    PeerAnnouncement {
        peer_id: PeerId,
        party_id: Option<usize>,
        listen_addr: String,
        capabilities: Vec<String>,
    },
    /// Discovery: request the peer list.
    PeerListRequest { from_peer: PeerId },
    /// Discovery: the known peers.
    PeerListResponse { peers: Vec<PeerInfo> },
    /// Setup: proposed secret-sharing parameters.
    VSSProposal { proposer_id: PeerId, n: usize, t: usize, commitment_bytes: Vec<u8> },
    /// Setup: a share for one peer.
    VSSShare { from_peer: PeerId, to_peer: PeerId, share_bytes: Vec<u8>, proof_bytes: Vec<u8> },
    /// Setup: acknowledgement of a proposal.
    VSSAck { from_peer: PeerId, proposal_id: MessageId, valid: bool },
    /// Key generation: a party's public key.
    PublicKeyBroadcast { party_id: usize, peer_id: PeerId, pk_bytes: Vec<u8>, signature: Vec<u8> },
    /// Key generation: request for missing public keys.
    PublicKeyRequest { from_peer: PeerId, requested_parties: Vec<usize> },
    /// Aggregate key: a computed aggregate key.
    AggregateKeyBroadcast {
        from_peer: PeerId,
        agg_key_bytes: Vec<u8>,
        contributing_parties: Vec<usize>,
        signature: Vec<u8>,
    },
    /// Encryption: a ciphertext.
    CiphertextBroadcast { from_peer: PeerId, ct_bytes: Vec<u8>, threshold: usize, timestamp: u64 },
    /// Decryption: request for partial decryptions.
    PartialDecryptionRequest {
        request_id: MessageId,
        from_peer: PeerId,
        ct_bytes: Vec<u8>,
        requesting_parties: Vec<usize>,
    },
    /// Decryption: a partial decryption.
    PartialDecryptionResponse {
        request_id: MessageId,
        party_id: usize,
        peer_id: PeerId,
        pd_bytes: Vec<u8>,
        signature: Vec<u8>,
    },
    /// Consensus: proposed quorum for a decryption.
    PartySelectionProposal {
        proposal_id: MessageId,
        from_peer: PeerId,
        selected_parties: Vec<usize>,
        threshold: usize,
    },
    /// Consensus: vote on a proposed quorum.
    PartySelectionVote {
        proposal_id: MessageId,
        from_peer: PeerId,
        approve: bool,
        reason: Option<String>,
    },
    /// A message forwarded by gossip, with the peers that have seen it (each
    /// once).
    Gossip { message_id: MessageId, ttl: u8, seen_by: Vec<PeerId>, payload: Box<P2PMessage> },
    /// Health: liveness check.
    Ping { from_peer: PeerId, timestamp: u64 },
    /// Health: answer to a ping.
    Pong { from_peer: PeerId, timestamp: u64 },
    /// A protocol error report.
    Error { from_peer: PeerId, error_type: String, message: String },
}

/// What is known of a peer.
#[derive(Debug, Clone)]
pub struct PeerInfo {
    pub peer_id: PeerId,
    pub party_id: Option<usize>,
    pub address: String,
    pub last_seen: u64,
    pub capabilities: Vec<String>,
}

/// Appends `b` counted: its length in 8 little-endian bytes, then its bytes.
pub fn put_bytes(out: &mut Vec<u8>, b: &[u8])
    ensures
        final(out)@ == old(out)@ + u64_le(b@.len() as u64) + b@,
{
    put_u64(out, b.len() as u64);
    let ghost start = out@;
    let mut i: usize = 0;
    while i < b.len()
        invariant
            i <= b@.len(),
            out@ == start + b@.subrange(0, i as int),
        decreases b@.len() - i,
    {
        out.push(b[i]);
        assert(b@.subrange(0, i + 1) =~= b@.subrange(0, i as int).push(b@[i as int]));
        i = i + 1;
    }
    assert(b@.subrange(0, b@.len() as int) =~= b@);
}

/// Appends the UTF-8 bytes of `s`, counted.
pub fn put_str(out: &mut Vec<u8>, s: &String) {
    put_bytes(out, s.as_str().as_bytes());
}

/// Appends the count of `v`, then each string counted.
pub fn put_strs(out: &mut Vec<u8>, v: &Vec<String>) {
    put_u64(out, v.len() as u64);
    let mut i: usize = 0;
    while i < v.len()
        decreases v@.len() - i,
    {
        put_str(out, &v[i]);
        i = i + 1;
    }
}

/// Appends the count of `v`, then each integer in 8 little-endian bytes.
pub fn put_ids(out: &mut Vec<u8>, v: &Vec<usize>) {
    put_u64(out, v.len() as u64);
    let mut i: usize = 0;
    while i < v.len()
        decreases v@.len() - i,
    {
        put_u64(out, v[i] as u64);
        i = i + 1;
    }
}

impl PeerInfo {
    /// Appends the encoding of the record: id, tagged party id, address, last
    /// sighting and counted capabilities.
    pub(crate) fn encode_into(&self, out: &mut Vec<u8>) {
        put_str(out, &self.peer_id);
        match self.party_id {
            Some(v) => {
                out.push(1);
                put_u64(out, v as u64);
            },
            None => out.push(0),
        }
        put_str(out, &self.address);
        put_u64(out, self.last_seen);
        put_strs(out, &self.capabilities);
    }
}

/// Classification of messages.
#[derive(Debug, Clone, Copy, PartialEq, Eq, Structural)]
pub enum MessageType {
    Discovery,
    Setup,
    KeyGeneration,
    Encryption,
    Decryption,
    Consensus,
    Health,
    Error,
}

impl Clone for P2PMessage {
    fn clone(&self) -> (r: Self) {
        self.copy()
    }
}

impl MessageType {
    /// The name of the variant.
    pub fn name(&self) -> (r: String)
        ensures
            r@ == self.spec_name(),
    {
        match self {
            MessageType::Discovery => "Discovery".to_string(),
            MessageType::Setup => "Setup".to_string(),
            MessageType::KeyGeneration => "KeyGeneration".to_string(),
            MessageType::Encryption => "Encryption".to_string(),
            MessageType::Decryption => "Decryption".to_string(),
            MessageType::Consensus => "Consensus".to_string(),
            MessageType::Health => "Health".to_string(),
            MessageType::Error => "Error".to_string(),
        }
    }

    /// The name of the variant.
    pub open spec fn spec_name(&self) -> Seq<char> {
        match self {
            MessageType::Discovery => "Discovery"@,
            MessageType::Setup => "Setup"@,
            MessageType::KeyGeneration => "KeyGeneration"@,
            MessageType::Encryption => "Encryption"@,
            MessageType::Decryption => "Decryption"@,
            MessageType::Consensus => "Consensus"@,
            MessageType::Health => "Health"@,
            MessageType::Error => "Error"@,
        }
    }
}

impl P2PMessage {
    /// Appends the encoding of the message: a tag byte for the variant, then
    /// its fields in order (integers in 8 little-endian bytes, strings and
    /// byte strings counted, options tagged). Message ids are computed over it.
    pub(crate) fn encode_into(&self, out: &mut Vec<u8>)
        decreases self,
    {
        match self {
            P2PMessage::PeerAnnouncement { peer_id, party_id, listen_addr, capabilities } => {
                out.push(0);
                put_str(out, peer_id);
                match party_id {
                    Some(v) => {
                        out.push(1);
                        put_u64(out, *v as u64);
                    },
                    None => out.push(0),
                }
                put_str(out, listen_addr);
                put_strs(out, capabilities);
            },
            P2PMessage::PeerListRequest { from_peer } => {
                out.push(1);
                put_str(out, from_peer);
            },
            P2PMessage::PeerListResponse { peers } => {
                out.push(2);
                put_u64(out, peers.len() as u64);
                let mut i: usize = 0;
                while i < peers.len()
                    decreases peers@.len() - i,
                {
                    peers[i].encode_into(out);
                    i = i + 1;
                }
            },
            P2PMessage::VSSProposal { proposer_id, n, t, commitment_bytes } => {
                out.push(3);
                put_str(out, proposer_id);
                put_u64(out, *n as u64);
                put_u64(out, *t as u64);
                put_bytes(out, commitment_bytes.as_slice());
            },
            P2PMessage::VSSShare { from_peer, to_peer, share_bytes, proof_bytes } => {
                out.push(4);
                put_str(out, from_peer);
                put_str(out, to_peer);
                put_bytes(out, share_bytes.as_slice());
                put_bytes(out, proof_bytes.as_slice());
            },
            P2PMessage::VSSAck { from_peer, proposal_id, valid } => {
                out.push(5);
                put_str(out, from_peer);
                put_bytes(out, proposal_id);
                out.push(if *valid { 1 } else { 0 });
            },
            P2PMessage::PublicKeyBroadcast { party_id, peer_id, pk_bytes, signature } => {
                out.push(6);
                put_u64(out, *party_id as u64);
                put_str(out, peer_id);
                put_bytes(out, pk_bytes.as_slice());
                put_bytes(out, signature.as_slice());
            },
            P2PMessage::PublicKeyRequest { from_peer, requested_parties } => {
                out.push(7);
                put_str(out, from_peer);
                put_ids(out, requested_parties);
            },
            P2PMessage::AggregateKeyBroadcast { from_peer, agg_key_bytes, contributing_parties, signature } => {
                out.push(8);
                put_str(out, from_peer);
                put_bytes(out, agg_key_bytes.as_slice());
                put_ids(out, contributing_parties);
                put_bytes(out, signature.as_slice());
            },
            P2PMessage::CiphertextBroadcast { from_peer, ct_bytes, threshold, timestamp } => {
                out.push(9);
                put_str(out, from_peer);
                put_bytes(out, ct_bytes.as_slice());
                put_u64(out, *threshold as u64);
                put_u64(out, *timestamp);
            },
            P2PMessage::PartialDecryptionRequest { request_id, from_peer, ct_bytes, requesting_parties } => {
                out.push(10);
                put_bytes(out, request_id);
                put_str(out, from_peer);
                put_bytes(out, ct_bytes.as_slice());
                put_ids(out, requesting_parties);
            },
            P2PMessage::PartialDecryptionResponse { request_id, party_id, peer_id, pd_bytes, signature } => {
                out.push(11);
                put_bytes(out, request_id);
                put_u64(out, *party_id as u64);
                put_str(out, peer_id);
                put_bytes(out, pd_bytes.as_slice());
                put_bytes(out, signature.as_slice());
            },
            P2PMessage::PartySelectionProposal { proposal_id, from_peer, selected_parties, threshold } => {
                out.push(12);
                put_bytes(out, proposal_id);
                put_str(out, from_peer);
                put_ids(out, selected_parties);
                put_u64(out, *threshold as u64);
            },
            P2PMessage::PartySelectionVote { proposal_id, from_peer, approve, reason } => {
                out.push(13);
                put_bytes(out, proposal_id);
                put_str(out, from_peer);
                out.push(if *approve { 1 } else { 0 });
                match reason {
                    Some(v) => {
                        out.push(1);
                        put_str(out, v);
                    },
                    None => out.push(0),
                }
            },
            P2PMessage::Gossip { message_id, ttl, seen_by, payload } => {
                out.push(14);
                put_bytes(out, message_id);
                out.push(*ttl);
                put_strs(out, seen_by);
                payload.encode_into(out);
            },
            P2PMessage::Ping { from_peer, timestamp } => {
                out.push(15);
                put_str(out, from_peer);
                put_u64(out, *timestamp);
            },
            P2PMessage::Pong { from_peer, timestamp } => {
                out.push(16);
                put_str(out, from_peer);
                put_u64(out, *timestamp);
            },
            P2PMessage::Error { from_peer, error_type, message } => {
                out.push(17);
                put_str(out, from_peer);
                put_str(out, error_type);
                put_str(out, message);
            },
        }
    }

    /// A copy of the message.
    pub fn copy(&self) -> (r: P2PMessage)
        decreases self,
    {
        match self {
            P2PMessage::PeerAnnouncement { peer_id, party_id, listen_addr, capabilities } => P2PMessage::PeerAnnouncement {
                peer_id: peer_id.clone(),
                party_id: *party_id,
                listen_addr: listen_addr.clone(),
                capabilities: capabilities.clone(),
            },
            P2PMessage::PeerListRequest { from_peer } => P2PMessage::PeerListRequest {
                from_peer: from_peer.clone(),
            },
            P2PMessage::PeerListResponse { peers } => P2PMessage::PeerListResponse {
                peers: peers.clone(),
            },
            P2PMessage::VSSProposal { proposer_id, n, t, commitment_bytes } => P2PMessage::VSSProposal {
                proposer_id: proposer_id.clone(),
                n: *n,
                t: *t,
                commitment_bytes: commitment_bytes.clone(),
            },
            P2PMessage::VSSShare { from_peer, to_peer, share_bytes, proof_bytes } => P2PMessage::VSSShare {
                from_peer: from_peer.clone(),
                to_peer: to_peer.clone(),
                share_bytes: share_bytes.clone(),
                proof_bytes: proof_bytes.clone(),
            },
            P2PMessage::VSSAck { from_peer, proposal_id, valid } => P2PMessage::VSSAck {
                from_peer: from_peer.clone(),
                proposal_id: *proposal_id,
                valid: *valid,
            },
            P2PMessage::PublicKeyBroadcast { party_id, peer_id, pk_bytes, signature } => P2PMessage::PublicKeyBroadcast {
                party_id: *party_id,
                peer_id: peer_id.clone(),
                pk_bytes: pk_bytes.clone(),
                signature: signature.clone(),
            },
            P2PMessage::PublicKeyRequest { from_peer, requested_parties } => P2PMessage::PublicKeyRequest {
                from_peer: from_peer.clone(),
                requested_parties: requested_parties.clone(),
            },
            P2PMessage::AggregateKeyBroadcast { from_peer, agg_key_bytes, contributing_parties, signature } => P2PMessage::AggregateKeyBroadcast {
                from_peer: from_peer.clone(),
                agg_key_bytes: agg_key_bytes.clone(),
                contributing_parties: contributing_parties.clone(),
                signature: signature.clone(),
            },
            P2PMessage::CiphertextBroadcast { from_peer, ct_bytes, threshold, timestamp } => P2PMessage::CiphertextBroadcast {
                from_peer: from_peer.clone(),
                ct_bytes: ct_bytes.clone(),
                threshold: *threshold,
                timestamp: *timestamp,
            },
            P2PMessage::PartialDecryptionRequest { request_id, from_peer, ct_bytes, requesting_parties } => P2PMessage::PartialDecryptionRequest {
                request_id: *request_id,
                from_peer: from_peer.clone(),
                ct_bytes: ct_bytes.clone(),
                requesting_parties: requesting_parties.clone(),
            },
            P2PMessage::PartialDecryptionResponse { request_id, party_id, peer_id, pd_bytes, signature } => P2PMessage::PartialDecryptionResponse {
                request_id: *request_id,
                party_id: *party_id,
                peer_id: peer_id.clone(),
                pd_bytes: pd_bytes.clone(),
                signature: signature.clone(),
            },
            P2PMessage::PartySelectionProposal { proposal_id, from_peer, selected_parties, threshold } => P2PMessage::PartySelectionProposal {
                proposal_id: *proposal_id,
                from_peer: from_peer.clone(),
                selected_parties: selected_parties.clone(),
                threshold: *threshold,
            },
            P2PMessage::PartySelectionVote { proposal_id, from_peer, approve, reason } => P2PMessage::PartySelectionVote {
                proposal_id: *proposal_id,
                from_peer: from_peer.clone(),
                approve: *approve,
                reason: reason.clone(),
            },
            P2PMessage::Gossip { message_id, ttl, seen_by, payload } => P2PMessage::Gossip {
                message_id: *message_id,
                ttl: *ttl,
                seen_by: seen_by.clone(),
                payload: Box::new(payload.copy()),
            },
            P2PMessage::Ping { from_peer, timestamp } => P2PMessage::Ping {
                from_peer: from_peer.clone(),
                timestamp: *timestamp,
            },
            P2PMessage::Pong { from_peer, timestamp } => P2PMessage::Pong {
                from_peer: from_peer.clone(),
                timestamp: *timestamp,
            },
            P2PMessage::Error { from_peer, error_type, message } => P2PMessage::Error {
                from_peer: from_peer.clone(),
                error_type: error_type.clone(),
                message: message.clone(),
            },
        }
    }

    /// The sender of a message; a gossiped message has the sender of its
    /// payload, and a peer list response has none.
    pub open spec fn spec_sender(&self) -> Option<Seq<char>>
        decreases self,
    {
        match self {
            P2PMessage::PeerAnnouncement { peer_id, .. } => Some(peer_id@),
            P2PMessage::PeerListRequest { from_peer } => Some(from_peer@),
            P2PMessage::PeerListResponse { .. } => None,
            P2PMessage::VSSProposal { proposer_id, .. } => Some(proposer_id@),
            P2PMessage::VSSShare { from_peer, .. } => Some(from_peer@),
            P2PMessage::VSSAck { from_peer, .. } => Some(from_peer@),
            P2PMessage::PublicKeyBroadcast { peer_id, .. } => Some(peer_id@),
            P2PMessage::PublicKeyRequest { from_peer, .. } => Some(from_peer@),
            P2PMessage::AggregateKeyBroadcast { from_peer, .. } => Some(from_peer@),
            P2PMessage::CiphertextBroadcast { from_peer, .. } => Some(from_peer@),
            P2PMessage::PartialDecryptionRequest { from_peer, .. } => Some(from_peer@),
            P2PMessage::PartialDecryptionResponse { peer_id, .. } => Some(peer_id@),
            P2PMessage::PartySelectionProposal { from_peer, .. } => Some(from_peer@),
            P2PMessage::PartySelectionVote { from_peer, .. } => Some(from_peer@),
            P2PMessage::Gossip { payload, .. } => payload.spec_sender(),
            P2PMessage::Ping { from_peer, .. } => Some(from_peer@),
            P2PMessage::Pong { from_peer, .. } => Some(from_peer@),
            P2PMessage::Error { from_peer, .. } => Some(from_peer@),
        }
    }

    /// The sender peer id.
    pub fn sender(&self) -> (r: Option<&PeerId>)
        ensures
            r matches Some(s) ==> self.spec_sender() == Some(s@),
            r is None ==> self.spec_sender() is None,
        decreases self,
    {
        match self {
            P2PMessage::PeerAnnouncement { peer_id, .. } => Some(peer_id),
            P2PMessage::PeerListRequest { from_peer } => Some(from_peer),
            P2PMessage::PeerListResponse { .. } => None,
            P2PMessage::VSSProposal { proposer_id, .. } => Some(proposer_id),
            P2PMessage::VSSShare { from_peer, .. } => Some(from_peer),
            P2PMessage::VSSAck { from_peer, .. } => Some(from_peer),
            P2PMessage::PublicKeyBroadcast { peer_id, .. } => Some(peer_id),
            P2PMessage::PublicKeyRequest { from_peer, .. } => Some(from_peer),
            P2PMessage::AggregateKeyBroadcast { from_peer, .. } => Some(from_peer),
            P2PMessage::CiphertextBroadcast { from_peer, .. } => Some(from_peer),
            P2PMessage::PartialDecryptionRequest { from_peer, .. } => Some(from_peer),
            P2PMessage::PartialDecryptionResponse { peer_id, .. } => Some(peer_id),
            P2PMessage::PartySelectionProposal { from_peer, .. } => Some(from_peer),
            P2PMessage::PartySelectionVote { from_peer, .. } => Some(from_peer),
            P2PMessage::Gossip { payload, .. } => payload.sender(),
            P2PMessage::Ping { from_peer, .. } => Some(from_peer),
            P2PMessage::Pong { from_peer, .. } => Some(from_peer),
            P2PMessage::Error { from_peer, .. } => Some(from_peer),
        }
    }

    /// The class of a message; a gossiped message has the class of its payload.
    pub open spec fn spec_message_type(&self) -> MessageType
        decreases self,
    {
        match self {
            P2PMessage::PeerAnnouncement { .. } => MessageType::Discovery,
            P2PMessage::PeerListRequest { .. } => MessageType::Discovery,
            P2PMessage::PeerListResponse { .. } => MessageType::Discovery,
            P2PMessage::VSSProposal { .. } => MessageType::Setup,
            P2PMessage::VSSShare { .. } => MessageType::Setup,
            P2PMessage::VSSAck { .. } => MessageType::Setup,
            P2PMessage::PublicKeyBroadcast { .. } => MessageType::KeyGeneration,
            P2PMessage::PublicKeyRequest { .. } => MessageType::KeyGeneration,
            P2PMessage::AggregateKeyBroadcast { .. } => MessageType::KeyGeneration,
            P2PMessage::CiphertextBroadcast { .. } => MessageType::Encryption,
            P2PMessage::PartialDecryptionRequest { .. } => MessageType::Decryption,
            P2PMessage::PartialDecryptionResponse { .. } => MessageType::Decryption,
            P2PMessage::PartySelectionProposal { .. } => MessageType::Consensus,
            P2PMessage::PartySelectionVote { .. } => MessageType::Consensus,
            P2PMessage::Gossip { payload, .. } => payload.spec_message_type(),
            P2PMessage::Ping { .. } => MessageType::Health,
            P2PMessage::Pong { .. } => MessageType::Health,
            P2PMessage::Error { .. } => MessageType::Error,
        }
    }

    /// The class of the message.
    pub fn message_type(&self) -> (r: MessageType)
        ensures
            r == self.spec_message_type(),
        decreases self,
    {
        match self {
            P2PMessage::PeerAnnouncement { .. } => MessageType::Discovery,
            P2PMessage::PeerListRequest { .. } => MessageType::Discovery,
            P2PMessage::PeerListResponse { .. } => MessageType::Discovery,
            P2PMessage::VSSProposal { .. } => MessageType::Setup,
            P2PMessage::VSSShare { .. } => MessageType::Setup,
            P2PMessage::VSSAck { .. } => MessageType::Setup,
            P2PMessage::PublicKeyBroadcast { .. } => MessageType::KeyGeneration,
            P2PMessage::PublicKeyRequest { .. } => MessageType::KeyGeneration,
            P2PMessage::AggregateKeyBroadcast { .. } => MessageType::KeyGeneration,
            P2PMessage::CiphertextBroadcast { .. } => MessageType::Encryption,
            P2PMessage::PartialDecryptionRequest { .. } => MessageType::Decryption,
            P2PMessage::PartialDecryptionResponse { .. } => MessageType::Decryption,
            P2PMessage::PartySelectionProposal { .. } => MessageType::Consensus,
            P2PMessage::PartySelectionVote { .. } => MessageType::Consensus,
            P2PMessage::Gossip { payload, .. } => payload.message_type(),
            P2PMessage::Ping { .. } => MessageType::Health,
            P2PMessage::Pong { .. } => MessageType::Health,
            P2PMessage::Error { .. } => MessageType::Error,
        }
    }
}

} // verus!
