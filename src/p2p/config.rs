//! Transport-facing configuration and error types, and peer ids.
use blake2::{Blake2b512, Digest};
use vstd::prelude::*;

use super::messages::{P2PMessage, PeerId};

verus! {

/// Gossip topic the peers of this scheme share.
pub const DEFAULT_TOPIC: &'static str = "silent-threshold-encryption";

/// Failures of the signature layer of the transport.
#[derive(Debug, Clone, PartialEq, Eq)]
pub enum SignatureError {
    /// The signature does not verify.
    VerificationFailed(String),
    /// Bytes that are not a signature.
    InvalidFormat,
    /// A key of another type than Ed25519.
    UnsupportedKeyType,
    /// The key does not belong to the claimed peer.
    PeerIdMismatch,
}

/// Configuration of the libp2p transport.
#[derive(Debug, Clone)]
pub struct Libp2pConfig {
    pub listen_addresses: Vec<String>,
    pub bootstrap_nodes: Vec<String>,
    pub gossip_topic: String,
}

impl Default for Libp2pConfig {
    fn default() -> (r: Self)
        ensures
            r.listen_addresses@.len() == 1,
            r.listen_addresses@[0]@ == "/ip4/0.0.0.0/tcp/0"@,
            r.bootstrap_nodes@.len() == 0,
            r.gossip_topic@ == DEFAULT_TOPIC@,
    {
        Libp2pConfig {
            listen_addresses: vec!["/ip4/0.0.0.0/tcp/0".to_string()],
            bootstrap_nodes: Vec::new(),
            gossip_topic: DEFAULT_TOPIC.to_string(),
        }
    }
}

/// Failures of the libp2p transport.
#[derive(Debug)]
pub enum Libp2pNetworkError {
    ChannelClosed,
    Serialization(String),
    InvalidAddress(String),
    Transport(String),
    Io(String),
}

/// What the libp2p transport reports.
#[derive(Debug)]
pub enum Libp2pEvent {
    Message { source: String, message: P2PMessage },
    PeerConnected(String),
    PeerDisconnected(String),
}

/// Configuration of the TCP peer network.
#[derive(Debug, Clone)]
pub struct NetworkConfig {
    /// Our peer id.
    pub peer_id: PeerId,
    /// Our party id, if any.
    pub party_id: Option<usize>,
    /// Listen address.
    pub listen_addr: String,
    /// Bootstrap nodes.
    pub bootstrap_nodes: Vec<String>,
    /// Whether TLS is on.
    pub enable_tls: bool,
    /// Largest number of peers.
    pub max_peers: usize,
    /// Gossip fanout.
    pub gossip_fanout: usize,
    /// Hop limit of messages.
    pub message_ttl: u8,
}

impl NetworkConfig {
    /// The default configuration for the peer `peer_id`.
    pub fn with_peer_id(peer_id: PeerId) -> (r: Self)
        ensures
            r.peer_id@ == peer_id@,
            r.party_id is None,
            r.listen_addr@ == "0.0.0.0:0"@,
            r.bootstrap_nodes@.len() == 0,
            !r.enable_tls,
            r.max_peers == 50,
            r.gossip_fanout == 3,
            r.message_ttl == 5,
    {
        NetworkConfig {
            peer_id,
            party_id: None,
            listen_addr: "0.0.0.0:0".to_string(),
            bootstrap_nodes: Vec::new(),
            enable_tls: false,
            max_peers: 50,
            gossip_fanout: 3,
            message_ttl: 5,
        }
    }
}

impl Default for NetworkConfig {
    fn default() -> (r: Self)
        ensures
            r.peer_id@.len() == 32,
            r.max_peers == 50,
    {
        NetworkConfig::with_peer_id(generate_peer_id())
    }
}

/// The 64-byte BLAKE2b-512 digest of `data`.
pub uninterp spec fn blake2b512_of(data: Seq<u8>) -> Seq<u8>;

/// Relies on `Blake2b512`: the 64-byte digest of `data`.
#[verifier::external_body]
fn blake2b512_ark(data: &[u8]) -> (r: Vec<u8>)
    ensures
        r@ == blake2b512_of(data@),
        r@.len() == 64,
{
    Blake2b512::digest(data).to_vec()
}

/// The BLAKE2b-512 digest of `data`.
pub fn blake2b512(data: &[u8]) -> (r: Vec<u8>)
    ensures
        r@ == blake2b512_of(data@),
        r@.len() == 64,
{
    blake2b512_ark(data)
}

/// Relies on `SystemTime::now` and `UNIX_EPOCH`: nanoseconds since the epoch
/// as 16 little-endian bytes (zero before it). Nothing is known of the value.
#[verifier::external_body]
fn now_nanos_le() -> (r: [u8; 16]) {
    std::time::SystemTime::now()
        .duration_since(std::time::UNIX_EPOCH)
        .map(|d| d.as_nanos())
        .unwrap_or(0)
        .to_le_bytes()
}

/// The lowercase hexadecimal digit of `d < 16`.
pub open spec fn hex_digit(d: u8) -> char {
    if d < 10 {
        ((d + 48) as char)
    } else {
        ((d + 87) as char)
    }
}

/// Two lowercase hexadecimal digits per byte, most significant first.
pub open spec fn hex_of(b: Seq<u8>) -> Seq<char>
    decreases b.len(),
{
    if b.len() == 0 {
        seq![]
    } else {
        hex_of(b.drop_last()) + seq![hex_digit(b.last() / 16), hex_digit(b.last() % 16)]
    }
}

/// The lowercase hexadecimal digit of `d < 16`, as a string.
fn hex_str(d: u8) -> (r: &'static str)
    requires
        d < 16,
    ensures
        r@ == seq![hex_digit(d)],
{
    match d {
        0 => {
            proof {
                reveal_strlit("0");
            }
            "0"
        },
        1 => {
            proof {
                reveal_strlit("1");
            }
            "1"
        },
        2 => {
            proof {
                reveal_strlit("2");
            }
            "2"
        },
        3 => {
            proof {
                reveal_strlit("3");
            }
            "3"
        },
        4 => {
            proof {
                reveal_strlit("4");
            }
            "4"
        },
        5 => {
            proof {
                reveal_strlit("5");
            }
            "5"
        },
        6 => {
            proof {
                reveal_strlit("6");
            }
            "6"
        },
        7 => {
            proof {
                reveal_strlit("7");
            }
            "7"
        },
        8 => {
            proof {
                reveal_strlit("8");
            }
            "8"
        },
        9 => {
            proof {
                reveal_strlit("9");
            }
            "9"
        },
        10 => {
            proof {
                reveal_strlit("a");
            }
            "a"
        },
        11 => {
            proof {
                reveal_strlit("b");
            }
            "b"
        },
        12 => {
            proof {
                reveal_strlit("c");
            }
            "c"
        },
        13 => {
            proof {
                reveal_strlit("d");
            }
            "d"
        },
        14 => {
            proof {
                reveal_strlit("e");
            }
            "e"
        },
        _ => {
            proof {
                reveal_strlit("f");
            }
            "f"
        },
    }
}

/// The lowercase hexadecimal form of `b`.
pub fn to_hex(b: &[u8]) -> (r: String)
    ensures
        r@ == hex_of(b@),
{
    let mut out = String::new();
    let mut i: usize = 0;
    while i < b.len()
        invariant
            i <= b@.len(),
            out@ == hex_of(b@.subrange(0, i as int)),
        decreases b@.len() - i,
    {
        let x = b[i];
        out.append(hex_str(x / 16));
        out.append(hex_str(x % 16));
        assert(b@.subrange(0, i + 1).drop_last() =~= b@.subrange(0, i as int));
        i = i + 1;
    }
    assert(b@.subrange(0, b@.len() as int) =~= b@);
    out
}

/// A fresh peer id: the hexadecimal form of the first 16 bytes of the
/// BLAKE2b-512 digest of the current time in nanoseconds.
pub fn generate_peer_id() -> (r: PeerId)
    ensures
        exists|t: Seq<u8>| t.len() == 16 && r@ == hex_of(#[trigger] blake2b512_of(t).subrange(0, 16)),
        r@.len() == 32,
{
    let t = now_nanos_le();
    let d = blake2b512(&t);
    let mut head: Vec<u8> = Vec::new();
    let mut i: usize = 0;
    while i < 16
        invariant
            i <= 16,
            d@.len() == 64,
            head@ == d@.subrange(0, i as int),
        decreases 16 - i,
    {
        head.push(d[i]);
        i = i + 1;
    }
    let r = to_hex(head.as_slice());
    proof {
        lemma_hex_len(head@);
        assert(t@.len() == 16);
    }
    r
}

/// The hexadecimal form has two digits per byte.
pub proof fn lemma_hex_len(b: Seq<u8>)
    ensures
        hex_of(b).len() == 2 * b.len(),
    decreases b.len(),
{
    if b.len() > 0 {
        lemma_hex_len(b.drop_last());
    }
}

} // verus!
