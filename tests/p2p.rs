use silent_threshold_encryption::p2p::config::{
    blake2b512, generate_peer_id, to_hex, Libp2pConfig, NetworkConfig, DEFAULT_TOPIC,
};
use silent_threshold_encryption::der::{basic_constraints_ca_true, find_subsequence, read_der_length};
use silent_threshold_encryption::error::SteError;
use silent_threshold_encryption::p2p::discovery::{current_timestamp, DiscoveryMode, PeerDiscovery};
use silent_threshold_encryption::p2p::gossip::{
    GossipMessage, GossipProtocol, GossipResult, MessageHandler, DEFAULT_TTL,
};
use silent_threshold_encryption::p2p::messages::{MessageType, P2PMessage, PeerInfo};
use silent_threshold_encryption::p2p::protocol::{
    build_selector, dense_partials, has_minimum_quorum, order_public_keys, select_parties_for_decryption,
    validate_config, PeerConfig, PeerError, PeerNode, PeerRuntimeMode,
};
use silent_threshold_encryption::encryption::encrypt;
use silent_threshold_encryption::kzg::PowersOfTau;
use silent_threshold_encryption::p2p::session::ProtocolState;
use silent_threshold_encryption::setup::{LagrangePowers, PublicKey, SecretKey};
use silent_threshold_encryption::algebra::{Fr, G2};

struct TestHandler;

impl MessageHandler for TestHandler {
    fn handle(&self, _msg: &P2PMessage) -> Result<(), String> {
        Ok(())
    }
}

struct RefusingHandler;

impl MessageHandler for RefusingHandler {
    fn handle(&self, _msg: &P2PMessage) -> Result<(), String> {
        Err("refused".to_string())
    }
}

#[test]
fn test_peer_discovery() {
    let mut discovery = PeerDiscovery::new(
        "peer1".to_string(),
        vec!["127.0.0.1:8080".to_string()],
        DiscoveryMode::Bootstrap,
    );

    let peer = PeerInfo {
        peer_id: "peer2".to_string(),
        party_id: Some(0),
        address: "127.0.0.1:8081".to_string(),
        last_seen: current_timestamp(),
        capabilities: vec!["encrypt".to_string()],
    };

    discovery.add_peer(peer.clone());
    assert_eq!(discovery.peer_count(), 1);

    let retrieved = discovery.get_peer("peer2");
    assert!(retrieved.is_some());

    discovery.remove_peer("peer2");
    assert_eq!(discovery.peer_count(), 0);
}

#[test]
fn test_find_peer_by_party() {
    let mut discovery = PeerDiscovery::new("peer1".to_string(), vec![], DiscoveryMode::Local);

    let peer = PeerInfo {
        peer_id: "peer2".to_string(),
        party_id: Some(5),
        address: "127.0.0.1:8081".to_string(),
        last_seen: current_timestamp(),
        capabilities: vec![],
    };

    discovery.add_peer(peer);

    let found = discovery.find_peer_by_party(5);
    assert!(found.is_some());
    assert_eq!(found.unwrap().peer_id, "peer2");

    let not_found = discovery.find_peer_by_party(99);
    assert!(not_found.is_none());
}

fn peer(id: &str, party: Option<usize>, seen: u64) -> PeerInfo {
    PeerInfo {
        peer_id: id.to_string(),
        party_id: party,
        address: "127.0.0.1:9000".to_string(),
        last_seen: seen,
        capabilities: vec![],
    }
}

#[test]
fn discovery_replaces_record_with_same_id() {
    let mut d = PeerDiscovery::new("me".to_string(), vec![], DiscoveryMode::Hybrid);
    d.add_peer(peer("a", Some(1), 10));
    d.add_peer(peer("b", Some(2), 10));
    d.add_peer(peer("a", Some(3), 20));
    assert_eq!(d.peer_count(), 2);
    assert_eq!(d.get_peer("a").unwrap().party_id, Some(3));
    assert!(d.is_known("b"));
    assert!(!d.is_known("c"));
    assert!(d.has_sufficient_peers(2));
    assert!(!d.has_sufficient_peers(3));
    assert_eq!(d.local_peer_id(), "me");
}

#[test]
fn discovery_cleanup_and_seen() {
    let mut d = PeerDiscovery::new("me".to_string(), vec!["x".to_string()], DiscoveryMode::Bootstrap);
    d.add_peer(peer("old", None, 100));
    d.add_peer(peer("new", Some(4), 990));
    d.cleanup_stale_peers_at(1000, 60);
    assert_eq!(d.peer_count(), 1);
    assert!(d.is_known("new"));
    d.update_peer_seen_at("new", 2000);
    assert_eq!(d.get_peer("new").unwrap().last_seen, 2000);
    let by_party = d.get_peers_by_party();
    assert_eq!(by_party.len(), 1);
    assert_eq!(by_party.get(&4).unwrap().peer_id, "new");
    assert_eq!(d.get_peers().len(), 1);
    assert_eq!(d.bootstrap_nodes().len(), 1);
}

#[test]
fn test_gossip_broadcast() {
    let mut gossip = GossipProtocol::new("peer1".to_string());

    let msg = P2PMessage::Ping {
        from_peer: "peer1".to_string(),
        timestamp: current_timestamp(),
    };

    let gossip_msg = gossip.broadcast(msg);
    assert_eq!(gossip_msg.ttl, DEFAULT_TTL);
    assert!(gossip_msg.seen_by.contains(&"peer1".to_string()));
}

#[test]
fn test_has_seen() {
    let mut gossip = GossipProtocol::new("peer1".to_string());

    let msg = P2PMessage::Ping {
        from_peer: "peer1".to_string(),
        timestamp: current_timestamp(),
    };

    let gossip_msg = gossip.broadcast(msg);
    assert!(gossip.has_seen(&gossip_msg.message_id));
}

#[test]
fn test_ttl_decrement() {
    let mut gossip = GossipProtocol::with_handlers("peer1".to_string(), 3, DEFAULT_TTL);
    gossip.register_handler("Health".to_string(), TestHandler);

    let msg = P2PMessage::Ping {
        from_peer: "peer2".to_string(),
        timestamp: current_timestamp(),
    };

    let gossip_msg = GossipMessage {
        message_id: [1u8; 32],
        ttl: 3,
        seen_by: Vec::new(),
        payload: msg,
    };

    match gossip.handle_gossip(&gossip_msg) {
        GossipResult::ShouldForward(new_msg) => {
            assert_eq!(new_msg.ttl, 2);
        }
        _ => panic!("Expected ShouldForward"),
    }
}

#[test]
fn gossip_outcomes() {
    let mut gossip = GossipProtocol::with_handlers("me".to_string(), 3, 5);
    gossip.register_handler("Health".to_string(), RefusingHandler);
    let ping = P2PMessage::Ping { from_peer: "x".to_string(), timestamp: 1 };
    let expired = GossipMessage { message_id: [2u8; 32], ttl: 0, seen_by: vec![], payload: ping.clone() };
    assert!(matches!(gossip.handle_gossip_at(&expired, 5), GossipResult::Expired));
    let refused = GossipMessage { message_id: [3u8; 32], ttl: 4, seen_by: vec![], payload: ping.clone() };
    assert!(matches!(gossip.handle_gossip_at(&refused, 5), GossipResult::HandlerError(_)));
    assert!(matches!(gossip.handle_gossip_at(&refused, 6), GossipResult::AlreadySeen));
    let pong = P2PMessage::Pong { from_peer: "x".to_string(), timestamp: 1 };
    let last_hop = GossipMessage { message_id: [4u8; 32], ttl: 1, seen_by: vec![], payload: pong };
    assert!(matches!(gossip.handle_gossip_at(&last_hop, 5), GossipResult::HandlerError(_)));
    let text = P2PMessage::Error { from_peer: "x".to_string(), error_type: "e".to_string(), message: "m".to_string() };
    let seen_here = GossipMessage { message_id: [5u8; 32], ttl: 4, seen_by: vec!["me".to_string()], payload: text };
    assert!(matches!(gossip.handle_gossip_at(&seen_here, 5), GossipResult::Processed));
    assert_eq!(gossip.seen_count(), 3);
    gossip.cleanup_old_messages_at(5 + 300);
    assert_eq!(gossip.seen_count(), 0);
    assert_eq!(gossip.fanout(), 3);
}

#[test]
fn message_sender_and_type() {
    let inner = P2PMessage::CiphertextBroadcast {
        from_peer: "enc".to_string(),
        ct_bytes: vec![1, 2],
        threshold: 1,
        timestamp: 0,
    };
    let wrapped = P2PMessage::Gossip { message_id: [0u8; 32], ttl: 2, seen_by: vec![], payload: Box::new(inner) };
    assert_eq!(wrapped.sender().unwrap(), "enc");
    assert_eq!(wrapped.message_type(), MessageType::Encryption);
    let list = P2PMessage::PeerListResponse { peers: vec![] };
    assert!(list.sender().is_none());
    assert_eq!(list.message_type(), MessageType::Discovery);
    assert_eq!(MessageType::KeyGeneration.name(), "KeyGeneration");
}

fn config(party_id: usize, n: usize, threshold: usize, listen: Vec<String>) -> PeerConfig {
    PeerConfig {
        party_id,
        n,
        threshold,
        listen_addresses: listen,
        bootstrap_nodes: vec![],
        gossip_topic: "ste".to_string(),
        kzg_params_path: "kzg.bin".to_string(),
        lagrange_params_path: "lagrange.bin".to_string(),
        mode: PeerRuntimeMode::Passive,
        auto_decrypt: false,
        enable_mdns: false,
    }
}

#[test]
fn peer_config_rules() {
    let addr = vec!["/ip4/0.0.0.0/tcp/0".to_string()];
    assert!(validate_config(&config(0, 4, 1, addr.clone())).is_ok());
    assert!(matches!(validate_config(&config(0, 1, 1, addr.clone())), Err(PeerError::Config(_))));
    assert!(matches!(validate_config(&config(0, 4, 0, addr.clone())), Err(PeerError::Config(_))));
    assert!(matches!(validate_config(&config(0, 4, 4, addr.clone())), Err(PeerError::Config(_))));
    assert!(matches!(validate_config(&config(4, 4, 1, addr)), Err(PeerError::Config(_))));
    assert!(matches!(validate_config(&config(0, 4, 1, vec![])), Err(PeerError::Config(_))));
}

#[test]
fn selector_marks_parties_in_range() {
    assert_eq!(build_selector(4, &[0, 2, 9, 2]), vec![true, false, true, false]);
    assert_eq!(build_selector(0, &[0]), Vec::<bool>::new());
}

#[test]
fn der_lengths() {
    assert_eq!(read_der_length(&[0x05]).unwrap(), (5, 1));
    assert_eq!(read_der_length(&[0x82, 0x01, 0x00, 0xff]).unwrap(), (256, 3));
    assert_eq!(read_der_length(&[0x84, 0x01, 0x02, 0x03, 0x04]).unwrap(), (0x0102_0304, 5));
    assert!(matches!(read_der_length(&[]), Err(SteError::TlsError(_))));
    assert!(matches!(read_der_length(&[0x80]), Err(SteError::TlsError(_))));
    assert!(matches!(read_der_length(&[0x85, 1, 2, 3, 4, 5]), Err(SteError::TlsError(_))));
    assert!(matches!(read_der_length(&[0x82, 0x01]), Err(SteError::TlsError(_))));
}

#[test]
fn subsequence_search() {
    let oid = [0x06u8, 0x03, 0x55, 0x1d, 0x13];
    let der = [0x30u8, 0x06, 0x03, 0x55, 0x1d, 0x13, 0x01, 0x06, 0x03, 0x55, 0x1d, 0x13];
    assert_eq!(find_subsequence(&der, &oid), Some(1));
    assert_eq!(find_subsequence(&der[2..], &oid), Some(5));
    assert_eq!(find_subsequence(&der[..5], &oid), None);
}

#[test]
fn hex_and_digest() {
    assert_eq!(to_hex(&[0x0f, 0xa0, 0x00, 0xff]), "0fa000ff");
    assert_eq!(to_hex(&[]), "");
    assert_eq!(
        to_hex(&blake2b512(b"abc")),
        "ba80a53f981c4d0d6a2797b69f12f6e94c212f14685ac4b74b12bb6fdbffa2d17d87c5392aab792dc252d5de4533cc9518d38aa8dbf1925ab92386edd4009923"
    );
    let id = generate_peer_id();
    assert_eq!(id.len(), 32);
    assert!(id.chars().all(|c| c.is_ascii_hexdigit()));
}

#[test]
fn config_defaults() {
    let c = Libp2pConfig::default();
    assert_eq!(c.listen_addresses, vec!["/ip4/0.0.0.0/tcp/0".to_string()]);
    assert_eq!(c.gossip_topic, DEFAULT_TOPIC);
    let n = NetworkConfig::default();
    assert_eq!(n.max_peers, 50);
    assert_eq!(n.gossip_fanout, 3);
    assert_eq!(n.message_ttl, 5);
    assert_eq!(n.peer_id.len(), 32);
    assert_eq!(NetworkConfig::with_peer_id("p".to_string()).listen_addr, "0.0.0.0:0");
}

#[test]
fn basic_constraints() {
    let ca = [0x06u8, 0x03, 0x55, 0x1d, 0x13, 0x01, 0x01, 0xff, 0x04, 0x05, 0x30, 0x03, 0x01, 0x01, 0xff];
    assert_eq!(basic_constraints_ca_true(&ca).unwrap(), true);
    let not_ca = [0x06u8, 0x03, 0x55, 0x1d, 0x13, 0x04, 0x05, 0x30, 0x03, 0x01, 0x01, 0x00];
    assert_eq!(basic_constraints_ca_true(&not_ca).unwrap(), false);
    let empty = [0x06u8, 0x03, 0x55, 0x1d, 0x13, 0x04, 0x02, 0x30, 0x00];
    assert_eq!(basic_constraints_ca_true(&empty).unwrap(), false);
    assert_eq!(basic_constraints_ca_true(&[0x30, 0x00]).unwrap(), false);
    let skipped = [0x06u8, 0x03, 0x55, 0x1d, 0x13, 0x02, 0x06, 0x03, 0x55, 0x1d, 0x13, 0x04, 0x05, 0x30, 0x03, 0x01, 0x01, 0x01];
    assert_eq!(basic_constraints_ca_true(&skipped).unwrap(), true);
    let truncated = [0x06u8, 0x03, 0x55, 0x1d, 0x13, 0x04, 0x05, 0x30];
    assert!(matches!(basic_constraints_ca_true(&truncated), Err(SteError::TlsError(_))));
}

#[test]
fn quorum_selection() {
    assert_eq!(select_parties_for_decryption(&[5, 3, 0, 9, 3, 1], 8, 2), vec![0, 1, 3]);
    assert_eq!(select_parties_for_decryption(&[2, 6], 8, 3), vec![2, 6]);
    assert_eq!(select_parties_for_decryption(&[], 4, 1), Vec::<usize>::new());
    assert!(has_minimum_quorum(3, 2));
    assert!(!has_minimum_quorum(2, 2));
}

#[test]
fn public_keys_ordered_with_zero_slots() {
    let received = vec![(2, PublicKey::zero_for_domain(2, 4)), (0, PublicKey::zero_for_domain(0, 4))];
    let ordered = order_public_keys(4, &received);
    assert_eq!(ordered.len(), 4);
    for (i, k) in ordered.iter().enumerate() {
        assert_eq!(k.id, i);
        assert_eq!(k.sk_li_lj_z.len(), 4);
    }
}

#[test]
fn peer_node_keeps_config() {
    let addr = vec!["/ip4/0.0.0.0/tcp/0".to_string()];
    let node = PeerNode::new(config(1, 4, 1, addr));
    assert_eq!(node.config().party_id, 1);
    assert_eq!(node.config().mode, PeerRuntimeMode::Passive);
}

#[test]
fn partials_filled_densely() {
    let a = G2::gen_mul(&Fr::from_u64(3));
    let b = G2::gen_mul(&Fr::from_u64(5));
    let c = G2::gen_mul(&Fr::from_u64(7));
    let dense = dense_partials(4, &vec![(2, a.clone()), (9, b.clone()), (2, c.clone()), (0, b.clone())]);
    assert_eq!(dense.len(), 4);
    assert!(dense[0].equals(&b));
    assert!(dense[1].equals(&G2::zero()));
    assert!(dense[2].equals(&c));
    assert!(dense[3].equals(&G2::zero()));
}

#[test]
fn protocol_state_runs_a_decryption() {
    let n = 4;
    let t = 1;
    let tau = Fr::rand().unwrap();
    let params = PowersOfTau::setup(n, &tau).unwrap();
    let lagrange = LagrangePowers::new(&tau, n).unwrap();
    let addr = vec!["/ip4/0.0.0.0/tcp/0".to_string()];
    let mut peers = Vec::new();
    let mut pk_bytes = Vec::new();
    for i in 0..n {
        let mut sk = SecretKey::new().unwrap();
        if i == 0 {
            sk.nullify();
        }
        pk_bytes.push(sk.lagrange_get_pk(i, &lagrange, n).unwrap().to_bytes());
        peers.push(ProtocolState::new(config(i, n, t, addr.clone()), params.clone(), sk));
    }
    assert!(matches!(peers[0].register_public_key(1, &vec![1, 2, 3]), Err(PeerError::Serialization(_))));
    for peer in peers.iter_mut() {
        for (i, bytes) in pk_bytes.iter().enumerate() {
            peer.register_public_key(i, bytes).unwrap();
        }
        assert_eq!(peer.key_count(), n);
        assert!(peer.aggregate_key().is_some());
    }
    let ak = peers[0].aggregate_key().clone().unwrap();
    let ct = encrypt(&ak, t, &params).unwrap();
    let request_id = [7u8; 32];
    let asked = peers[0].start_decryption_session(ct.clone(), request_id).unwrap();
    assert_eq!(asked, vec![0, 1]);
    let ct_bytes = ct.to_bytes();
    assert!(peers[3].respond_to_request(&ct_bytes, &asked).unwrap().is_none());
    let pd = peers[1].respond_to_request(&ct_bytes, &asked).unwrap().unwrap();
    let key = peers[0].record_response(&request_id, 1, &pd.to_bytes()).unwrap().unwrap();
    assert!(key.equals(&ct.enc_key));
    assert!(peers[0].record_response(&request_id, 1, &pd.to_bytes()).unwrap().is_none());
}

#[test]
fn protocol_state_waits_for_quorum() {
    let n = 4;
    let tau = Fr::rand().unwrap();
    let params = PowersOfTau::setup(n, &tau).unwrap();
    let lagrange = LagrangePowers::new(&tau, n).unwrap();
    let addr = vec!["/ip4/0.0.0.0/tcp/0".to_string()];
    let mut peer = ProtocolState::new(config(0, n, 2, addr), params, SecretKey::new().unwrap());
    let key = SecretKey::new().unwrap().lagrange_get_pk(1, &lagrange, n).unwrap().to_bytes();
    peer.register_public_key(1, &key).unwrap();
    assert!(peer.aggregate_key().is_none());
    let ct = encrypt_dummy();
    assert!(matches!(peer.start_decryption_session(ct, [1u8; 32]), Err(PeerError::Config(_))));
}

fn encrypt_dummy() -> silent_threshold_encryption::encryption::Ciphertext {
    let n = 2;
    let tau = Fr::rand().unwrap();
    let params = PowersOfTau::setup(n, &tau).unwrap();
    let lagrange = LagrangePowers::new(&tau, n).unwrap();
    let pk = (0..n).map(|i| SecretKey::new().unwrap().lagrange_get_pk(i, &lagrange, n).unwrap()).collect();
    let ak = silent_threshold_encryption::setup::AggregateKey::new(pk, &params).unwrap();
    encrypt(&ak, 1, &params).unwrap()
}

#[test]
fn broadcast_keeps_payload_and_ids_depend_on_content() {
    let mut gossip = GossipProtocol::new("peer1".to_string());
    let a = gossip.broadcast(P2PMessage::Ping { from_peer: "peer1".to_string(), timestamp: 1 });
    let b = gossip.broadcast(P2PMessage::Ping { from_peer: "peer1".to_string(), timestamp: 2 });
    assert!(matches!(a.payload, P2PMessage::Ping { timestamp: 1, .. }));
    assert_ne!(a.message_id, b.message_id);
    assert!(gossip.has_seen(&a.message_id) && gossip.has_seen(&b.message_id));
}
