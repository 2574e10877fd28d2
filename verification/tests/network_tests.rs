use ghost_nas::crypto::{encrypt_message, rs_encode, shamir_split, PeerIdentity};
use ghost_nas::network::{
    best_interface, bind_address, data_packet, data_packets, discover_interfaces,
    dummy_packet, handshake_packets, keepalive_packet, keepalive_targets, parse_counter, shard_len_for,
    tcp_fetch_shards, FoundInterface, NatState, NetworkError, ParsedPacket, SphinxHop, BASE_SIZE,
    HANDSHAKE_ID, JITTER_MAX, KEEPALIVE_INTERVAL_SECS, MAX_PACKET_SIZE, OFFSET_COUNTER_END,
    OFFSET_COUNTER_START, OFFSET_MSG_ID, OFFSET_ORIG_LEN, OFFSET_SHARD_START, OFFSET_SHARE_END,
    OFFSET_SHARE_START, TCP_BULK_PORT,
};
use ghost_nas::receiver::{adopt_address, establish, Received, Receiver};
use ghost_nas::router::WanRouter;
use ghost_nas::session::SessionManager;

fn found(name: &str, v4: Option<[u8; 4]>, is_loopback: bool) -> FoundInterface {
    FoundInterface { name: name.to_string(), v4, is_loopback }
}

fn padded(p: &[u8]) -> Vec<u8> {
    let mut buf = p.to_vec();
    buf.resize(MAX_PACKET_SIZE, 0);
    buf
}

#[test]
fn network_constants() {
    assert_eq!((BASE_SIZE, JITTER_MAX, HANDSHAKE_ID, MAX_PACKET_SIZE), (512, 64, 255, 2048));
    assert_eq!((TCP_BULK_PORT, KEEPALIVE_INTERVAL_SECS), (9001, 30));
    assert_eq!((OFFSET_MSG_ID, OFFSET_ORIG_LEN), (0, 1));
    assert_eq!((OFFSET_SHARE_START, OFFSET_SHARE_END), (2, 35));
    assert_eq!((OFFSET_COUNTER_START, OFFSET_COUNTER_END, OFFSET_SHARD_START), (35, 43, 43));
}

#[test]
fn network_errors_have_texts() {
    assert_eq!(NetworkError::Io("x".to_string()).message(), "IO error: x");
    assert_eq!(
        NetworkError::BindFailed(80, "in use".to_string()).message(),
        "Bind failed on port 80: in use"
    );
    assert_eq!(NetworkError::SendFailed("x".to_string()).message(), "Send failed: x");
    assert_eq!(
        NetworkError::InterfaceNotFound("eth9".to_string()).message(),
        "Interface not found: eth9"
    );
}

#[test]
fn interfaces_are_reachable_v4_ones() {
    let all = vec![
        found("lo", Some([127, 0, 0, 1]), true),
        found("eth0", None, false),
        found("eth1", Some([10, 0, 0, 7]), false),
        found("eth2", Some([10, 0, 0, 8]), false),
    ];
    let got = discover_interfaces(&all);
    assert_eq!(got.len(), 2);
    assert_eq!((got[0].name.as_str(), got[0].ip, got[0].is_loopback), ("eth1", [10, 0, 0, 7], false));
    assert_eq!(got[1].name, "eth2");
    assert_eq!(best_interface(&all).unwrap().name, "eth1");
}

#[test]
fn loopback_is_the_fallback() {
    let all = vec![found("lo", Some([127, 0, 0, 1]), true), found("eth0", None, false)];
    let got = discover_interfaces(&all);
    assert_eq!(got.len(), 1);
    assert_eq!((got[0].name.as_str(), got[0].ip, got[0].is_loopback), ("lo", [127, 0, 0, 1], true));
    assert!(best_interface(&Vec::new()).unwrap().is_loopback);
}

#[test]
fn bind_address_is_everywhere() {
    assert_eq!(bind_address(9001), "0.0.0.0:9001");
    assert_eq!(bind_address(0), "0.0.0.0:0");
}

#[test]
fn handshake_packets_are_laid_out() {
    let shares: Vec<Vec<u8>> = (1..4).map(|i| vec![i as u8; 33]).collect();
    let shards: Vec<Vec<u8>> = (4..7).map(|i| vec![i as u8; 480]).collect();
    let ps = handshake_packets(&shares, &shards);
    assert_eq!(ps.len(), 3);
    for i in 0..3 {
        let p = &ps[i];
        assert_eq!(p.len(), 576);
        assert_eq!(p[..2], [255, 0]);
        assert_eq!(p[2..35], shares[i]);
        assert_eq!(p[35..43], [0u8; 8]);
        assert_eq!(p[43..523], shards[i]);
        assert_eq!(p[523..], [0u8; 53]);
        let parsed = ParsedPacket::parse(p, p.len()).unwrap();
        assert_eq!((parsed.msg_id, parsed.original_len, parsed.counter), (255, 0, 0));
        assert_eq!((parsed.share, parsed.shard), (shares[i].clone(), shards[i].clone()));
    }
}

#[test]
fn data_packet_parses_back() {
    let p = data_packet(7, 5, &[9u8; 33], &[8u8; 11], 0x0102_0304, 3);
    assert_eq!(p.len(), 515);
    assert_eq!(p[35..43], [0, 0, 0, 0, 1, 2, 3, 4]);
    let q = ParsedPacket::parse(&p, p.len()).unwrap();
    assert_eq!((q.msg_id, q.original_len, q.counter), (7, 5, 0x0102_0304));
    assert_eq!((q.share, q.shard), (vec![9u8; 33], vec![8u8; 11]));
}

#[test]
fn data_packet_length_byte_wraps() {
    let p = data_packet(7, 256 + 5, &[9u8; 33], &[8u8; 11], 1, 0);
    assert_eq!(p[1], 5);
}

#[test]
fn data_packets_are_padded_at_random() {
    let shares = vec![vec![1u8; 33]; 3];
    let shards = vec![vec![2u8; 12]; 3];
    for _ in 0..20 {
        let ps = data_packets(1, 8, &shares, &shards, 12, 99);
        assert_eq!(ps.len(), 3);
        for p in &ps {
            assert!(p.len() >= 512 && p.len() < 576);
            assert_eq!(p[..2], [1, 8]);
            assert_eq!(p[43..55], [2u8; 12]);
            assert!(p[55..].iter().all(|b| *b == 0));
        }
    }
}

#[test]
fn dummy_packet_carries_its_tail() {
    let tail: Vec<u8> = (0..469).map(|i| i as u8).collect();
    let p = dummy_packet(&tail);
    assert_eq!(p.len(), 512);
    assert!(p[..43].iter().all(|b| *b == 0));
    assert_eq!(p[43..], tail);
}

#[test]
fn keepalive_packet_is_a_dummy() {
    let p = keepalive_packet();
    assert_eq!(p.len(), 512);
    assert_eq!(p[..43], [0u8; 43]);
    assert!(p[43..].iter().any(|b| *b != 0));
    assert_ne!(p, keepalive_packet());
}

#[test]
fn keepalives_go_to_the_external_address_too() {
    let targets = vec!["a:1".to_string(), "b:2".to_string()];
    assert_eq!(keepalive_targets(&targets, &None), targets);
    assert_eq!(keepalive_targets(&targets, &Some("b:2".to_string())), targets);
    assert_eq!(keepalive_targets(&targets, &Some("c:3".to_string())), ["a:1", "b:2", "c:3"]);
}

#[test]
fn counters_and_shard_lengths() {
    let mut buf = vec![0u8; 43];
    buf[35..43].copy_from_slice(&77u64.to_be_bytes());
    assert_eq!(parse_counter(&buf), 77);
    assert_eq!(shard_len_for(255, 0), 480);
    assert_eq!(shard_len_for(1, 0), 8);
    assert_eq!(shard_len_for(1, 1), 9);
    assert_eq!(shard_len_for(1, 2), 9);
    assert_eq!(shard_len_for(1, 255), 136);
}

#[test]
fn short_packets_do_not_parse() {
    let p = data_packet(7, 4, &[9u8; 33], &[8u8; 10], 1, 0);
    assert!(ParsedPacket::parse(&p, 42).is_none());
    assert!(ParsedPacket::parse(&p, 52).is_none());
    assert!(ParsedPacket::parse(&p, 53).is_some());
    assert!(ParsedPacket::parse(&[], 0).is_none());
}

#[test]
fn nat_state_and_bulk_fetch_start_empty() {
    let n = NatState::new(5);
    assert!(n.external_addr.is_none());
    assert_eq!(n.last_punch, 5);
    assert!(matches!(tcp_fetch_shards("a:1", "g"), Ok(v) if v.is_empty()));
    let hop = SphinxHop { node_id: [1; 32], addr: "a:1".to_string(), delay_ms: 3 };
    assert_eq!(hop.delay_ms, 3);
}

#[test]
fn handshake_makes_a_peer_trusted() {
    let id = PeerIdentity::generate(&[21u8; 32], &[22u8; 32]);
    let mut blob = id.build_handshake_blob();
    let shards = rs_encode(&mut blob);
    let mut secret = [23u8; 32];
    let shares = shamir_split(&mut secret).unwrap();
    let ps = handshake_packets(&shares, &shards);
    let mut r = Receiver::new();
    assert!(matches!(r.receive(&padded(&ps[0]), 576, false), Received::Waiting));
    match r.receive(&padded(&ps[1]), 576, false) {
        Received::Trusted { peer, key } => {
            assert_eq!(peer, id.fingerprint());
            assert_eq!(key, secret);
        }
        _ => panic!("not trusted"),
    }
    assert!(r.pool.is_empty());
    assert!(matches!(r.receive(&padded(&ps[0]), 576, true), Received::Waiting));
    assert!(matches!(r.receive(&padded(&ps[1]), 576, true), Received::AlreadyTrusted));
}

#[test]
fn any_two_handshake_packets_make_a_peer_trusted() {
    let id = PeerIdentity::generate(&[21u8; 32], &[22u8; 32]);
    let mut blob = id.build_handshake_blob();
    let shards = rs_encode(&mut blob);
    let mut secret = [23u8; 32];
    let shares = shamir_split(&mut secret).unwrap();
    let ps = handshake_packets(&shares, &shards);
    for (i, j) in [(0, 1), (1, 0), (0, 2), (2, 0), (1, 2), (2, 1)] {
        let mut r = Receiver::new();
        assert!(matches!(r.receive(&padded(&ps[i]), 576, false), Received::Waiting));
        match r.receive(&padded(&ps[j]), 576, false) {
            Received::Trusted { peer, key } => {
                assert_eq!(peer, id.fingerprint());
                assert_eq!(key, secret);
            }
            _ => panic!("{i} {j}"),
        }
    }
}

#[test]
fn any_two_packets_of_a_message_decode() {
    for len in [0usize, 1, 6, 7, 255] {
        let ps = message_packets(len, 9);
        for (i, j) in [(0, 1), (1, 0), (0, 2), (2, 0), (1, 2), (2, 1)] {
            let mut r = Receiver::new();
            r.receive(&padded(&ps[i]), ps[i].len(), false);
            match r.receive(&padded(&ps[j]), ps[j].len(), false) {
                Received::Decoded(d) => assert_eq!(d, vec![b'x'; len]),
                _ => panic!("{len} {i} {j}"),
            }
        }
        for i in 0..3 {
            let mut r = Receiver::new();
            r.receive(&padded(&ps[i]), ps[i].len(), false);
            let again = r.receive(&padded(&ps[i]), ps[i].len(), false);
            assert!(matches!(again, Received::Undecodable));
        }
    }
}

#[test]
fn wrong_handshakes_are_rejected() {
    let shares = vec![vec![1u8; 33], vec![2u8; 33], vec![3u8; 33]];
    let ps = handshake_packets(&shares, &vec![vec![0u8; 480]; 3]);
    let mut r = Receiver::new();
    assert!(matches!(r.receive(&padded(&ps[0]), 576, false), Received::Waiting));
    assert!(matches!(
        r.receive(&padded(&ps[1]), 576, false),
        Received::Rejected("Invalid magic header")
    ));
}

fn message_packets(len: usize, id: u8) -> Vec<Vec<u8>> {
    let mut key = [31u8; 32];
    let mut data = vec![b'x'; len];
    encrypt_message(&key, 40, &mut data);
    let shards = rs_encode(&mut data);
    let shares = shamir_split(&mut key).unwrap();
    data_packets(id, len, &shares, &shards, shards[0].len(), 40)
}

#[test]
fn messages_decode() {
    let ps = message_packets(6, 9);
    let other = message_packets(8, 10);
    let mut r = Receiver::new();
    assert!(matches!(r.receive(&padded(&ps[0]), ps[0].len(), false), Received::Waiting));
    assert!(matches!(r.receive(&padded(&other[0]), other[0].len(), true), Received::Waiting));
    match r.receive(&padded(&ps[1]), ps[1].len(), true) {
        Received::Decoded(d) => assert_eq!(d, b"xxxxxx"),
        _ => panic!("not decoded"),
    }
    match r.receive(&padded(&other[1]), other[1].len(), false) {
        Received::Decoded(d) => assert_eq!(d, b"xxxxxxxx"),
        _ => panic!("not decoded"),
    }
}

#[test]
fn messages_of_every_length_decode() {
    for len in 0..256 {
        let ps = message_packets(len, 9);
        let mut r = Receiver::new();
        r.receive(&padded(&ps[0]), ps[0].len(), false);
        match r.receive(&padded(&ps[1]), ps[1].len(), false) {
            Received::Decoded(d) => assert_eq!(d, vec![b'x'; len]),
            _ => panic!("{len}"),
        }
    }
}

#[test]
fn mixed_messages_do_not_decode() {
    let ps = message_packets(5, 9);
    let mut r = Receiver::new();
    let other = message_packets(5, 9);
    r.receive(&padded(&ps[0]), ps[0].len(), false);
    assert!(matches!(r.receive(&padded(&other[1]), other[1].len(), false), Received::Undecodable));
    let longer = message_packets(12, 9);
    r.receive(&padded(&ps[0]), ps[0].len(), false);
    assert!(matches!(
        r.receive(&padded(&longer[1]), longer[1].len(), false),
        Received::Unrestorable(_)
    ));
}

#[test]
fn dummies_and_torsos_are_ignored() {
    let mut r = Receiver::new();
    let p = keepalive_packet();
    assert!(matches!(r.receive(&padded(&p), p.len(), false), Received::Dummy));
    let mut torso = vec![0u8; MAX_PACKET_SIZE];
    torso[0] = 3;
    assert!(matches!(r.receive(&torso, 20, false), Received::Malformed));
    assert!(r.pool.is_empty());
}

#[test]
fn handshakes_move_the_target() {
    assert_eq!(adopt_address(255, "a:1", "b:2"), Some("b:2".to_string()));
    assert_eq!(adopt_address(255, "a:1", "a:1"), None);
    assert_eq!(adopt_address(4, "a:1", "b:2"), None);
}

#[test]
fn trusted_peers_get_a_session() {
    let mut sessions = SessionManager::new();
    let mut router =
        WanRouter::new("me".to_string(), "m:1".to_string(), "k".to_string(), Vec::new());
    let peer = "fp".to_string();
    establish(&mut sessions, &mut router, &peer, [7u8; 32], 50);
    assert!(router.is_online("fp"));
    let s = sessions.find("fp").unwrap();
    assert_eq!((s.start_time, s.master_key.unwrap().0), (50, [7u8; 32]));
    establish(&mut sessions, &mut router, &peer, [8u8; 32], 60);
    assert_eq!(sessions.count(), 1);
    let s = sessions.find("fp").unwrap();
    assert_eq!((s.start_time, s.last_activity), (50, 60));
    assert_eq!(s.master_key.unwrap().0, [8u8; 32]);
}
