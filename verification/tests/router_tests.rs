use ghost_nas::config::WanPeer;
use ghost_nas::router::{RouteEntry, RouterError, ShardLocation, ShardType, WanRouter};

fn peer(n: &str) -> WanPeer {
    WanPeer {
        nickname: n.to_string(),
        address: format!("{n}:9001"),
        public_key_hex: "00".to_string(),
        geo_tag: format!("geo-{n}"),
    }
}

fn router(peers: &[&str]) -> WanRouter {
    WanRouter::new(
        "me".to_string(),
        "127.0.0.1:9001".to_string(),
        "key".to_string(),
        peers.iter().map(|p| peer(p)).collect(),
    )
}

fn nicknames(r: &RouteEntry) -> Vec<&str> {
    r.locations.iter().map(|l| l.peer_nickname.as_str()).collect()
}

#[test]
fn router_errors_have_texts() {
    let e = |s: &str| s.to_string();
    assert_eq!(RouterError::NoRoute(e("g")).message(), "No routing info for group g");
    assert_eq!(RouterError::PeerNotFound(e("p")).message(), "Peer not found: p");
    assert_eq!(RouterError::NetworkError(e("x")).message(), "Network error fetching shard: x");
    assert_eq!(RouterError::Timeout(e("p")).message(), "Timeout fetching shard from p");
}

#[test]
fn peers_start_offline() {
    let mut r = router(&["a", "b"]);
    assert!(r.is_online("me"));
    assert!(!r.is_online("a"));
    assert!(!r.is_online("unknown"));
    r.mark_online("a");
    r.mark_online("stranger");
    assert!(r.is_online("a") && r.is_online("stranger"));
    r.mark_offline("a");
    assert!(!r.is_online("a"));
    assert_eq!(r.get_wan_peers().len(), 2);
    r.update_wan_peers(vec![peer("c")]);
    assert_eq!(r.get_wan_peers()[0].nickname, "c");
}

#[test]
fn a_peer_with_our_name_takes_us_offline() {
    assert!(!router(&["me"]).is_online("me"));
}

#[test]
fn without_peers_everything_stays_here() {
    let mut r = router(&["a"]);
    let e = r.compute_route("g", 3, 2, 1, 5);
    assert_eq!(nicknames(&e), ["me", "me", "me"]);
    assert!(e.locations.iter().all(|l| l.geo_tag == "local" && l.peer_addr == "127.0.0.1:9001"));
    assert_eq!((e.total_shards, e.data_shards, e.parity_shards, e.created_at_ns), (3, 2, 1, 5));
}

#[test]
fn peers_online_take_turns() {
    let mut r = router(&["a", "b", "c"]);
    r.mark_online("a");
    r.mark_online("c");
    let e = r.compute_route("g", 7, 4, 3, 0);
    assert_eq!(nicknames(&e), ["me", "a", "c", "a", "c", "a", "c"]);
    let idx: Vec<usize> = e.locations.iter().map(|l| l.shard_index).collect();
    assert_eq!(idx, [0, 1, 2, 3, 4, 5, 6]);
    assert_eq!(e.locations[3].shard_type, ShardType::Data);
    assert_eq!(e.locations[4].shard_type, ShardType::Parity);
    assert_eq!(e.locations[2].geo_tag, "geo-c");
    assert_eq!(e.locations[2].peer_addr, "c:9001");
}

#[test]
fn shards_go_to_distinct_peers() {
    let mut r = router(&["a", "b", "c", "d"]);
    r.mark_online("a");
    r.mark_online("b");
    let e = r.compute_route("g", 3, 2, 1, 0);
    assert_eq!(nicknames(&e), ["me", "a", "b"]);
    let two = r.compute_route("h", 4, 2, 2, 0);
    assert_ne!(two.locations[2].peer_nickname, two.locations[3].peer_nickname);
    r.mark_online("c");
    r.mark_online("d");
    assert_eq!(nicknames(&r.compute_route("i", 5, 3, 2, 0)), ["me", "a", "b", "c", "d"]);
}

#[test]
fn shard_zero_is_placed_even_without_data_shards() {
    let mut r = router(&[]);
    let e = r.compute_route("g", 1, 0, 3, 0);
    let idx: Vec<usize> = e.locations.iter().map(|l| l.shard_index).collect();
    assert_eq!(idx, [0, 0]);
    assert_eq!(r.compute_route("h", 0, 2, 1, 0).locations.len(), 2);
}

#[test]
fn routes_are_kept_and_removed() {
    let mut r = router(&["a"]);
    assert!(r.get_route("g").is_none());
    r.compute_route("g", 3, 2, 1, 1);
    r.compute_route("h", 3, 2, 1, 2);
    r.compute_route("g", 3, 2, 1, 3);
    assert_eq!(r.route_count(), 2);
    assert_eq!(r.get_route("g").unwrap().created_at_ns, 3);
    let mut ids = r.all_group_ids();
    ids.sort();
    assert_eq!(ids, ["g", "h"]);
    r.remove_route("g");
    r.remove_route("nothing");
    assert!(r.get_route("g").is_none());
    assert_eq!(r.route_count(), 1);
    let mut e = r.get_route("h").unwrap();
    e.group_id = "i".to_string();
    r.import_route(e);
    assert_eq!(r.get_route("i").unwrap().created_at_ns, 2);
}

#[test]
fn fresh_routes_can_be_reconstructed() {
    let mut r = router(&["a", "b"]);
    r.mark_online("a");
    r.mark_online("b");
    r.compute_route("g", 6, 4, 2, 0);
    assert!(r.can_reconstruct("g"));
    r.mark_offline("b");
    assert!(r.can_reconstruct("g"));
    r.mark_offline("a");
    assert!(!r.can_reconstruct("g"));
    assert!(!r.can_reconstruct("unknown"));
}

fn location(n: &str, index: usize) -> ShardLocation {
    ShardLocation {
        peer_addr: format!("{n}:1"),
        peer_nickname: n.to_string(),
        shard_index: index,
        shard_type: ShardType::Data,
        geo_tag: String::new(),
    }
}

#[test]
fn plan_lists_missing_shards_by_rank() {
    let mut r = router(&["up", "down"]);
    r.mark_online("up");
    r.import_route(RouteEntry {
        group_id: "g".to_string(),
        total_shards: 6,
        data_shards: 4,
        parity_shards: 2,
        locations: vec![
            location("down", 0),
            location("up", 1),
            location("me", 2),
            location("down", 3),
            location("me", 4),
            location("up", 5),
        ],
        created_at_ns: 0,
    });
    let order = |have: &[usize]| -> Vec<usize> {
        r.get_reconstruction_plan("g", have).unwrap().iter().map(|l| l.shard_index).collect()
    };
    assert_eq!(order(&[]), [2, 4, 1, 5, 0, 3]);
    assert_eq!(order(&[4, 1, 99]), [2, 5, 0, 3]);
    assert_eq!(order(&[0, 1, 2, 3, 4, 5]), Vec::<usize>::new());
    match r.get_reconstruction_plan("x", &[]) {
        Err(RouterError::NoRoute(g)) => assert_eq!(g, "x"),
        _ => panic!("route"),
    }
}

#[test]
fn there_is_no_transport_to_peers() {
    let r = router(&[]);
    assert!(r.push_shard_to_peer("g", 0, b"x", "a:1").is_ok());
    match r.fetch_shard_from_peer("g", 0, "a:1") {
        Err(RouterError::NetworkError(e)) => {
            assert_eq!(e, "Not yet implemented — connect to WAN peer first")
        }
        _ => panic!("fetched"),
    }
}
