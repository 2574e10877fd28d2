use ghost_nas::session::window::{advance, Window};
use ghost_nas::session::{
    format_session_time, seconds, LegacySessionGuard, MasterKey, SessionGuard, SessionManager,
    DEFAULT_HARD_TIMEOUT, DEFAULT_IDLE_TIMEOUT, DEFAULT_WINDOW_SIZE, HEARTBEAT_INTERVAL,
    HEARTBEAT_MISSED_THRESHOLD,
};

const S: u64 = 1_000_000_000;

#[test]
fn session_constants() {
    assert_eq!(DEFAULT_WINDOW_SIZE, 128);
    assert_eq!(DEFAULT_HARD_TIMEOUT, 86400 * S as u128);
    assert_eq!(DEFAULT_IDLE_TIMEOUT, 1800 * S as u128);
    assert_eq!(HEARTBEAT_INTERVAL, 30 * S as u128);
    assert_eq!(HEARTBEAT_MISSED_THRESHOLD, 3);
    assert_eq!(seconds(2), 2 * S as u128);
}

#[test]
fn master_key_wipes() {
    let mut k = MasterKey::new([3u8; 32]);
    assert_eq!(k.as_bytes(), &[3u8; 32]);
    k.wipe();
    assert_eq!(k.as_bytes(), &[0u8; 32]);
}

#[test]
fn window_accepts_each_counter_once() {
    let mut g = SessionGuard::new("p".to_string(), 0);
    for c in [1u64, 5, 3, 2, 4, 200, 100, 73] {
        assert!(g.check_and_update(c, 1), "{c}");
    }
    for c in [1u64, 5, 3, 2, 4, 200, 100, 73, 72, 0] {
        assert!(!g.check_and_update(c, 1), "{c}");
    }
    assert_eq!(g.v_max, 200);
    assert_eq!(g.packets_received, 18);
    assert_eq!(g.packets_replayed, 10);
}

#[test]
fn window_edge_is_at_its_size() {
    let mut g = SessionGuard::new("p".to_string(), 0);
    assert!(g.check_and_update(128, 0));
    assert!(g.check_and_update(1, 0));
    assert!(!g.check_and_update(0, 0));
    assert!(g.check_and_update(129, 0));
    assert!(!g.check_and_update(1, 0));
    assert!(g.check_and_update(2, 0));
}

#[test]
fn counter_zero_is_refused_at_first() {
    let mut g = SessionGuard::new("p".to_string(), 0);
    assert!(!g.check_and_update(0, 0));
    assert_eq!((g.packets_received, g.packets_replayed), (1, 1));
}

#[test]
fn advance_shifts_the_mask() {
    let w = Window { v_max: 10, bitmask: 0b101, size: 128 };
    let up = advance(&w, 12).unwrap();
    assert_eq!((up.v_max, up.bitmask, up.size), (12, 0b10101, 128));
    let down = advance(&w, 9).unwrap();
    assert_eq!((down.v_max, down.bitmask), (10, 0b111));
    assert!(advance(&w, 8).is_none());
    let far = advance(&w, 10 + 128).unwrap();
    assert_eq!((far.v_max, far.bitmask), (138, 1));
}

#[test]
fn unseen_counter_stays_acceptable() {
    let w = Window { v_max: 10, bitmask: 1, size: 128 };
    let w = advance(&w, 12).unwrap();
    let w = advance(&w, 11).unwrap();
    assert!(advance(&w, 9).is_some());
}

#[test]
fn narrow_window_forgets_early() {
    let mut g = SessionGuard::with_timeouts("p".to_string(), 10, 5, 4, 0);
    assert_eq!(g.hard_timeout, 10 * S as u128);
    assert_eq!(g.idle_timeout, 5 * S as u128);
    assert!(g.check_and_update(10, 0));
    assert!(!g.check_and_update(6, 0));
    assert!(g.check_and_update(7, 0));
    assert!(g.check_and_update(14, 0));
    assert_eq!(g.bitmask, 1);
}

#[test]
fn sessions_time_out() {
    let mut g = SessionGuard::with_timeouts("p".to_string(), 10, 5, 128, 100 * S);
    assert!(g.is_valid(100 * S));
    assert!(g.is_valid(0));
    assert!(g.is_valid(105 * S - 1));
    assert!(g.is_expired(105 * S));
    assert!(!g.check_and_update(1, 105 * S));
    assert_eq!(g.packets_received, 0);
    g.heartbeat(104 * S);
    assert!(g.is_valid(108 * S));
    g.heartbeat(109 * S);
    assert!(g.is_valid(110 * S - 1));
    assert!(!g.is_valid(110 * S));
}

#[test]
fn third_missed_heartbeat_wipes() {
    let mut g = SessionGuard::new("p".to_string(), 0);
    g.set_master_key([1u8; 32]);
    assert!(!g.miss_heartbeat());
    assert!(!g.miss_heartbeat());
    assert!(g.master_key.is_some());
    assert!(g.miss_heartbeat());
    assert!(g.master_key.is_none());
    g.heartbeat(1);
    assert_eq!(g.missed_heartbeats, 0);
}

#[test]
fn set_and_wipe_master_key() {
    let mut g = SessionGuard::new("p".to_string(), 0);
    g.set_master_key([1u8; 32]);
    g.set_master_key([2u8; 32]);
    assert_eq!(g.master_key.as_ref().unwrap().as_bytes(), &[2u8; 32]);
    let copy = g.clone();
    g.trigger_wipe();
    assert!(g.master_key.is_none());
    assert_eq!(copy.master_key.unwrap().0, [2u8; 32]);
}

#[test]
fn session_times_are_formatted() {
    assert_eq!(format_session_time(0), "00:00:00 ago");
    assert_eq!(format_session_time(3661 * S + 5), "01:01:01 ago");
    assert_eq!(format_session_time(360_000 * S), "100:00:00 ago");
}

#[test]
fn meta_needs_a_key_after_ten_seconds() {
    let mut g = SessionGuard::new("p".to_string(), 0);
    assert!(g.to_meta(11 * S - 1).is_some());
    assert!(g.to_meta(11 * S).is_none());
    g.set_master_key([1u8; 32]);
    let m = g.to_meta(75 * S).unwrap();
    assert_eq!(m.peer_fingerprint, "p");
    assert_eq!(m.established_at, "00:01:15 ago");
    assert_eq!(m.last_activity, "00:01:15 ago");
    assert_eq!(m.expires_at, "00:00:00 ago");
    assert!(m.is_alive && m.is_encrypted);
    let late = g.to_meta(86_460 * S).unwrap();
    assert_eq!(late.expires_at, "00:01:00 ago");
    assert!(!late.is_alive && late.is_encrypted);
}

#[test]
fn manager_keeps_one_session_per_peer() {
    let mut m = SessionManager::new();
    let mut a = SessionGuard::new("a".to_string(), 0);
    a.set_master_key([1u8; 32]);
    m.upsert("a".to_string(), a);
    m.upsert("b".to_string(), SessionGuard::new("b".to_string(), 0));
    assert_eq!(m.count(), 2);
    let mut again = SessionGuard::new("a".to_string(), 7);
    again.v_max = 9;
    again.bitmask = 5;
    m.upsert("a".to_string(), again);
    assert_eq!(m.count(), 2);
    let a = m.find("a").unwrap();
    assert_eq!((a.start_time, a.last_activity, a.v_max, a.bitmask), (0, 7, 9, 5));
    assert_eq!(a.master_key.unwrap().0, [1u8; 32]);
    assert!(m.find("c").is_none());
    m.remove("a");
    assert!(m.find("a").is_none());
    assert_eq!(m.count(), 1);
}

#[test]
fn manager_expires_and_describes() {
    let mut m = SessionManager::new();
    m.upsert("a".to_string(), SessionGuard::with_timeouts("a".to_string(), 100, 100, 128, 0));
    let mut b = SessionGuard::new("b".to_string(), 0);
    b.set_master_key([1u8; 32]);
    m.upsert("b".to_string(), b);
    assert_eq!(m.all_meta(5 * S).len(), 2);
    let kept = m.all_meta(50 * S);
    assert_eq!(kept.len(), 1);
    assert_eq!(kept[0].peer_fingerprint, "b");
    assert_eq!(m.describe("a", 50 * S).unwrap_err(), "Session has no active key");
    assert_eq!(m.describe("x", 50 * S).unwrap_err(), "Session x not found");
    assert!(m.describe("b", 50 * S).is_ok());
    assert_eq!(m.expire_stale(99 * S), 0);
    assert_eq!(m.expire_stale(100 * S), 1);
    assert_eq!(m.count(), 1);
}

#[test]
fn legacy_guard_has_the_same_window() {
    let mut g = LegacySessionGuard::new(0);
    assert!(g.is_valid(0));
    assert!(g.check_and_update(5, 1));
    assert_eq!(g.last_activity, 1);
    assert!(!g.check_and_update(5, 2));
    assert!(g.check_and_update(4, 2));
    assert!(!g.check_and_update(0, 2));
    assert!(!g.check_and_update(6, 2 + 1800 * S));
    assert_eq!((g.v_max, g.bitmask), (5, 3));
}
