//! Session guards: replay protection, timeouts and key erasure per peer.
//!
//! Points of time are nanoseconds on a monotonic clock; durations are
//! nanoseconds too. A session lives only in memory.

pub mod window;

pub mod laws;
use crate::bytes;
use crate::crypto::keys::zeroize_key;
use crate::lists;
use crate::text;
use vstd::prelude::*;
use window::{advance, Window};

verus! {

// ---------- Constants ----------

pub const NANOS_PER_SEC: u64 = 1_000_000_000;

pub const DEFAULT_WINDOW_SIZE: u64 = 128;

pub const DEFAULT_HARD_TIMEOUT: u128 = 86_400_000_000_000;

pub const DEFAULT_IDLE_TIMEOUT: u128 = 1_800_000_000_000;

pub const HEARTBEAT_INTERVAL: u128 = 30_000_000_000;

pub const HEARTBEAT_MISSED_THRESHOLD: u32 = 3;

// ---------- Time ----------

/// The time from `earlier` to `now`; none where `earlier` lies ahead.
pub open spec fn since(now: u64, earlier: int) -> int {
    if now >= earlier {
        now - earlier
    } else {
        0
    }
}

/// The duration of `secs` seconds.
pub fn seconds(secs: u64) -> (r: u128)
    ensures
        r == secs * NANOS_PER_SEC,
{
    assert(secs * 1_000_000_000 <= u64::MAX * 1_000_000_000);
    secs as u128 * 1_000_000_000
}

/// How long ago something was, as `HH:MM:SS ago`.
pub open spec fn ago_text(nanos: nat) -> Seq<char> {
    let total = nanos / NANOS_PER_SEC as nat;
    text::padded_numeral(total / 3600, 2) + ":"@ + text::padded_numeral(total % 3600 / 60, 2) + ":"@
        + text::padded_numeral(total % 60, 2) + " ago"@
}

/// Writes how long ago something was.
pub fn format_session_time(nanos: u64) -> (r: String)
    ensures
        r@ == ago_text(nanos as nat),
{
    let total = nanos / NANOS_PER_SEC;
    let mut out = text::padded_decimal(total / 3600, 2);
    out.append(":");
    out.append(text::padded_decimal(total % 3600 / 60, 2).as_str());
    out.append(":");
    out.append(text::padded_decimal(total % 60, 2).as_str());
    out.append(" ago");
    out
}

// ---------- Session State ----------

/// Session metadata for display.
#[derive(Debug, Clone)]
pub struct SessionMeta {
    pub peer_fingerprint: String,
    pub established_at: String,
    pub last_activity: String,
    pub expires_at: String,
    pub v_max: u64,
    pub packets_received: u64,
    pub packets_replayed: u64,
    pub is_alive: bool,
    pub is_encrypted: bool,
}

/// The master key of a session.
pub struct MasterKey(pub [u8; 32]);

impl MasterKey {
    pub fn new(key: [u8; 32]) -> (r: Self)
        ensures
            r.0@ == key@,
    {
        MasterKey(key)
    }

    pub fn as_bytes(&self) -> (r: &[u8; 32])
        ensures
            r@ == self.0@,
    {
        &self.0
    }

    pub fn wipe(&mut self)
        ensures
            final(self).0@ == bytes::zero_bytes(32),
    {
        zeroize_key(&mut self.0);
    }
}

impl Drop for MasterKey {
    /// The key is wiped when it goes out of scope.
    fn drop(&mut self)
        ensures
            final(self).0@ == bytes::zero_bytes(32),
        opens_invariants none
        no_unwind
    {
        zeroize_key(&mut self.0);
    }
}

/// Per-peer session state.
pub struct SessionGuard {
    pub peer_fingerprint: String,
    pub start_time: u64,
    pub last_activity: u64,
    pub v_max: u64,
    pub bitmask: u128,
    pub window_size: u64,
    pub hard_timeout: u128,
    pub idle_timeout: u128,
    pub packets_received: u64,
    pub packets_replayed: u64,
    pub master_key: Option<MasterKey>,
    pub missed_heartbeats: u32,
}

impl Clone for SessionGuard {
    fn clone(&self) -> (r: Self)
        ensures
            r == *self,
    {
        let master_key = match &self.master_key {
            Some(key) => Some(MasterKey(key.0)),
            None => None,
        };
        SessionGuard {
            peer_fingerprint: self.peer_fingerprint.clone(),
            start_time: self.start_time,
            last_activity: self.last_activity,
            v_max: self.v_max,
            bitmask: self.bitmask,
            window_size: self.window_size,
            hard_timeout: self.hard_timeout,
            idle_timeout: self.idle_timeout,
            packets_received: self.packets_received,
            packets_replayed: self.packets_replayed,
            master_key,
            missed_heartbeats: self.missed_heartbeats,
        }
    }
}

impl SessionGuard {
    /// The replay window of the session.
    pub open spec fn window(&self) -> Window {
        Window { v_max: self.v_max, bitmask: self.bitmask, size: self.window_size }
    }

    /// Whether the session is within both timeouts at `now`.
    pub open spec fn live(&self, now: u64) -> bool {
        since(now, self.start_time as int) < self.hard_timeout && since(
            now,
            self.last_activity as int,
        ) < self.idle_timeout
    }

    /// Whether the session is displayed at `now`: it has a key, or is at most
    /// ten full seconds old.
    pub open spec fn displayed(&self, now: u64) -> bool {
        self.master_key is Some || since(now, self.start_time as int) / NANOS_PER_SEC as int <= 10
    }

    /// Whether `meta` is what the session displays at `now`.
    pub open spec fn shows(&self, now: u64, meta: SessionMeta) -> bool {
        &&& meta.peer_fingerprint@ == self.peer_fingerprint@
        &&& meta.established_at@ == ago_text(since(now, self.start_time as int) as nat)
        &&& meta.last_activity@ == ago_text(since(now, self.last_activity as int) as nat)
        &&& meta.expires_at@ == ago_text(since(now, self.start_time + self.hard_timeout) as nat)
        &&& meta.v_max == self.v_max
        &&& meta.packets_received == self.packets_received
        &&& meta.packets_replayed == self.packets_replayed
        &&& meta.is_alive == (self.live(now) && self.master_key is Some)
        &&& meta.is_encrypted == self.master_key is Some
    }

    pub fn new(peer_fingerprint: String, now: u64) -> (r: Self)
        ensures
            r == (SessionGuard {
                peer_fingerprint,
                start_time: now,
                last_activity: now,
                v_max: 0,
                bitmask: 0,
                window_size: DEFAULT_WINDOW_SIZE,
                hard_timeout: DEFAULT_HARD_TIMEOUT,
                idle_timeout: DEFAULT_IDLE_TIMEOUT,
                packets_received: 0,
                packets_replayed: 0,
                master_key: None,
                missed_heartbeats: 0,
            }),
            r.window_size == 128,
            r.hard_timeout == 24 * 3600 * 1_000_000_000,
            r.idle_timeout == 30 * 60 * 1_000_000_000,
    {
        SessionGuard {
            peer_fingerprint,
            start_time: now,
            last_activity: now,
            v_max: 0,
            bitmask: 0,
            window_size: DEFAULT_WINDOW_SIZE,
            hard_timeout: DEFAULT_HARD_TIMEOUT,
            idle_timeout: DEFAULT_IDLE_TIMEOUT,
            packets_received: 0,
            packets_replayed: 0,
            master_key: None,
            missed_heartbeats: 0,
        }
    }

    pub fn with_timeouts(
        peer_fingerprint: String,
        hard_timeout_secs: u64,
        idle_timeout_secs: u64,
        window_size: u64,
        now: u64,
    ) -> (r: Self)
        ensures
            r == (SessionGuard {
                peer_fingerprint,
                start_time: now,
                last_activity: now,
                v_max: 0,
                bitmask: 0,
                window_size,
                hard_timeout: (hard_timeout_secs * NANOS_PER_SEC) as u128,
                idle_timeout: (idle_timeout_secs * NANOS_PER_SEC) as u128,
                packets_received: 0,
                packets_replayed: 0,
                master_key: None,
                missed_heartbeats: 0,
            }),
            r.window_size == window_size,
            r.hard_timeout == hard_timeout_secs * 1_000_000_000,
            r.idle_timeout == idle_timeout_secs * 1_000_000_000,
    {
        SessionGuard {
            peer_fingerprint,
            start_time: now,
            last_activity: now,
            v_max: 0,
            bitmask: 0,
            window_size,
            hard_timeout: seconds(hard_timeout_secs),
            idle_timeout: seconds(idle_timeout_secs),
            packets_received: 0,
            packets_replayed: 0,
            master_key: None,
            missed_heartbeats: 0,
        }
    }

    /// Replaces the master key; the old one is wiped.
    pub fn set_master_key(&mut self, key: [u8; 32])
        ensures
            *final(self) == (SessionGuard { master_key: Some(MasterKey(key)), ..*old(self) }),
    {
        if let Some(previous) = &mut self.master_key {
            previous.wipe();
        }
        self.master_key = Some(MasterKey(key));
    }

    pub fn is_valid(&self, now: u64) -> (r: bool)
        ensures
            r == self.live(now),
            now as int >= self.start_time + self.hard_timeout ==> !r,
            now as int >= self.last_activity + self.idle_timeout ==> !r,
            self.hard_timeout > 0 && (now as int) < self.start_time + self.hard_timeout
                && self.idle_timeout > 0 && (now as int) < self.last_activity + self.idle_timeout
                ==> r,
    {
        (now.saturating_sub(self.start_time) as u128) < self.hard_timeout && (now.saturating_sub(
            self.last_activity,
        ) as u128) < self.idle_timeout
    }

    pub fn is_expired(&self, now: u64) -> (r: bool)
        ensures
            r == !self.live(now),
            now as int >= self.start_time + self.hard_timeout ==> r,
            now as int >= self.last_activity + self.idle_timeout ==> r,
            self.hard_timeout > 0 && (now as int) < self.start_time + self.hard_timeout
                && self.idle_timeout > 0 && (now as int) < self.last_activity + self.idle_timeout
                ==> !r,
    {
        !self.is_valid(now)
    }

    /// Takes a packet's counter: whether the session is live and the replay
    /// window accepts it.
    pub fn check_and_update(&mut self, counter: u64, now: u64) -> (r: bool)
        requires
            old(self).live(now) ==> {
                &&& old(self).window().fits(counter)
                &&& old(self).packets_received < u64::MAX
                &&& old(self).window().refuses(counter) ==> old(self).packets_replayed < u64::MAX
            },
        ensures
            r == (old(self).live(now) && !old(self).window().refuses(counter)),
            !old(self).live(now) ==> *final(self) == *old(self),
            old(self).live(now) && !r ==> *final(self) == (SessionGuard {
                packets_received: (old(self).packets_received + 1) as u64,
                packets_replayed: (old(self).packets_replayed + 1) as u64,
                ..*old(self)
            }),
            r ==> *final(self) == (SessionGuard {
                packets_received: (old(self).packets_received + 1) as u64,
                last_activity: now,
                missed_heartbeats: 0,
                v_max: final(self).v_max,
                bitmask: final(self).bitmask,
                ..*old(self)
            }),
            r ==> old(self).window().accepting(counter, final(self).window()),
            now as int >= old(self).start_time + old(self).hard_timeout ==> !r,
            now as int >= old(self).last_activity + old(self).idle_timeout ==> !r,
            r ==> final(self).v_max >= counter,
            r ==> forall|later: u64|
                later >= now && (later as int) < now + old(self).idle_timeout && (later as int)
                    < old(self).start_time + old(self).hard_timeout ==> #[trigger] final(self).live(later),
            !r ==> final(self).last_activity == old(self).last_activity && final(self).v_max
                == old(self).v_max && final(self).bitmask == old(self).bitmask,
    {
        if !self.is_valid(now) {
            return false;
        }
        self.packets_received += 1;
        let window = Window {
            v_max: self.v_max,
            bitmask: self.bitmask,
            size: self.window_size,
        };
        match advance(&window, counter) {
            None => {
                self.packets_replayed += 1;
                false
            },
            Some(next) => {
                self.v_max = next.v_max;
                self.bitmask = next.bitmask;
                self.last_activity = now;
                self.missed_heartbeats = 0;
                true
            },
        }
    }

    pub fn heartbeat(&mut self, now: u64)
        ensures
            *final(self) == (SessionGuard { last_activity: now, missed_heartbeats: 0, ..*old(self) }),
            old(self).hard_timeout > 0 ==> forall|later: u64|
                later >= now && (later as int) < now + old(self).idle_timeout && (later as int)
                    < old(self).start_time + old(self).hard_timeout ==> #[trigger] final(self).live(
                    later,
                ),
    {
        self.last_activity = now;
        self.missed_heartbeats = 0;
    }

    /// Counts a missed heartbeat. At the threshold the key is wiped.
    pub fn miss_heartbeat(&mut self) -> (r: bool)
        requires
            old(self).missed_heartbeats < u32::MAX,
        ensures
            r == (old(self).missed_heartbeats + 1 >= HEARTBEAT_MISSED_THRESHOLD),
            *final(self) == (SessionGuard {
                missed_heartbeats: (old(self).missed_heartbeats + 1) as u32,
                master_key: if r { None } else { old(self).master_key },
                ..*old(self)
            }),
            old(self).missed_heartbeats >= 2 ==> r && final(self).master_key is None,
            old(self).missed_heartbeats < 2 ==> !r && final(self).master_key
                == old(self).master_key,
    {
        self.missed_heartbeats += 1;
        if self.missed_heartbeats >= HEARTBEAT_MISSED_THRESHOLD {
            self.trigger_wipe();
            true
        } else {
            false
        }
    }

    /// Wipes and drops the master key; the peer has to authenticate anew.
    pub fn trigger_wipe(&mut self)
        ensures
            *final(self) == (SessionGuard { master_key: None, ..*old(self) }),
    {
        if let Some(key) = &mut self.master_key {
            key.wipe();
        }
        self.master_key = None;
    }

    /// What to display of the session at `now`.
    pub fn to_meta(&self, now: u64) -> (r: Option<SessionMeta>)
        ensures
            r is Some == self.displayed(now),
            r matches Some(meta) ==> self.shows(now, meta),
    {
        let age = now.saturating_sub(self.start_time);
        if self.master_key.is_none() && age / NANOS_PER_SEC > 10 {
            return None;
        }
        let past_end: u64 = if age as u128 > self.hard_timeout {
            age - self.hard_timeout as u64
        } else {
            0
        };
        Some(
            SessionMeta {
                peer_fingerprint: self.peer_fingerprint.clone(),
                established_at: format_session_time(age),
                last_activity: format_session_time(now.saturating_sub(self.last_activity)),
                expires_at: format_session_time(past_end),
                v_max: self.v_max,
                packets_received: self.packets_received,
                packets_replayed: self.packets_replayed,
                is_alive: self.is_valid(now) && self.master_key.is_some(),
                is_encrypted: self.master_key.is_some(),
            },
        )
    }
}

// ---------- Session Manager ----------

/// Whether a session belongs to the peer `fp`.
pub open spec fn is_of(fp: Seq<char>) -> spec_fn(SessionGuard) -> bool {
    |s: SessionGuard| s.peer_fingerprint@ == fp
}

/// The index of the first session of the peer `fp`, or the number of sessions.
pub open spec fn place(sessions: Seq<SessionGuard>, fp: Seq<char>) -> int {
    lists::first_where(sessions, is_of(fp))
}

/// `known` after a newer session of the same peer was taken over: it gets the
/// activity, the replay state and, where there is one, the key.
pub open spec fn refreshed(known: SessionGuard, newer: SessionGuard) -> SessionGuard {
    SessionGuard {
        master_key: if newer.master_key is Some {
            newer.master_key
        } else {
            known.master_key
        },
        last_activity: newer.last_activity,
        v_max: newer.v_max,
        bitmask: newer.bitmask,
        ..known
    }
}

/// Whether `s` is of the same peer as `newer`, with its activity, its replay
/// state and, where it has one, its key.
pub open spec fn took_over(s: SessionGuard, newer: SessionGuard) -> bool {
    &&& s.peer_fingerprint@ == newer.peer_fingerprint@
    &&& s.last_activity == newer.last_activity
    &&& s.v_max == newer.v_max
    &&& s.bitmask == newer.bitmask
    &&& newer.master_key is Some ==> s.master_key == newer.master_key
}

proof fn lemma_place_is(sessions: Seq<SessionGuard>, fp: Seq<char>, i: int)
    requires
        0 <= i <= sessions.len(),
        forall|j: int| 0 <= j < i ==> (#[trigger] sessions[j]).peer_fingerprint@ != fp,
        i < sessions.len() ==> sessions[i].peer_fingerprint@ == fp,
    ensures
        place(sessions, fp) == i,
{
    lists::lemma_first_where_is(sessions, is_of(fp), i);
}

proof fn lemma_before_place(sessions: Seq<SessionGuard>, fp: Seq<char>)
    ensures
        0 <= place(sessions, fp) <= sessions.len(),
        forall|j: int|
            0 <= j < place(sessions, fp) ==> (#[trigger] sessions[j]).peer_fingerprint@ != fp,
{
    lists::lemma_first_where(sessions, is_of(fp));
}

/// Whether no two sessions belong to the same peer.
pub open spec fn one_per_peer(sessions: Seq<SessionGuard>) -> bool {
    forall|i: int, j: int|
        0 <= i < j < sessions.len() ==> (#[trigger] sessions[i]).peer_fingerprint@ != (
        #[trigger] sessions[j]).peer_fingerprint@
}

/// The sessions of all peers.
pub struct SessionManager {
    pub sessions: Vec<SessionGuard>,
}

impl SessionManager {
    pub fn new() -> (r: Self)
        ensures
            r.sessions@ == Seq::<SessionGuard>::empty(),
    {
        SessionManager { sessions: Vec::new() }
    }

    fn position(&self, fp: &str) -> (r: usize)
        ensures
            r == place(self.sessions@, fp@),
            r <= self.sessions@.len(),
            r < self.sessions@.len() ==> self.sessions@[r as int].peer_fingerprint@ == fp@,
    {
        let mut i: usize = 0;
        while i < self.sessions.len() && !text::same(
            self.sessions[i].peer_fingerprint.as_str(),
            fp,
        )
            invariant
                i <= self.sessions@.len(),
                forall|j: int| 0 <= j < i ==> self.sessions@[j].peer_fingerprint@ != fp@,
            decreases self.sessions@.len() - i,
        {
            i += 1;
        }
        proof {
            lemma_place_is(self.sessions@, fp@, i as int);
        }
        i
    }

    /// Takes over `session` for the peer `fp`: refreshes the session it has, or adds this one.
    pub fn upsert(&mut self, fp: String, session: SessionGuard)
        ensures
            ({
                let i = place(old(self).sessions@, fp@);
                if i < old(self).sessions@.len() {
                    final(self).sessions@ == old(self).sessions@.update(
                        i,
                        refreshed(old(self).sessions@[i], session),
                    )
                } else {
                    final(self).sessions@ == old(self).sessions@.push(session)
                }
            }),
            session.peer_fingerprint@ == fp@ ==> place(final(self).sessions@, fp@) == place(
                old(self).sessions@,
                fp@,
            ),
            session.peer_fingerprint@ == fp@ && one_per_peer(old(self).sessions@) ==> one_per_peer(
                final(self).sessions@,
            ),
            forall|s: SessionGuard|
                s.peer_fingerprint@ != fp@ && session.peer_fingerprint@ == fp@ ==> #[trigger]
                    final(self).sessions@.contains(s) == old(self).sessions@.contains(s),
            session.peer_fingerprint@ == fp@ ==> exists|s: SessionGuard|
                final(self).sessions@.contains(s) && #[trigger] took_over(s, session),
    {
        let i = self.position(fp.as_str());
        let ghost all = self.sessions@;
        proof {
            lemma_before_place(all, fp@);
        }
        if i < self.sessions.len() {
            if let Some(key) = &session.master_key {
                self.sessions[i].set_master_key(key.0);
            }
            self.sessions[i].last_activity = session.last_activity;
            self.sessions[i].v_max = session.v_max;
            self.sessions[i].bitmask = session.bitmask;
        } else {
            self.sessions.push(session);
        }
        proof {
            if session.peer_fingerprint@ == fp@ {
                lemma_place_is(self.sessions@, fp@, i as int);
                let after = self.sessions@;
                assert(took_over(after[i as int], session));
                assert(after.contains(after[i as int]));
                assert forall|s: SessionGuard| s.peer_fingerprint@ != fp@ implies #[trigger]
                    after.contains(s) == all.contains(s) by {
                    if all.contains(s) {
                        let j = all.index_of(s);
                        assert(after[j] == s);
                    }
                    if after.contains(s) {
                        let j = after.index_of(s);
                        assert(all[j] == s);
                    }
                }
            }
        }
    }

    /// A copy of the session of the peer `fp`.
    pub fn find(&self, fp: &str) -> (r: Option<SessionGuard>)
        ensures
            r == (if place(self.sessions@, fp@) < self.sessions@.len() {
                Some(self.sessions@[place(self.sessions@, fp@)])
            } else {
                None
            }),
            match r {
                Some(s) => self.sessions@.contains(s) && s.peer_fingerprint@ == fp@,
                None => forall|i: int|
                    0 <= i < self.sessions@.len() ==> (
                    #[trigger] self.sessions@[i]).peer_fingerprint@ != fp@,
            },
    {
        proof {
            lemma_before_place(self.sessions@, fp@);
        }
        let i = self.position(fp);
        if i < self.sessions.len() {
            Some(self.sessions[i].clone())
        } else {
            None
        }
    }

    /// Drops every session of the peer `fp`.
    pub fn remove(&mut self, fp: &str)
        ensures
            final(self).sessions@ == old(self).sessions@.filter(
                |s: SessionGuard| s.peer_fingerprint@ != fp@,
            ),
    {
        let ghost all = self.sessions@;
        let ghost keep = |s: SessionGuard| s.peer_fingerprint@ != fp@;
        let mut i: usize = 0;
        let ghost mut done: int = 0;
        proof {
            lists::lemma_filter_ends(all, keep);
            assert(self.sessions@ =~= all.take(0).filter(keep) + all.skip(0));
        }
        while i < self.sessions.len()
            invariant
                keep == (|s: SessionGuard| s.peer_fingerprint@ != fp@),
                0 <= done <= all.len(),
                i == all.take(done).filter(keep).len(),
                self.sessions@ == all.take(done).filter(keep) + all.skip(done),
            decreases all.len() - done,
        {
            proof {
                lists::lemma_filter_step(all, keep, done);
            }
            if text::same(self.sessions[i].peer_fingerprint.as_str(), fp) {
                let _ = self.sessions.remove(i);
            } else {
                i += 1;
            }
            proof {
                done = done + 1;
                assert(self.sessions@ =~= all.take(done).filter(keep) + all.skip(done));
            }
        }
        proof {
            lists::lemma_filter_ends(all, keep);
            assert(self.sessions@ =~= all.filter(keep));
        }
    }

    /// Drops the sessions that are past a timeout, and says how many there were.
    pub fn expire_stale(&mut self, now: u64) -> (r: usize)
        ensures
            final(self).sessions@ == old(self).sessions@.filter(|s: SessionGuard| s.live(now)),
            r == old(self).sessions@.len() - final(self).sessions@.len(),
            forall|s: SessionGuard| #[trigger]
                final(self).sessions@.contains(s) ==> old(self).sessions@.contains(s) && (
                now as int) < s.start_time + s.hard_timeout && (now as int) < s.last_activity
                    + s.idle_timeout,
            forall|s: SessionGuard|
                old(self).sessions@.contains(s) && s.hard_timeout > 0 && s.idle_timeout > 0 && (
                now as int) < s.start_time + s.hard_timeout && (now as int) < s.last_activity
                    + s.idle_timeout ==> #[trigger] final(self).sessions@.contains(s),
    {
        let ghost all = self.sessions@;
        let ghost keep = |s: SessionGuard| s.live(now);
        let mut i: usize = 0;
        let before = self.sessions.len();
        let mut dropped: usize = 0;
        let ghost mut done: int = 0;
        proof {
            lists::lemma_filter_ends(all, keep);
            assert(self.sessions@ =~= all.take(0).filter(keep) + all.skip(0));
        }
        while i < self.sessions.len()
            invariant
                keep == (|s: SessionGuard| s.live(now)),
                0 <= done <= all.len(),
                i == all.take(done).filter(keep).len(),
                self.sessions@ == all.take(done).filter(keep) + all.skip(done),
                dropped == all.len() - self.sessions@.len(),
                before == all.len(),
            decreases all.len() - done,
        {
            proof {
                lists::lemma_filter_step(all, keep, done);
            }
            if self.sessions[i].is_expired(now) {
                let _ = self.sessions.remove(i);
                dropped += 1;
            } else {
                i += 1;
            }
            proof {
                done = done + 1;
                assert(self.sessions@ =~= all.take(done).filter(keep) + all.skip(done));
            }
        }
        proof {
            lists::lemma_filter_ends(all, keep);
            assert(self.sessions@ =~= all.filter(keep));
            assert forall|s: SessionGuard| #[trigger]
                self.sessions@.contains(s) == (all.contains(s) && s.live(now)) by {
                lists::lemma_filter_members(all, keep, s);
            }
        }
        dropped
    }

    /// What to display of all sessions at `now`.
    pub fn all_meta(&self, now: u64) -> (r: Vec<SessionMeta>)
        ensures
            ({
                let shown = self.sessions@.filter(|s: SessionGuard| s.displayed(now));
                &&& r@.len() == shown.len()
                &&& forall|i: int| 0 <= i < shown.len() ==> shown[i].shows(now, #[trigger] r@[i])
            }),
    {
        let ghost all = self.sessions@;
        let ghost keep = |s: SessionGuard| s.displayed(now);
        let mut out: Vec<SessionMeta> = Vec::new();
        let mut i: usize = 0;
        proof {
            lists::lemma_filter_ends(all, keep);
        }
        while i < self.sessions.len()
            invariant
                all == self.sessions@,
                keep == (|s: SessionGuard| s.displayed(now)),
                i <= all.len(),
                out@.len() == all.take(i as int).filter(keep).len(),
                forall|j: int|
                    0 <= j < out@.len() ==> all.take(i as int).filter(keep)[j].shows(
                        now,
                        #[trigger] out@[j],
                    ),
            decreases all.len() - i,
        {
            proof {
                lists::lemma_filter_step(all, keep, i as int);
            }
            if let Some(meta) = self.sessions[i].to_meta(now) {
                out.push(meta);
            }
            i += 1;
        }
        proof {
            lists::lemma_filter_ends(all, keep);
        }
        out
    }

    /// What to display of the session of the peer `fp` at `now`, or why there is nothing.
    pub fn describe(&self, fp: &str, now: u64) -> (r: Result<SessionMeta, String>)
        ensures
            ({
                let i = place(self.sessions@, fp@);
                if i >= self.sessions@.len() {
                    r matches Err(e) && e@ == "Session "@ + fp@ + " not found"@
                } else if !self.sessions@[i].displayed(now) {
                    r matches Err(e) && e@ == "Session has no active key"@
                } else {
                    r matches Ok(meta) && self.sessions@[i].shows(now, meta)
                }
            }),
    {
        let i = self.position(fp);
        if i < self.sessions.len() {
            match self.sessions[i].to_meta(now) {
                Some(meta) => Ok(meta),
                None => Err("Session has no active key".to_owned()),
            }
        } else {
            let mut reason = text::concat("Session ", fp);
            reason.append(" not found");
            Err(reason)
        }
    }

    pub fn count(&self) -> (r: usize)
        ensures
            r == self.sessions@.len(),
    {
        self.sessions.len()
    }
}

// ---------- Legacy Compatibility ----------

/// Session state without a key: the default timeouts and the default window.
pub struct LegacySessionGuard {
    pub start_time: u64,
    pub last_activity: u64,
    pub v_max: u64,
    pub bitmask: u128,
}

impl LegacySessionGuard {
    /// The replay window of the session.
    pub open spec fn window(&self) -> Window {
        Window { v_max: self.v_max, bitmask: self.bitmask, size: DEFAULT_WINDOW_SIZE }
    }

    /// Whether the session is within both timeouts at `now`.
    pub open spec fn live(&self, now: u64) -> bool {
        since(now, self.start_time as int) < DEFAULT_HARD_TIMEOUT && since(
            now,
            self.last_activity as int,
        ) < DEFAULT_IDLE_TIMEOUT
    }

    pub fn new(now: u64) -> (r: Self)
        ensures
            r == (LegacySessionGuard { start_time: now, last_activity: now, v_max: 0, bitmask: 0 }),
    {
        LegacySessionGuard { start_time: now, last_activity: now, v_max: 0, bitmask: 0 }
    }

    pub fn is_valid(&self, now: u64) -> (r: bool)
        ensures
            r == self.live(now),
            r == ((now as int) < self.start_time + DEFAULT_HARD_TIMEOUT && (now as int)
                < self.last_activity + DEFAULT_IDLE_TIMEOUT),
    {
        (now.saturating_sub(self.start_time) as u128) < DEFAULT_HARD_TIMEOUT
            && (now.saturating_sub(self.last_activity) as u128) < DEFAULT_IDLE_TIMEOUT
    }

    /// Takes a packet's counter: whether the session is live and the replay
    /// window accepts it.
    pub fn check_and_update(&mut self, counter: u64, now: u64) -> (r: bool)
        ensures
            r == (old(self).live(now) && !old(self).window().refuses(counter)),
            !r ==> *final(self) == *old(self),
            r ==> *final(self) == (LegacySessionGuard {
                start_time: old(self).start_time,
                last_activity: now,
                v_max: final(self).v_max,
                bitmask: final(self).bitmask,
            }),
            r ==> old(self).window().accepting(counter, final(self).window()),
    {
        if !self.is_valid(now) {
            return false;
        }
        let window = Window {
            v_max: self.v_max,
            bitmask: self.bitmask,
            size: DEFAULT_WINDOW_SIZE,
        };
        match advance(&window, counter) {
            None => false,
            Some(next) => {
                self.v_max = next.v_max;
                self.bitmask = next.bitmask;
                self.last_activity = now;
                true
            },
        }
    }
}

} // verus!
