//! What a peer's session promises: how long it lasts, which counters it takes,
//! and what becomes of it among the sessions of other peers.

use crate::lists;
use crate::session;
use crate::session::window::Window;
use crate::session::{LegacySessionGuard, SessionGuard, SessionMeta};
use crate::text;
use vstd::prelude::*;

verus! {

// ---------- Timeouts ----------

/// A session is valid exactly before the earlier one of two moments: its start
/// plus the hard timeout, and its last activity plus the idle timeout. A
/// timeout of zero leaves no such moment. Whether it has a key does not matter.
pub proof fn law_session_ends_at_its_timeouts(guard: SessionGuard, now: u64)
    ensures
        now as int >= guard.start_time + guard.hard_timeout ==> !guard.live(now),
        now as int >= guard.last_activity + guard.idle_timeout ==> !guard.live(now),
        guard.hard_timeout == 0 || guard.idle_timeout == 0 ==> !guard.live(now),
        guard.hard_timeout > 0 && (now as int) < guard.start_time + guard.hard_timeout
            && guard.idle_timeout > 0 && (now as int) < guard.last_activity + guard.idle_timeout
            ==> guard.live(now),
{
}

/// Two sessions with the same times and timeouts are valid at the same moments,
/// whatever else they hold.
pub proof fn law_validity_is_a_matter_of_time(a: SessionGuard, b: SessionGuard, now: u64)
    requires
        a.start_time == b.start_time,
        a.last_activity == b.last_activity,
        a.hard_timeout == b.hard_timeout,
        a.idle_timeout == b.idle_timeout,
    ensures
        a.live(now) == b.live(now),
{
}

/// A session that has ended stays so as long as nothing refreshes it.
pub proof fn law_ended_session_stays_ended(guard: SessionGuard, now: u64, later: u64)
    requires
        now <= later,
        !guard.live(now),
    ensures
        !guard.live(later),
{
}

/// A session of the older kind is valid for a day from its start, and for half
/// an hour from its last activity.
pub proof fn law_legacy_session_ends_at_its_timeouts(guard: LegacySessionGuard, now: u64)
    ensures
        guard.live(now) == ((now as int) < guard.start_time + 86_400_000_000_000 && (now as int)
            < guard.last_activity + 1_800_000_000_000),
{
}

// ---------- Counters ----------

/// Whether a window that has not been shown anything but `counters` must refuse
/// `c`: it is zero, was shown already, or lies `size` or more below one of them.
pub open spec fn must_refuse(counters: Seq<u64>, size: u64, c: u64) -> bool {
    c == 0 || counters.contains(c) || exists|i: int|
        0 <= i < counters.len() && c + size <= #[trigger] counters[i]
}

proof fn lemma_step(
    counters: Seq<u64>,
    size: u64,
    window: Window,
    counter: u64,
    next: Window,
    c: u64,
)
    requires
        size <= 128,
        window.size == size,
        forall|i: int| 0 <= i < counters.len() ==> #[trigger] counters[i] <= window.v_max,
        window.v_max == 0 || counters.contains(window.v_max),
        forall|d: u64| #[trigger] window.refuses(d) == must_refuse(counters, size, d),
        window.shown(counter, next),
    ensures
        next.refuses(c) == must_refuse(counters.push(counter), size, c),
{
    let more = counters.push(counter);
    lists::lemma_push_contains(counters, counter, c);
    assert(window.refuses(c) == must_refuse(counters, size, c));
    assert(window.refuses(counter) == must_refuse(counters, size, counter));
    assert(must_refuse(more, size, c) == (must_refuse(counters, size, c) || c == counter || c
        + size <= counter)) by {
        if exists|i: int| 0 <= i < counters.len() && c + size <= #[trigger] counters[i] {
            let i = choose|i: int| 0 <= i < counters.len() && c + size <= #[trigger] counters[i];
            assert(more[i] == counters[i]);
        }
        if c + size <= counter {
            assert(more[counters.len() as int] == counter);
        }
        if exists|i: int| 0 <= i < more.len() && c + size <= #[trigger] more[i] {
            let i = choose|i: int| 0 <= i < more.len() && c + size <= #[trigger] more[i];
            if i < counters.len() {
                assert(counters[i] == more[i]);
            }
        }
    }
    if window.refuses(counter) {
        if c + size <= counter && c != 0 {
            // `counter` is not above the highest, and the highest was shown.
            let j = counters.index_of(window.v_max);
            assert(counters[j] == window.v_max);
        }
    } else if counter > window.v_max {
        let shift = counter - window.v_max;
        if c <= counter && c + size > counter && c != 0 {
            let d = counter - c;
            assert(next.offset(c) == d);
            assert(session::window::bit(next.bitmask, d) == (d == 0 || (shift < size
                && session::window::bit(window.bitmask, d - shift))));
            if c <= window.v_max {
                assert(window.offset(c) == d - shift);
            } else {
                if must_refuse(counters, size, c) {
                    assert(window.refuses(c));
                }
            }
        }
        if c > counter {
            assert(!window.refuses(c));
        }
    } else {
        let off = window.offset(counter);
        assert(off == window.v_max - counter);
        if c <= window.v_max && c > window.floor() {
            let d = window.v_max - c;
            assert(window.offset(c) == d && next.offset(c) == d);
            assert(session::window::bit(next.bitmask, d) == (d == off || session::window::bit(
                window.bitmask,
                d,
            )));
        }
        if c + size <= counter && c != 0 {
            let j = counters.index_of(window.v_max);
            assert(counters[j] == window.v_max);
        }
    }
}

/// A window that starts with nothing, and reaches over at most 128 counters,
/// decides by the history of what was shown to it alone: it refuses zero, every
/// counter that was shown before, and every counter that lies as far below one
/// that was shown as the window reaches; it takes all others.
pub proof fn law_window_decides_by_history(trace: Seq<Window>, counters: Seq<u64>, c: u64)
    requires
        session::window::is_history(trace, counters),
        trace[0].v_max == 0,
        trace[0].bitmask == 0,
        trace[0].size <= 128,
    ensures
        trace.last().refuses(c) == must_refuse(counters, trace[0].size, c),
        trace.last().size == trace[0].size,
        forall|i: int| 0 <= i < counters.len() ==> #[trigger] counters[i] <= trace.last().v_max,
        trace.last().v_max == 0 || counters.contains(trace.last().v_max),
    decreases counters.len(),
{
    let size = trace[0].size;
    if counters.len() == 0 {
        let off = trace[0].offset(c);
        if 0 <= off < 128 {
            let k = off as u128;
            assert((0u128 >> k) & 1 == 0) by (bit_vector);
        }
    } else {
        let n = counters.len() - 1;
        let before = counters.drop_last();
        let shorter = trace.drop_last();
        assert forall|i: int| 0 <= i < before.len() implies (#[trigger] shorter[i]).fits(before[i])
            && shorter[i].shown(before[i], shorter[i + 1]) by {
            assert(trace[i].fits(counters[i]));
        }
        law_window_decides_by_history(shorter, before, c);
        let window = shorter.last();
        assert(window == trace[n]);
        assert forall|d: u64| #[trigger] window.refuses(d) == must_refuse(before, size, d) by {
            law_window_decides_by_history(shorter, before, d);
        }
        assert(trace[n].fits(counters[n]));
        lemma_step(before, size, window, counters[n], trace.last(), c);
        assert(before.push(counters[n]) =~= counters);
        let w = trace.last();
        assert(w.v_max >= window.v_max && w.v_max >= counters[n]) by {
            if window.refuses(counters[n]) {
                assert(counters[n] <= window.v_max);
            }
        }
        assert forall|i: int| 0 <= i < counters.len() implies #[trigger] counters[i]
            <= w.v_max by {
            if i < n {
                assert(before[i] == counters[i]);
            }
        }
        if w.v_max == window.v_max && w.v_max != 0 {
            let j = before.index_of(w.v_max);
            assert(counters[j] == w.v_max);
        } else if w.v_max != 0 {
            assert(counters[n] == w.v_max);
        }
    }
}

// ---------- Sessions of many peers ----------

/// The session that is found for a peer is one of that peer, and the first;
/// where none is found there is none.
pub proof fn law_found_session_is_the_peers(sessions: Seq<SessionGuard>, fp: Seq<char>)
    ensures
        ({
            let i = session::place(sessions, fp);
            &&& 0 <= i <= sessions.len()
            &&& i < sessions.len() ==> sessions[i].peer_fingerprint@ == fp
            &&& forall|j: int|
                0 <= j < i ==> (#[trigger] sessions[j]).peer_fingerprint@ != fp
        }),
{
    lists::lemma_first_where(sessions, session::is_of(fp));
}

/// A session that was taken over stays that of its peer, with its start, its
/// timeouts and its packet counts. The activity and the replay state are the
/// newer ones; so is the key, and no key is lost where the newer one has none.
pub proof fn law_taken_over_session(known: SessionGuard, newer: SessionGuard)
    ensures
        ({
            let r = session::refreshed(known, newer);
            &&& r.peer_fingerprint == known.peer_fingerprint
            &&& r.start_time == known.start_time
            &&& r.hard_timeout == known.hard_timeout
            &&& r.idle_timeout == known.idle_timeout
            &&& r.window_size == known.window_size
            &&& r.packets_received == known.packets_received
            &&& r.packets_replayed == known.packets_replayed
            &&& r.missed_heartbeats == known.missed_heartbeats
            &&& r.last_activity == newer.last_activity
            &&& r.v_max == newer.v_max
            &&& r.bitmask == newer.bitmask
            &&& newer.master_key is Some ==> r.master_key == newer.master_key
            &&& newer.master_key is None ==> r.master_key == known.master_key
        }),
{
}

// ---------- Display ----------

/// A time of `h` hours, `m` minutes and `s` seconds, and less than a second, is
/// written as these three, each with at least two digits.
pub proof fn law_time_is_written_in_parts(h: nat, m: nat, s: nat, rest: nat)
    requires
        m < 60,
        s < 60,
        rest < 1_000_000_000,
    ensures
        session::ago_text((h * 3600 + m * 60 + s) * 1_000_000_000 + rest) == text::padded_numeral(
            h,
            2,
        ) + ":"@ + text::padded_numeral(m, 2) + ":"@ + text::padded_numeral(s, 2) + " ago"@,
{
    let total = h * 3600 + m * 60 + s;
    let nanos = total * 1_000_000_000 + rest;
    assert(nanos / 1_000_000_000 == total);
    assert(total / 3600 == h);
    assert(total % 3600 == m * 60 + s);
    assert(total % 60 == s);
}

/// A session is displayed as long as it has a key, and without one for less
/// than eleven seconds from its start.
pub proof fn law_session_is_displayed(guard: SessionGuard, now: u64)
    ensures
        guard.displayed(now) == (guard.master_key is Some || (now as int) < guard.start_time
            + 11_000_000_000),
{
}

/// What is displayed of a session is its state: it is shown alive exactly where
/// it has a key and neither timeout is reached, and encrypted exactly where it
/// has a key.
pub proof fn law_display_tells_the_state(guard: SessionGuard, now: u64, meta: SessionMeta)
    requires
        guard.shows(now, meta),
    ensures
        meta.peer_fingerprint@ == guard.peer_fingerprint@,
        meta.v_max == guard.v_max,
        meta.packets_received == guard.packets_received,
        meta.packets_replayed == guard.packets_replayed,
        meta.is_encrypted == guard.master_key is Some,
        meta.is_alive ==> guard.master_key is Some && (now as int) < guard.start_time
            + guard.hard_timeout && (now as int) < guard.last_activity + guard.idle_timeout,
        guard.master_key is Some && guard.hard_timeout > 0 && guard.idle_timeout > 0 && (
        now as int) < guard.start_time + guard.hard_timeout && (now as int) < guard.last_activity
            + guard.idle_timeout ==> meta.is_alive,
        now as int >= guard.start_time ==> meta.established_at@ == session::ago_text(
            (now - guard.start_time) as nat,
        ),
        now as int >= guard.last_activity ==> meta.last_activity@ == session::ago_text(
            (now - guard.last_activity) as nat,
        ),
{
}

} // verus!
