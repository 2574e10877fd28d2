//! Sliding-window replay protection.
//!
//! A window remembers the highest counter accepted so far and, in the bits of
//! a mask, which of the 128 counters up to it were accepted: bit `i` stands for
//! the counter `i` below the highest.

use vstd::prelude::*;

verus! {

/// Bit `i` of `mask`.
pub open spec fn bit(mask: u128, i: int) -> bool {
    0 <= i < 128 && (mask >> (i as u128)) & 1 == 1
}

/// What a window remembers, and over how many counters it reaches.
pub struct Window {
    pub v_max: u64,
    pub bitmask: u128,
    pub size: u64,
}

impl Window {
    /// The lowest counter that is out of the window's reach from below, and all under it.
    pub open spec fn floor(&self) -> int {
        if self.v_max > self.size {
            self.v_max - self.size
        } else {
            0
        }
    }

    /// The bit that stands for a counter up to the highest one, as a 32-bit distance.
    pub open spec fn offset(&self, counter: u64) -> int {
        (self.v_max - counter) % 0x1_0000_0000
    }

    /// Whether the window refuses `counter`: it is too old, or was accepted before.
    pub open spec fn refuses(&self, counter: u64) -> bool {
        counter <= self.v_max && (counter <= self.floor() || bit(
            self.bitmask,
            self.offset(counter),
        ))
    }

    /// Whether the bit that `counter` needs lies within the mask.
    pub open spec fn fits(&self, counter: u64) -> bool {
        if counter > self.v_max {
            counter - self.v_max < self.size ==> counter - self.v_max < 128
        } else {
            counter > self.floor() ==> self.offset(counter) < 128
        }
    }

    /// Whether `next` is this window after `counter` was accepted.
    pub open spec fn accepting(&self, counter: u64, next: Window) -> bool {
        &&& next.size == self.size
        &&& if counter > self.v_max {
            let shift = counter - self.v_max;
            &&& next.v_max == counter
            &&& forall|i: int|
                0 <= i < 128 ==> #[trigger] bit(next.bitmask, i) == (i == 0 || (shift < self.size
                    && bit(self.bitmask, i - shift)))
        } else {
            &&& next.v_max == self.v_max
            &&& forall|i: int|
                0 <= i < 128 ==> #[trigger] bit(next.bitmask, i) == (i == self.offset(counter)
                    || bit(self.bitmask, i))
        }
    }

    /// Whether `next` is this window after `counter` was shown to it.
    pub open spec fn shown(&self, counter: u64, next: Window) -> bool {
        if self.refuses(counter) {
            next == *self
        } else {
            self.accepting(counter, next)
        }
    }
}

fn test_bit(mask: u128, i: u128) -> (r: bool)
    requires
        i < 128,
    ensures
        r == bit(mask, i as int),
{
    assert((mask & (1u128 << i)) != 0 <==> (mask >> i) & 1 == 1) by (bit_vector)
        requires
            i < 128,
    ;
    (mask & (1u128 << i)) != 0
}

fn set_bit(mask: u128, i: u128) -> (r: u128)
    requires
        i < 128,
    ensures
        forall|j: int| 0 <= j < 128 ==> #[trigger] bit(r, j) == (j == i || bit(mask, j)),
{
    let r = mask | (1u128 << i);
    proof {
        assert forall|j: int| 0 <= j < 128 implies #[trigger] bit(r, j) == (j == i || bit(mask, j)) by {
            let k = j as u128;
            assert(((mask | (1u128 << i)) >> k) & 1 == 1 <==> (k == i || (mask >> k) & 1 == 1))
                by (bit_vector)
                requires
                    i < 128,
                    k < 128,
            ;
        }
    }
    r
}

fn shift_in(mask: u128, shift: u128) -> (r: u128)
    requires
        0 < shift < 128,
    ensures
        forall|j: int| 0 <= j < 128 ==> #[trigger] bit(r, j) == (j == 0 || bit(mask, j - shift)),
{
    let r = (mask << shift) | 1;
    proof {
        assert forall|j: int| 0 <= j < 128 implies #[trigger] bit(r, j) == (j == 0 || bit(
            mask,
            j - shift,
        )) by {
            let k = j as u128;
            if j >= shift {
                let d = (j - shift) as u128;
                assert((((mask << shift) | 1) >> k) & 1 == 1 <==> (mask >> d) & 1 == 1)
                    by (bit_vector)
                    requires
                        0 < shift < 128,
                        k < 128,
                        k == shift + d,
                ;
            } else {
                assert((((mask << shift) | 1) >> k) & 1 == 1 <==> k == 0) by (bit_vector)
                    requires
                        0 < shift < 128,
                        k < shift,
                ;
            }
        }
    }
    r
}

/// Shows `counter` to `window`: gives the window after accepting it, or
/// nothing where the window refuses it.
pub fn advance(window: &Window, counter: u64) -> (r: Option<Window>)
    requires
        window.fits(counter),
    ensures
        r is Some == !window.refuses(counter),
        r matches Some(next) ==> window.accepting(counter, next),
{
    if counter > window.v_max {
        let shift = counter - window.v_max;
        let bitmask = if shift >= window.size {
            proof {
                assert forall|j: int| 0 <= j < 128 implies #[trigger] bit(1u128, j) == (j == 0) by {
                    let k = j as u128;
                    assert((1u128 >> k) & 1 == 1 <==> k == 0) by (bit_vector)
                        requires
                            k < 128,
                    ;
                }
            }
            1u128
        } else {
            shift_in(window.bitmask, shift as u128)
        };
        return Some(Window { v_max: counter, bitmask, size: window.size });
    }
    if counter <= window.v_max.saturating_sub(window.size) {
        return None;
    }
    let offset = ((window.v_max - counter) % 0x1_0000_0000) as u128;
    if test_bit(window.bitmask, offset) {
        return None;
    }
    Some(
        Window {
            v_max: window.v_max,
            bitmask: set_bit(window.bitmask, offset),
            size: window.size,
        },
    )
}

/// Every counter has its bit in a window of at most 128 counters.
pub proof fn law_small_window_fits(window: Window, counter: u64)
    requires
        window.size <= 128,
    ensures
        window.fits(counter),
{
}

/// An accepted counter is refused when it is shown again.
pub proof fn law_accepted_is_refused_next(window: Window, counter: u64, next: Window)
    requires
        window.fits(counter),
        !window.refuses(counter),
        window.accepting(counter, next),
    ensures
        next.refuses(counter),
{
    if counter <= window.v_max {
        assert(bit(next.bitmask, window.offset(counter)));
    } else {
        assert(bit(next.bitmask, 0));
    }
}

/// The largest window in which every counter has a distance of its own in 32 bits.
pub const WIDEST: u64 = 0x1_0000_0000;

impl Window {
    /// Whether `counter` can never be accepted any more: it is refused, or so
    /// far back that its bit is out of the mask.
    pub open spec fn spent(&self, counter: u64) -> bool {
        counter <= self.v_max && (self.refuses(counter) || self.v_max - counter >= 128)
    }
}

/// A counter that is spent stays so, whatever is shown to the window.
pub proof fn law_spent_stays_spent(window: Window, spent: u64, counter: u64, next: Window)
    requires
        window.size <= WIDEST,
        window.spent(spent),
        window.fits(counter),
        window.shown(counter, next),
    ensures
        next.spent(spent),
{
    if !window.refuses(counter) && next.v_max - spent < 128 && spent > next.floor() {
        let d = next.v_max - spent;
        assert(0 <= d < 128);
        assert(spent > window.floor());
        assert(bit(next.bitmask, d));
    }
}

/// A counter that is spent is refused, wherever it has a bit at all.
pub proof fn law_spent_is_refused(window: Window, spent: u64)
    requires
        window.size <= WIDEST,
        window.spent(spent),
        window.fits(spent),
    ensures
        window.refuses(spent),
{
}

/// A counter that was not refused stays acceptable, until it is shown itself or
/// the window has moved past it.
pub proof fn law_unseen_stays_acceptable(window: Window, unseen: u64, counter: u64, next: Window)
    requires
        window.size <= WIDEST,
        !window.refuses(unseen),
        unseen != counter,
        window.fits(counter),
        window.shown(counter, next),
        unseen > next.floor(),
    ensures
        !next.refuses(unseen),
{
    if !window.refuses(counter) && unseen <= next.v_max {
        let d = next.v_max - unseen;
        assert(next.offset(unseen) == d);
        if d < 128 {
            assert(bit(next.bitmask, d) ==> unseen <= window.v_max && window.offset(unseen)
                == window.v_max - unseen);
        }
    }
}

/// Whether `trace` is a history of the window in which `counters` were shown to
/// it one after another: `trace[i]` is the window before `counters[i]`.
pub open spec fn is_history(trace: Seq<Window>, counters: Seq<u64>) -> bool {
    &&& trace.len() == counters.len() + 1
    &&& forall|i: int|
        0 <= i < counters.len() ==> (#[trigger] trace[i]).fits(counters[i]) && trace[i].shown(
            counters[i],
            trace[i + 1],
        )
}

proof fn lemma_size_is_kept(trace: Seq<Window>, counters: Seq<u64>, i: int)
    requires
        is_history(trace, counters),
        0 <= i <= counters.len(),
    ensures
        trace[i].size == trace[0].size,
    decreases i,
{
    if i > 0 {
        lemma_size_is_kept(trace, counters, i - 1);
        assert(trace[i - 1].shown(counters[i - 1], trace[i - 1 + 1]));
    }
}

proof fn lemma_spent_throughout(
    trace: Seq<Window>,
    counters: Seq<u64>,
    spent: u64,
    from: int,
    to: int,
)
    requires
        is_history(trace, counters),
        trace[0].size <= WIDEST,
        0 <= from <= to <= counters.len(),
        trace[from].spent(spent),
    ensures
        trace[to].spent(spent),
    decreases to - from,
{
    if from < to {
        lemma_spent_throughout(trace, counters, spent, from, to - 1);
        lemma_size_is_kept(trace, counters, to - 1);
        assert(trace[to - 1].shown(counters[to - 1], trace[to - 1 + 1]));
        law_spent_stays_spent(trace[to - 1], spent, counters[to - 1], trace[to]);
    }
}

/// In any history of a window, no counter is accepted twice.
pub proof fn law_no_counter_accepted_twice(
    trace: Seq<Window>,
    counters: Seq<u64>,
    first: int,
    second: int,
)
    requires
        is_history(trace, counters),
        trace[0].size <= WIDEST,
        0 <= first < second < counters.len(),
        counters[first] == counters[second],
        !trace[first].refuses(counters[first]),
    ensures
        trace[second].refuses(counters[second]),
{
    assert(trace[first].shown(counters[first], trace[first + 1]));
    law_accepted_is_refused_next(trace[first], counters[first], trace[first + 1]);
    lemma_spent_throughout(trace, counters, counters[first], first + 1, second);
    lemma_size_is_kept(trace, counters, second);
    assert(trace[second].fits(counters[second]));
    law_spent_is_refused(trace[second], counters[second]);
}

} // verus!
