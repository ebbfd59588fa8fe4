//! Temporal debouncing of console events. A `Throttler` remembers the last
//! event it let through and when; a repeat of the same event within the
//! suppression window is swallowed, a different event always passes at once.
//! Suppressed occurrences change nothing, so the window stays anchored at
//! the last *emitted* occurrence.

use vstd::prelude::*;

use crate::event::ConsoleEvent;

verus! {

/// The debouncer's whole state: the suppression window, and the last emitted
/// event with the instant (in milliseconds) it was emitted, absent before the
/// first emission.
pub struct Throttler {
    pub window_ms: u64,
    pub last: Option<(ConsoleEvent, u64)>,
}

impl Throttler {
    /// Calls arrive in order: an occurrence is never older than the last
    /// emission.
    pub open spec fn arrives_after_last(self, now_ms: u64) -> bool {
        match self.last {
            None => true,
            Some((_, last_ms)) => now_ms >= last_ms,
        }
    }

    /// Whether an occurrence of `event` at `now_ms` passes: always on the
    /// first occurrence and on a change of event, otherwise only once the
    /// window has elapsed since the last emission.
    pub open spec fn spec_emits(self, event: ConsoleEvent, now_ms: u64) -> bool {
        match self.last {
            None => true,
            Some((last_event, last_ms)) => event != last_event || now_ms - last_ms
                >= self.window_ms,
        }
    }

    /// A fresh debouncer that has emitted nothing yet.
    pub fn new(window_ms: u64) -> (t: Throttler)
        ensures
            t.window_ms == window_ms,
            t.last.is_none(),
    {
        Throttler { window_ms, last: None }
    }

    /// Decide one occurrence: pass it through and remember it, or suppress
    /// it and stay unchanged.
    pub fn debounce(&mut self, event: ConsoleEvent, now_ms: u64) -> (r: Option<ConsoleEvent>)
        requires
            old(self).arrives_after_last(now_ms),
        ensures
            (*final(self), r) == spec_debounce(*old(self), event, now_ms),
    {
        let emit = match self.last {
            None => true,
            Some((last_event, last_ms)) => event != last_event || now_ms - last_ms
                >= self.window_ms,
        };
        if emit {
            self.last = Some((event, now_ms));
            Some(event)
        } else {
            None
        }
    }
}

/// The debouncer's transition function: the state after one occurrence and
/// what it emitted.
pub open spec fn spec_debounce(t: Throttler, event: ConsoleEvent, now_ms: u64) -> (
    Throttler,
    Option<ConsoleEvent>,
) {
    if t.spec_emits(event, now_ms) {
        (Throttler { window_ms: t.window_ms, last: Some((event, now_ms)) }, Some(event))
    } else {
        (t, None)
    }
}

/// Idempotence under suppression: from a fresh state, the first occurrence
/// is always emitted, and a second occurrence of the same event is emitted
/// exactly when the window has elapsed since the first.
pub proof fn lemma_idempotence_under_suppression(
    window_ms: u64,
    event: ConsoleEvent,
    t0: u64,
    t1: u64,
)
    requires
        t0 <= t1,
    ensures
        ({
            let fresh = Throttler { window_ms, last: None };
            let (s1, r1) = spec_debounce(fresh, event, t0);
            let (s2, r2) = spec_debounce(s1, event, t1);
            r1 == Some(event) && (r2 == Some(event) <==> t1 - t0 >= window_ms) && (t1 - t0
                < window_ms ==> s2 == s1)
        }),
{
}

/// Direction-change immediacy: whatever was last emitted and however little
/// time has passed, an occurrence of a different event is emitted at once.
pub proof fn lemma_direction_change_immediate(t: Throttler, event: ConsoleEvent, now_ms: u64)
    requires
        match t.last {
            Some((last_event, _)) => last_event != event,
            None => true,
        },
    ensures
        spec_debounce(t, event, now_ms).1 == Some(event),
        spec_debounce(t, event, now_ms).0.last == Some((event, now_ms)),
{
}

/// Window anchoring: suppressed occurrences do not move the window. After an
/// emission at `t0`, any run of same-event occurrences strictly within the
/// window is suppressed one after the other, each judged against `t0`.
pub proof fn lemma_window_anchoring(
    window_ms: u64,
    event: ConsoleEvent,
    t0: u64,
    t1: u64,
    t2: u64,
)
    requires
        t0 <= t1 <= t2,
        t1 - t0 < window_ms,
        t2 - t0 < window_ms,
    ensures
        ({
            let fresh = Throttler { window_ms, last: None };
            let (s1, r1) = spec_debounce(fresh, event, t0);
            let (s2, r2) = spec_debounce(s1, event, t1);
            let (s3, r3) = spec_debounce(s2, event, t2);
            r1 == Some(event) && r2.is_none() && r3.is_none() && s3.last == Some((event, t0))
        }),
{
}

/// The occurrences a debouncer lets through, with their instants, when fed
/// the occurrences `occs` one after the other.
pub open spec fn run_debounce(t: Throttler, occs: Seq<(ConsoleEvent, u64)>) -> Seq<(
    ConsoleEvent,
    u64,
)>
    decreases occs.len(),
{
    if occs.len() == 0 {
        Seq::empty()
    } else {
        let (next, emitted) = spec_debounce(t, occs[0].0, occs[0].1);
        match emitted {
            Some(e) => seq![(e, occs[0].1)] + run_debounce(next, occs.skip(1)),
            None => run_debounce(next, occs.skip(1)),
        }
    }
}

/// The occurrences arrive in order, none earlier than `from`.
pub open spec fn in_order(occs: Seq<(ConsoleEvent, u64)>, from: u64) -> bool {
    (forall|j: int| 0 <= j < occs.len() ==> occs[j].1 >= from) && (forall|j: int, k: int|
        0 <= j < k < occs.len() ==> occs[j].1 <= occs[k].1)
}

/// No two consecutive entries of `es` carry the same event less than
/// `window_ms` apart.
pub open spec fn gaps_ok(window_ms: u64, es: Seq<(ConsoleEvent, u64)>) -> bool {
    forall|j: int|
        0 <= j < es.len() - 1 ==> (#[trigger] es[j].0 == es[j + 1].0 ==> es[j + 1].1 - es[j].1
            >= window_ms)
}

/// The debouncer's invariant over a whole trace: fed any in-order sequence
/// of occurrences, it never emits two consecutive occurrences of the same
/// event closer together than the window; and when the state already records
/// an emission, the first same-event emission of the trace keeps its distance
/// from it too.
pub proof fn lemma_no_close_repeats_in_trace(t: Throttler, occs: Seq<(ConsoleEvent, u64)>)
    requires
        match t.last {
            None => in_order(occs, 0),
            Some((_, last_ms)) => in_order(occs, last_ms),
        },
    ensures
        gaps_ok(t.window_ms, run_debounce(t, occs)),
        ({
            let es = run_debounce(t, occs);
            match t.last {
                Some((e0, t0)) => es.len() > 0 && es[0].0 == e0 ==> es[0].1 - t0 >= t.window_ms,
                None => true,
            }
        }),
    decreases occs.len(),
{
    if occs.len() > 0 {
        let (e, tm) = occs[0];
        let (next, emitted) = spec_debounce(t, e, tm);
        let rest = occs.skip(1);
        assert(forall|j: int| 0 <= j < rest.len() ==> rest[j] == occs[j + 1]);
        if emitted.is_some() {
            assert(in_order(rest, tm));
            lemma_no_close_repeats_in_trace(next, rest);
            let tail = run_debounce(next, rest);
            let es = run_debounce(t, occs);
            assert(es == seq![(e, tm)] + tail);
            assert(es[0] == (e, tm));
            assert(forall|j: int| 1 <= j < es.len() ==> es[j] == tail[j - 1]);
            assert(gaps_ok(t.window_ms, es)) by {
                assert forall|j: int|
                    0 <= j < es.len() - 1 && #[trigger] es[j].0 == es[j + 1].0 implies es[j + 1].1
                    - es[j].1 >= t.window_ms by {
                    if j == 0 {
                        assert(tail[0] == es[1]);
                    } else {
                        assert(es[j] == tail[j - 1] && es[j + 1] == tail[j]);
                    }
                }
            }
        } else {
            assert(next == t);
            let last_ms = t.last.unwrap().1;
            assert(in_order(rest, last_ms));
            lemma_no_close_repeats_in_trace(next, rest);
            assert(run_debounce(t, occs) == run_debounce(next, rest));
        }
    }
}

/// The debouncer's invariant, in one step: when two consecutive emissions
/// carry the same event, they are at least the window apart; a different
/// event may follow at any distance.
pub proof fn lemma_no_close_repeats(t: Throttler, event: ConsoleEvent, now_ms: u64)
    requires
        t.arrives_after_last(now_ms),
        t.last matches Some((last_event, _)) && last_event == event,
        spec_debounce(t, event, now_ms).1 == Some(event),
    ensures
        now_ms - t.last.unwrap().1 >= t.window_ms,
{
}

} // verus!
