//! The debounce coordinator: collapses a rapid burst of local edits into at
//! most one outbound update per quiet window.
//!
//! Each change intent first cancels the pending timer, if any. An intent that
//! arrives at least `UPDATE_MARGIN_MS` after the previous intent fires an
//! update immediately; an earlier one instead schedules a fresh timer for
//! `UPDATE_MARGIN_MS` from now. A timer that fires while it is still the
//! pending one triggers the update (reading the configuration current at that
//! moment); a cancelled timer's fire event is ignored.
//!
//! Time is a millisecond counter supplied by the caller; the coordinator only
//! ever compares and adds such counters.

use vstd::prelude::*;

verus! {

/// Quiet window: an update may go out at most once per this many milliseconds
/// while edits keep coming.
pub const UPDATE_MARGIN_MS: u64 = 250;

/// What a change intent asks the surrounding event loop to do.
#[derive(Clone, Copy, Debug, PartialEq, Eq, Structural)]
pub enum DebounceDecision {
    /// Send the update now; no timer is retained.
    FireNow,
    /// Start a cancellable timer with this identity, due at `deadline`
    /// milliseconds; when it fires, deliver its identity back through
    /// `on_timer_fire`.
    Schedule { timer_id: u64, deadline: u64 },
}

/// Debounce coordinator state.
///
/// `pending` holds the identity of the one live timer, if any. Identities are
/// drawn from the strictly increasing counter `next_id`, so a superseded
/// timer's identity can never come back to life.
#[derive(Clone, Copy, Debug, PartialEq, Eq, Structural)]
pub struct Debouncer {
    /// Time of the most recent change intent, in milliseconds.
    pub last_fire: u64,
    /// Identity of the live timer, if one is scheduled.
    pub pending: Option<u64>,
    /// Next unused timer identity.
    pub next_id: u64,
}

impl Debouncer {
    /// Any live timer's identity was drawn from the counter.
    pub open spec fn wf(self) -> bool {
        self.pending matches Some(id) ==> id < self.next_id
    }

    /// What a change intent at time `now` does: the successor state, the
    /// decision handed to the event loop, and the timer it cancels, if any.
    pub open spec fn intent_spec(self, now: u64) -> (Debouncer, DebounceDecision, Option<u64>) {
        if now - self.last_fire >= UPDATE_MARGIN_MS {
            (
                Debouncer { last_fire: now, pending: None, next_id: self.next_id },
                DebounceDecision::FireNow,
                self.pending,
            )
        } else {
            (
                Debouncer {
                    last_fire: now,
                    pending: Some(self.next_id),
                    next_id: (self.next_id + 1) as u64,
                },
                DebounceDecision::Schedule {
                    timer_id: self.next_id,
                    deadline: (now + UPDATE_MARGIN_MS) as u64,
                },
                self.pending,
            )
        }
    }

    /// What the fire event of timer `timer_id` does: the successor state, and
    /// whether the update actually goes out.
    pub open spec fn fire_spec(self, timer_id: u64) -> (Debouncer, bool) {
        if self.pending == Some(timer_id) {
            (
                Debouncer { last_fire: self.last_fire, pending: None, next_id: self.next_id },
                true,
            )
        } else {
            (self, false)
        }
    }

    /// A fresh coordinator, as if an update had just fired at `now`.
    pub fn new(now: u64) -> (r: Debouncer)
        ensures
            r == (Debouncer { last_fire: now, pending: None, next_id: 0u64 }),
    {
        Debouncer { last_fire: now, pending: None, next_id: 0 }
    }

    /// Record a change intent at time `now`. Returns the decision for the
    /// event loop and the identity of the timer this intent cancels, if any;
    /// the caller must cancel that timer (or at least discard its fire event,
    /// which `on_timer_fire` does on its own).
    pub fn on_change_intent(&mut self, now: u64) -> (r: (DebounceDecision, Option<u64>))
        requires
            old(self).wf(),
            now >= old(self).last_fire,
            now <= u64::MAX - UPDATE_MARGIN_MS,
            old(self).next_id < u64::MAX,
        ensures
            (*final(self), r.0, r.1) == old(self).intent_spec(now),
            final(self).wf(),
    {
        let cancelled = self.pending;
        if now - self.last_fire >= UPDATE_MARGIN_MS {
            self.last_fire = now;
            self.pending = None;
            (DebounceDecision::FireNow, cancelled)
        } else {
            let id = self.next_id;
            self.last_fire = now;
            self.pending = Some(id);
            self.next_id = id + 1;
            (DebounceDecision::Schedule { timer_id: id, deadline: now + UPDATE_MARGIN_MS }, cancelled)
        }
    }

    /// Deliver the fire event of timer `timer_id`. Returns whether the update
    /// goes out: true exactly when the timer is still the pending one.
    pub fn on_timer_fire(&mut self, timer_id: u64) -> (fired: bool)
        ensures
            (*final(self), fired) == old(self).fire_spec(timer_id),
            old(self).wf() ==> final(self).wf(),
    {
        let fired = match self.pending {
            Some(id) => id == timer_id,
            None => false,
        };
        if fired {
            self.pending = None;
        }
        fired
    }
}

/// Immediate fire: a change intent that arrives a full quiet window or more
/// after the previous intent triggers the update at once and retains no timer.
pub proof fn lemma_immediate_fire(d: Debouncer, now: u64)
    requires
        d.last_fire + UPDATE_MARGIN_MS <= now,
    ensures
        d.intent_spec(now).1 == DebounceDecision::FireNow,
        d.intent_spec(now).0.pending is None,
{
}

/// Coalescing step: a change intent within the quiet window of the previous
/// intent never fires immediately; it cancels whatever timer was pending and
/// leaves exactly one fresh timer, due a full quiet window after this intent.
pub proof fn lemma_burst_coalesces(d: Debouncer, now: u64)
    requires
        d.last_fire <= now,
        now < d.last_fire + UPDATE_MARGIN_MS,
    ensures
        d.intent_spec(now).1 == (DebounceDecision::Schedule {
            timer_id: d.next_id,
            deadline: (now + UPDATE_MARGIN_MS) as u64,
        }),
        d.intent_spec(now).2 == d.pending,
        d.intent_spec(now).0.pending == Some(d.next_id),
{
}

/// A burst: every intent in `times` arrives inside the quiet window of the
/// one before it (the first one inside the window of the last intent the
/// coordinator saw), and time never runs backwards.
pub open spec fn is_burst(d: Debouncer, times: Seq<u64>) -> bool {
    forall|i: int|
        0 <= i < times.len() ==> {
            let base: u64 = if i == 0 {
                d.last_fire
            } else {
                times[i - 1]
            };
            base <= #[trigger] times[i] < base + UPDATE_MARGIN_MS
        }
}

/// The coordinator after a whole sequence of change intents.
pub open spec fn run_intents(d: Debouncer, times: Seq<u64>) -> Debouncer
    decreases times.len(),
{
    if times.len() == 0 {
        d
    } else {
        run_intents(d.intent_spec(times[0]).0, times.drop_first())
    }
}

/// How many of a sequence of change intents fire immediately.
pub open spec fn immediate_fires(d: Debouncer, times: Seq<u64>) -> nat
    decreases times.len(),
{
    if times.len() == 0 {
        0
    } else {
        (if d.intent_spec(times[0]).1 is FireNow {
            1nat
        } else {
            0nat
        }) + immediate_fires(d.intent_spec(times[0]).0, times.drop_first())
    }
}

/// Coalescing a whole burst: when every edit of a nonempty sequence arrives
/// inside the quiet window of the one before it, not one of them fires
/// immediately; the burst ends with exactly one live timer, the one its last
/// edit scheduled, so the burst causes at most one outbound update.
pub proof fn lemma_burst_coalesces_sequence(d: Debouncer, times: Seq<u64>)
    requires
        times.len() > 0,
        is_burst(d, times),
        d.next_id + times.len() <= u64::MAX,
    ensures
        immediate_fires(d, times) == 0,
        run_intents(d, times).last_fire == times.last(),
        run_intents(d, times).next_id == d.next_id + times.len(),
        run_intents(d, times).pending == Some((d.next_id + times.len() - 1) as u64),
    decreases times.len(),
{
    let d1 = d.intent_spec(times[0]).0;
    assert(d.last_fire <= times[0] < d.last_fire + UPDATE_MARGIN_MS);
    assert(d.intent_spec(times[0]).1 is Schedule);
    assert(immediate_fires(d, times) == immediate_fires(d1, times.drop_first()));
    if times.len() == 1 {
        assert(times.drop_first().len() == 0);
        assert(immediate_fires(d1, times.drop_first()) == 0);
        assert(run_intents(d1, times.drop_first()) == d1);
    } else {
        let rest = times.drop_first();
        assert(is_burst(d1, rest)) by {
            assert forall|i: int| 0 <= i < rest.len() implies {
                let base: u64 = if i == 0 {
                    d1.last_fire
                } else {
                    rest[i - 1]
                };
                base <= #[trigger] rest[i] < base + UPDATE_MARGIN_MS
            } by {
                assert(rest[i] == times[i + 1]);
                if i > 0 {
                    assert(rest[i - 1] == times[i]);
                }
            }
        }
        lemma_burst_coalesces_sequence(d1, rest);
        assert(rest.last() == times.last());
    }
}

/// Cancellation: when a change intent schedules a timer and any later intent
/// arrives, the later intent cancels exactly that timer, and the timer's fire
/// event is ignored from then on: it neither sends an update nor changes the
/// coordinator.
pub proof fn lemma_cancellation(d: Debouncer, t1: u64, t2: u64)
    requires
        d.wf(),
        d.next_id < u64::MAX,
        d.intent_spec(t1).1 matches DebounceDecision::Schedule { .. },
    ensures
        ({
            let (d1, dec1, _) = d.intent_spec(t1);
            let id1 = dec1->Schedule_timer_id;
            let (d2, _, cancelled2) = d1.intent_spec(t2);
            &&& cancelled2 == Some(id1)
            &&& d2.fire_spec(id1).1 == false
            &&& d2.fire_spec(id1).0 == d2
        }),
{
    let (d1, dec1, _) = d.intent_spec(t1);
    let id1 = dec1->Schedule_timer_id;
    assert(id1 == d.next_id);
    assert(d1.pending == Some(id1));
    assert(d1.next_id == d.next_id + 1);
    let (d2, _, cancelled2) = d1.intent_spec(t2);
    assert(d2.pending != Some(id1));
}

} // verus!
