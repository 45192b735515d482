use vstd::prelude::*;

use crate::game_input::GameInput;

verus! {

/// Rate limiter over accepted events: a candidate is accepted only when at
/// least the quiet window has passed since the previously accepted one.
///
/// The filter ignores which symbol arrived on purpose: one button press makes
/// the remote retransmit the frame many times, and a rapid burst of decoded
/// symbols — even different ones — is one press's worth of input. Times are
/// milliseconds on a monotonic clock.
#[derive(Clone, Copy, PartialEq, Eq, Structural, Debug)]
pub struct DebounceGate {
    /// Minimum time between two accepted events, in milliseconds.
    pub quiet_window: u64,
    /// When the last accepted event arrived; `None` until the first one.
    pub last_accepted: Option<u64>,
}

impl DebounceGate {
    /// The clock reading `now` has not run backwards past the last
    /// acceptance. A monotonic clock guarantees this to every caller.
    pub open spec fn clock_ok(self, now: u64) -> bool {
        match self.last_accepted {
            Option::Some(t) => t <= now,
            Option::None => true,
        }
    }

    /// What one acceptance decision does: the verdict and the filter state that follows.
    /// The verdict is true on the first candidate ever, and otherwise
    /// exactly when the quiet window has fully passed; the acceptance
    /// instant is recorded only on acceptance.
    pub open spec fn spec_accept(self, now: u64) -> (bool, DebounceGate) {
        let ok = match self.last_accepted {
            Option::Some(t) => now - t >= self.quiet_window,
            Option::None => true,
        };
        if ok {
            (true, DebounceGate { quiet_window: self.quiet_window, last_accepted: Some(now) })
        } else {
            (false, self)
        }
    }

    /// Creates an open gate: the first candidate is always accepted.
    pub fn new(quiet_window: u64) -> (gate: DebounceGate)
        ensures
            gate.quiet_window == quiet_window,
            gate.last_accepted is None,
    {
        DebounceGate { quiet_window, last_accepted: None }
    }

    /// Decides one candidate. The symbol itself is ignored; only its arrival
    /// time matters.
    pub fn accept(&mut self, now: u64, _candidate: GameInput) -> (ok: bool)
        requires
            old(self).clock_ok(now),
        ensures
            ok == old(self).spec_accept(now).0,
            *final(self) == old(self).spec_accept(now).1,
    {
        let passed = match self.last_accepted {
            Some(t) => now - t >= self.quiet_window,
            None => true,
        };
        if passed {
            self.last_accepted = Some(now);
        }
        passed
    }
}

/// Law: once a candidate is accepted at `t0`, a second candidate at `t1` is
/// rejected when `t1 - t0` is under the quiet window and accepted when it
/// is at or past it — whatever the two symbols are.
pub proof fn lemma_debounce_window(gate: DebounceGate, t0: u64, t1: u64)
    requires
        gate.spec_accept(t0).0,
    ensures
        t1 - t0 < gate.quiet_window ==> !gate.spec_accept(t0).1.spec_accept(t1).0,
        t1 - t0 >= gate.quiet_window ==> gate.spec_accept(t0).1.spec_accept(t1).0,
{
}

} // verus!
