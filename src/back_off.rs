//! The adaptive interval controller of the discovery loops.
use vstd::prelude::*;

verus! {

/// The load state that decides how the advertise and query intervals move.
#[derive(Debug, Clone, Copy, PartialEq, Eq, Structural)]
pub enum BackoffState {
    Normal,
    Backoff,
    Recovery,
    Stable,
}

/// Shortest interval, in seconds.
pub const MIN_INTERVAL_S: u64 = 5;

/// Longest interval, in seconds.
pub const MAX_INTERVAL_S: u64 = 60;

/// The advertise and query intervals, in seconds.
#[derive(Debug, Clone, Copy, PartialEq, Eq, Structural)]
pub struct BackoffIntervals {
    pub advertise_s: u64,
    pub query_s: u64,
}

/// One interval moved by the rule of `state`, before the query bound is applied.
pub open spec fn step_interval(state: BackoffState, x: int) -> int {
    match state {
        BackoffState::Normal => 5,
        BackoffState::Backoff => if (3 * x + 1) / 2 < 60 { (3 * x + 1) / 2 } else { 60 },
        BackoffState::Recovery => if (2 * x) / 3 > 5 { (2 * x) / 3 } else { 5 },
        BackoffState::Stable => 10,
    }
}

/// Largest interval that can be adjusted without overflow (2^62 s).
pub const MAX_ADJUSTABLE_S: u64 = 0x4000000000000000;

impl BackoffIntervals {
    /// Both intervals are small enough to adjust without overflow.
    pub open spec fn wf(self) -> bool {
        self.advertise_s <= MAX_ADJUSTABLE_S && self.query_s <= MAX_ADJUSTABLE_S
    }

    /// Both intervals lie in `[5, 60]`.
    pub open spec fn in_range(self) -> bool {
        &&& MIN_INTERVAL_S <= self.advertise_s <= MAX_INTERVAL_S
        &&& MIN_INTERVAL_S <= self.query_s <= MAX_INTERVAL_S
    }

    /// The intervals after one adjustment in `state`: each moves by the
    /// state's rule (`ceil(1.5·x)` capped at 60 when backing off,
    /// `floor(x/1.5)` floored at 5 when recovering), then the query interval
    /// is cut to twice the advertise interval if it exceeds it.
    pub open spec fn adjusted(self, state: BackoffState) -> BackoffIntervals {
        let a = step_interval(state, self.advertise_s as int);
        let q = step_interval(state, self.query_s as int);
        BackoffIntervals { advertise_s: a as u64, query_s: (if q > 2 * a { 2 * a } else { q }) as u64 }
    }

    /// The intervals a fresh service starts with.
    pub fn initial() -> (r: Self)
        ensures
            r.advertise_s == 5,
            r.query_s == 5,
            r.wf(),
            r.in_range(),
    {
        BackoffIntervals { advertise_s: MIN_INTERVAL_S, query_s: MIN_INTERVAL_S }
    }

    /// Moves both intervals by the rule of `state`, then cuts the query
    /// interval to twice the advertise interval if it exceeds it.
    pub fn adjust(self, state: BackoffState) -> (r: Self)
        requires
            self.wf(),
        ensures
            r == self.adjusted(state),
            r.wf(),
            r.query_s <= 2 * r.advertise_s,
    {
        let a = step(state, self.advertise_s);
        let q = step(state, self.query_s);
        let q = if q > 2 * a { 2 * a } else { q };
        BackoffIntervals { advertise_s: a, query_s: q }
    }
}

/// One interval moved by the rule of `state`.
fn step(state: BackoffState, x: u64) -> (r: u64)
    requires
        x <= MAX_ADJUSTABLE_S,
    ensures
        r == step_interval(state, x as int),
        r <= MAX_ADJUSTABLE_S,
{
    match state {
        BackoffState::Normal => 5,
        BackoffState::Backoff => {
            let up = (3 * x + 1) / 2;
            if up < MAX_INTERVAL_S {
                up
            } else {
                MAX_INTERVAL_S
            }
        },
        BackoffState::Recovery => {
            let down = (2 * x) / 3;
            if down > MIN_INTERVAL_S {
                down
            } else {
                MIN_INTERVAL_S
            }
        },
        BackoffState::Stable => 10,
    }
}

/// After every adjustment, from intervals in `[5, 60]`, both intervals
/// stay within `[5, 60]` and the query interval is at most twice the
/// advertise interval.
pub proof fn lemma_adjust_keeps_bounds(i: BackoffIntervals, state: BackoffState)
    requires
        i.in_range(),
    ensures
        i.adjusted(state).in_range(),
        i.adjusted(state).query_s <= 2 * i.adjusted(state).advertise_s,
        5 <= i.adjusted(state).advertise_s <= 60,
        5 <= i.adjusted(state).query_s <= 60,
{
}

} // verus!
