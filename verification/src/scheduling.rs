//! The scheduling algorithm: a pure, deterministic function from the current
//! scheduling state, a review outcome and the current time to the next
//! scheduling state and due timestamp.
//!
//! Conventional spaced-repetition schedulers keep their factors as floating
//! point numbers. Here every factor is a fixed-point integer counted in
//! thousandths ([`UNIT`]), so `1300` stands for a factor of `1.3`. The exact
//! step constants below are this engine's documented choice:
//!
//! - an `Easy` grade raises the adjusting factor by [`EASY_STEP`], capped at
//!   [`ADJUST_CEIL`]; a `Normal` grade leaves it unchanged; a `Hard` grade
//!   lowers it by [`HARD_STEP`], never below [`ADJUST_FLOOR`];
//! - memory strength moves by an exponential average with smoothing
//!   [`STRENGTH_SMOOTHING`], toward [`UNIT`] (certain recall) on success and
//!   toward `0` on `Hard`;
//! - the new interval is the old interval times the new adjusting factor,
//!   rounded to the nearest whole time unit, at least `1` and at most
//!   [`INTERVAL_CAP`];
//! - the next due timestamp is `now` plus the new interval, saturating at
//!   the top of the timestamp range.

use vstd::prelude::*;

use crate::errors::SchedulingError;

verus! {

/// One thousandth steps: the fixed-point scale of all factors.
pub const UNIT: u64 = 1000;

/// The adjusting factor never falls below 1.0.
pub const ADJUST_FLOOR: u64 = 1000;

/// The adjusting factor never rises above 10.0.
pub const ADJUST_CEIL: u64 = 10000;

/// How much an `Easy` grade raises the adjusting factor (0.15).
pub const EASY_STEP: u64 = 150;

/// How much a `Hard` grade lowers the adjusting factor (0.2).
pub const HARD_STEP: u64 = 200;

/// Divisor of the exponential moving average on memory strength: each
/// review moves the strength a quarter of the way toward its target.
pub const STRENGTH_SMOOTHING: u64 = 4;

/// Upper bound on a review interval, in time units.
pub const INTERVAL_CAP: u64 = 1000000000;

/// Operator-supplied recall quality for one review attempt.
#[derive(Clone, Copy, Debug, PartialEq, Eq, Structural)]
pub enum Outcome {
    Easy,
    Normal,
    Hard,
}

impl Outcome {
    /// `Easy` and `Normal` count as successful recall; `Hard` does not.
    pub open spec fn is_success(self) -> bool {
        !(self is Hard)
    }

    /// Decodes an operator's grade key: `1` is `Easy`, `2` is `Normal`,
    /// `3` is `Hard`; anything else names no outcome.
    pub fn from_code(code: u8) -> (r: Result<Outcome, SchedulingError>)
        ensures
            code == 1 ==> r == Ok::<Outcome, SchedulingError>(Outcome::Easy),
            code == 2 ==> r == Ok::<Outcome, SchedulingError>(Outcome::Normal),
            code == 3 ==> r == Ok::<Outcome, SchedulingError>(Outcome::Hard),
            !(1 <= code <= 3) ==> r == Err::<Outcome, SchedulingError>(SchedulingError::InvalidOutcome),
    {
        match code {
            1 => Ok(Outcome::Easy),
            2 => Ok(Outcome::Normal),
            3 => Ok(Outcome::Hard),
            _ => Err(SchedulingError::InvalidOutcome),
        }
    }
}

/// The per-item state of the scheduler. All factors are fixed-point
/// integers in [`UNIT`] thousandths.
#[derive(Clone, Copy, Debug, PartialEq, Eq, Structural)]
pub struct SchedulingState {
    /// Gap to the next review, in time units; always at least `1`.
    pub interval: u64,
    /// How hard the item is judged to be, in thousandths. Recorded with the
    /// item but not read by the update rules.
    pub difficulty: u64,
    /// Estimated probability of recall, in thousandths; at most [`UNIT`].
    pub memory_strength: u64,
    /// Multiplier applied to the interval after each review, in
    /// thousandths; between [`ADJUST_FLOOR`] and [`ADJUST_CEIL`].
    pub adjusting_factor: u64,
    /// How many reviews the item has been through.
    pub times_reviewed: u64,
    /// In how many of those reviews the item was recalled; never more than
    /// `times_reviewed`.
    pub times_recalled: u64,
}

impl SchedulingState {
    /// The invariants of a scheduling state.
    pub open spec fn wf(self) -> bool {
        &&& 1 <= self.interval <= INTERVAL_CAP
        &&& ADJUST_FLOOR <= self.adjusting_factor <= ADJUST_CEIL
        &&& self.memory_strength <= UNIT
        &&& self.times_recalled <= self.times_reviewed
    }

    /// A state the algorithm accepts: well formed, with room to count one
    /// more review.
    pub open spec fn advancable(self) -> bool {
        self.wf() && self.times_reviewed < u64::MAX
    }
}

/// The adjusting factor after a review with the given outcome.
pub open spec fn next_adjusting_factor(factor: u64, outcome: Outcome) -> u64 {
    match outcome {
        Outcome::Easy => if factor + EASY_STEP <= ADJUST_CEIL {
            (factor + EASY_STEP) as u64
        } else {
            ADJUST_CEIL
        },
        Outcome::Normal => factor,
        Outcome::Hard => if factor >= ADJUST_FLOOR + HARD_STEP {
            (factor - HARD_STEP) as u64
        } else {
            ADJUST_FLOOR
        },
    }
}

/// The memory strength after a review with the given outcome.
pub open spec fn next_memory_strength(strength: u64, outcome: Outcome) -> u64 {
    if outcome is Hard {
        (strength - strength / STRENGTH_SMOOTHING) as u64
    } else {
        (strength + (UNIT - strength) / (STRENGTH_SMOOTHING as int)) as u64
    }
}

/// The old interval times the new factor, rounded to the nearest unit.
pub open spec fn rounded_interval(interval: u64, factor: u64) -> int {
    (interval * factor + UNIT / 2) / (UNIT as int)
}

/// The interval after a review: the rounded product, clamped to
/// `1..=INTERVAL_CAP`.
pub open spec fn next_interval(interval: u64, factor: u64) -> u64 {
    let raw = rounded_interval(interval, factor);
    if raw < 1 {
        1
    } else if raw > INTERVAL_CAP {
        INTERVAL_CAP
    } else {
        raw as u64
    }
}

/// The whole scheduling state after one review with the given outcome.
pub open spec fn advance_state(s: SchedulingState, outcome: Outcome) -> SchedulingState {
    let factor = next_adjusting_factor(s.adjusting_factor, outcome);
    SchedulingState {
        interval: next_interval(s.interval, factor),
        difficulty: s.difficulty,
        memory_strength: next_memory_strength(s.memory_strength, outcome),
        adjusting_factor: factor,
        times_reviewed: (s.times_reviewed + 1) as u64,
        times_recalled: if outcome.is_success() {
            (s.times_recalled + 1) as u64
        } else {
            s.times_recalled
        },
    }
}

/// The next due timestamp: `now` plus the interval, saturating at the top
/// of the timestamp range.
pub open spec fn due_after(now: u64, interval: u64) -> u64 {
    if now + interval <= u64::MAX {
        (now + interval) as u64
    } else {
        u64::MAX
    }
}

/// One review step. Reads no clock and touches no storage: time enters only
/// through `now` (the current timestamp) and `elapsed` (how long the recall
/// attempt took, carried for interface stability; the update rules do not
/// weigh it).
///
/// Returns the new scheduling state and the next due timestamp, or
/// `CorruptState` if the given state violates its invariants or its review
/// counter is exhausted.
pub fn advance(state: SchedulingState, outcome: Outcome, _elapsed: u64, now: u64) -> (r: Result<
    (SchedulingState, u64),
    SchedulingError,
>)
    ensures
        state.advancable() ==> r == Ok::<(SchedulingState, u64), SchedulingError>(
            (advance_state(state, outcome), due_after(now, advance_state(state, outcome).interval)),
        ),
        !state.advancable() ==> r == Err::<(SchedulingState, u64), SchedulingError>(
            SchedulingError::CorruptState,
        ),
        state.advancable() ==> advance_state(state, outcome).wf(),
{
    if !(1 <= state.interval && state.interval <= INTERVAL_CAP && ADJUST_FLOOR
        <= state.adjusting_factor && state.adjusting_factor <= ADJUST_CEIL && state.memory_strength
        <= UNIT && state.times_recalled <= state.times_reviewed && state.times_reviewed
        < u64::MAX) {
        return Err(SchedulingError::CorruptState);
    }
    let factor: u64 = match outcome {
        Outcome::Easy => if state.adjusting_factor + EASY_STEP <= ADJUST_CEIL {
            state.adjusting_factor + EASY_STEP
        } else {
            ADJUST_CEIL
        },
        Outcome::Normal => state.adjusting_factor,
        Outcome::Hard => if state.adjusting_factor >= ADJUST_FLOOR + HARD_STEP {
            state.adjusting_factor - HARD_STEP
        } else {
            ADJUST_FLOOR
        },
    };
    let strength: u64 = match outcome {
        Outcome::Hard => state.memory_strength - state.memory_strength / STRENGTH_SMOOTHING,
        _ => state.memory_strength + (UNIT - state.memory_strength) / STRENGTH_SMOOTHING,
    };
    proof {
        assert(state.interval * factor <= INTERVAL_CAP * ADJUST_CEIL) by (nonlinear_arith)
            requires
                state.interval <= INTERVAL_CAP,
                factor <= ADJUST_CEIL,
        ;
    }
    let raw: u64 = (state.interval * factor + UNIT / 2) / UNIT;
    let interval: u64 = if raw < 1 {
        1
    } else if raw > INTERVAL_CAP {
        INTERVAL_CAP
    } else {
        raw
    };
    let recalled: u64 = match outcome {
        Outcome::Hard => state.times_recalled,
        _ => state.times_recalled + 1,
    };
    let next = SchedulingState {
        interval,
        difficulty: state.difficulty,
        memory_strength: strength,
        adjusting_factor: factor,
        times_reviewed: state.times_reviewed + 1,
        times_recalled: recalled,
    };
    let due: u64 = if now <= u64::MAX - interval {
        now + interval
    } else {
        u64::MAX
    };
    Ok((next, due))
}

/// The scheduling state after a whole sequence of committed reviews, first
/// outcome first.
pub open spec fn replay_outcomes(s: SchedulingState, outcomes: Seq<Outcome>) -> SchedulingState
    decreases outcomes.len(),
{
    if outcomes.len() == 0 {
        s
    } else {
        replay_outcomes(advance_state(s, outcomes[0]), outcomes.drop_first())
    }
}

/// How many outcomes in the sequence count as successful recall.
pub open spec fn count_recalled(outcomes: Seq<Outcome>) -> nat
    decreases outcomes.len(),
{
    if outcomes.len() == 0 {
        0
    } else {
        (if outcomes[0].is_success() {
            1nat
        } else {
            0nat
        }) + count_recalled(outcomes.drop_first())
    }
}

/// Law of the review counters: over any sequence of committed grade
/// submissions, `times_reviewed` grows by exactly the number of
/// submissions, and `times_recalled` by exactly the number of successful
/// ones — so from a fresh state, `k` submissions leave `times_reviewed`
/// equal to `k` and `times_recalled` between `0` and `k`.
pub proof fn lemma_review_counters(s: SchedulingState, outcomes: Seq<Outcome>)
    requires
        s.times_recalled <= s.times_reviewed,
        s.times_reviewed + outcomes.len() <= u64::MAX,
    ensures
        replay_outcomes(s, outcomes).times_reviewed == s.times_reviewed + outcomes.len(),
        replay_outcomes(s, outcomes).times_recalled == s.times_recalled + count_recalled(outcomes),
        count_recalled(outcomes) <= outcomes.len(),
    decreases outcomes.len(),
{
    if outcomes.len() > 0 {
        let s1 = advance_state(s, outcomes[0]);
        lemma_review_counters(s1, outcomes.drop_first());
    }
}

} // verus!

