use spaced_review::errors::SchedulingError;
use spaced_review::scheduling::{advance, Outcome, SchedulingState};

fn p6_state() -> SchedulingState {
    // interval 1, difficulty 0.3, memory strength 0.5, adjusting factor 1.3,
    // written in the engine's thousandth units.
    SchedulingState {
        interval: 1,
        difficulty: 300,
        memory_strength: 500,
        adjusting_factor: 1300,
        times_reviewed: 0,
        times_recalled: 0,
    }
}

#[test]
fn easy_raises_factor_and_due_is_now_plus_rounded_interval() {
    let now = 1000;
    let (next, due) = advance(p6_state(), Outcome::Easy, 5, now).unwrap();
    // the factor grows past 1.3 (by the documented 0.15 step)
    assert!(next.adjusting_factor > 1300);
    assert_eq!(next.adjusting_factor, 1450);
    // next_due = now + round(1 * 1.45) = now + 1
    assert_eq!(next.interval, 1);
    assert_eq!(due, now + 1);
    assert_eq!(next.times_reviewed, 1);
    assert_eq!(next.times_recalled, 1);
    // strength moved a quarter of the way toward certain recall
    assert_eq!(next.memory_strength, 625);
    // difficulty is carried along untouched
    assert_eq!(next.difficulty, 300);
}

#[test]
fn hard_lowers_factor_and_interval_stays_at_least_one() {
    let now = 1000;
    let (next, due) = advance(p6_state(), Outcome::Hard, 5, now).unwrap();
    // the factor shrinks below 1.3 (by the documented 0.2 step)
    assert!(next.adjusting_factor < 1300);
    assert_eq!(next.adjusting_factor, 1100);
    // interval' = max(1, round(1 * 1.1)) = 1, never below 1
    assert!(next.interval >= 1);
    assert_eq!(next.interval, 1);
    assert_eq!(due, now + 1);
    assert_eq!(next.times_reviewed, 1);
    assert_eq!(next.times_recalled, 0);
    assert_eq!(next.memory_strength, 375);
}

#[test]
fn normal_keeps_factor_and_counts_the_recall() {
    let (next, _) = advance(p6_state(), Outcome::Normal, 5, 0).unwrap();
    assert_eq!(next.adjusting_factor, 1300);
    assert_eq!(next.times_reviewed, 1);
    assert_eq!(next.times_recalled, 1);
}

#[test]
fn factor_never_falls_below_its_floor() {
    let mut state = p6_state();
    state.adjusting_factor = 1050;
    let (next, _) = advance(state, Outcome::Hard, 0, 0).unwrap();
    assert_eq!(next.adjusting_factor, 1000);
    let (again, _) = advance(next, Outcome::Hard, 0, 0).unwrap();
    assert_eq!(again.adjusting_factor, 1000);
}

#[test]
fn review_counters_over_a_sequence_of_submissions() {
    // three committed submissions: times_reviewed == 3 and
    // 0 <= times_recalled <= 3, exactly the successful ones.
    let mut state = p6_state();
    let outcomes = [Outcome::Easy, Outcome::Hard, Outcome::Normal];
    for o in outcomes {
        let (next, _) = advance(state, o, 1, 100).unwrap();
        state = next;
    }
    assert_eq!(state.times_reviewed, 3);
    assert_eq!(state.times_recalled, 2);
    assert!(state.times_recalled <= state.times_reviewed);
}

#[test]
fn corrupt_state_is_rejected() {
    let mut bad = p6_state();
    bad.times_recalled = 5; // more recalls than reviews
    assert_eq!(advance(bad, Outcome::Easy, 0, 0), Err(SchedulingError::CorruptState));
    let mut zero = p6_state();
    zero.interval = 0; // intervals start at 1
    assert_eq!(advance(zero, Outcome::Easy, 0, 0), Err(SchedulingError::CorruptState));
}

#[test]
fn due_saturates_at_the_top_of_the_timestamp_range() {
    let (_, due) = advance(p6_state(), Outcome::Normal, 0, u64::MAX - 1).unwrap();
    assert_eq!(due, u64::MAX);
}

#[test]
fn grade_codes_decode_to_outcomes() {
    assert_eq!(Outcome::from_code(1), Ok(Outcome::Easy));
    assert_eq!(Outcome::from_code(2), Ok(Outcome::Normal));
    assert_eq!(Outcome::from_code(3), Ok(Outcome::Hard));
    assert_eq!(Outcome::from_code(0), Err(SchedulingError::InvalidOutcome));
    assert_eq!(Outcome::from_code(9), Err(SchedulingError::InvalidOutcome));
}
