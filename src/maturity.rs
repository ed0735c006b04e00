//! The memory model: how strength and stability change after a review.
//!
//! Strength and stability are fixed-point numbers with three decimals
//! (`1000` stands for `1.0`); stability counts days. Timestamps are seconds.
use vstd::prelude::*;

use crate::error::CoreError;

verus! {

pub const MIN_STRENGTH: u64 = 100;
pub const MAX_STRENGTH: u64 = 1000;
pub const MIN_STABILITY: u64 = 1000;
pub const MAX_STABILITY: u64 = 3650000;
/// What a failed review takes off the strength.
pub const FAIL_PENALTY: u64 = 200;
/// Lowest grade that counts as a pass.
pub const PASS_GRADE: u8 = 3;
pub const MAX_GRADE: u8 = 5;
/// Shortest time, in seconds, between two reviews of one item.
pub const MIN_INTERVAL: u64 = 600;

#[derive(Clone, Copy, Debug, PartialEq, Eq, Structural)]
pub struct MemoryState {
    pub strength: u64,
    pub stability: u64,
}

/// The outcome of one review: the new memory state and when the item is due.
#[derive(Clone, Copy, Debug, PartialEq, Eq, Structural)]
pub struct Update {
    pub strength: u64,
    pub stability: u64,
    pub next_due: u64,
}

pub open spec fn clamp(x: int, lo: int, hi: int) -> int {
    if x < lo {
        lo
    } else if x > hi {
        hi
    } else {
        x
    }
}

/// Adds two timestamps or durations, stopping at the largest `u64`.
pub open spec fn sat_add(a: int, b: int) -> int {
    if a + b > u64::MAX {
        u64::MAX as int
    } else {
        a + b
    }
}

pub open spec fn valid_grade(grade: u8) -> bool {
    grade <= MAX_GRADE
}

pub open spec fn passing(grade: u8) -> bool {
    PASS_GRADE <= grade
}

/// Seconds until the next review for a stability of `stab` thousandths of a day.
pub open spec fn interval(stab: int) -> int {
    stab * 864 / 10
}

pub open spec fn stability_after(stab: int, grade: u8) -> int {
    let s = clamp(stab, MIN_STABILITY as int, MAX_STABILITY as int);
    if passing(grade) {
        clamp(s * (grade - 1), MIN_STABILITY as int, MAX_STABILITY as int)
    } else {
        MIN_STABILITY as int
    }
}

pub open spec fn strength_after(strength: int, grade: u8) -> int {
    let s = clamp(strength, MIN_STRENGTH as int, MAX_STRENGTH as int);
    if passing(grade) {
        s + (MAX_STRENGTH - s) * (grade - 2) / 4
    } else {
        clamp(s - FAIL_PENALTY, MIN_STRENGTH as int, MAX_STRENGTH as int)
    }
}

pub open spec fn due_after(stab: int, grade: u8, now: int, last_review: int) -> int {
    let earliest = sat_add(now, MIN_INTERVAL as int);
    if passing(grade) {
        let planned = sat_add(last_review, interval(stability_after(stab, grade)));
        if planned < earliest {
            earliest
        } else {
            planned
        }
    } else {
        earliest
    }
}

pub open spec fn in_bounds(strength: int, stability: int) -> bool {
    MIN_STRENGTH <= strength <= MAX_STRENGTH && MIN_STABILITY <= stability <= MAX_STABILITY
}

fn clamp_u64(x: u64, lo: u64, hi: u64) -> (r: u64)
    requires
        lo <= hi,
    ensures
        r == clamp(x as int, lo as int, hi as int),
{
    if x < lo {
        lo
    } else if x > hi {
        hi
    } else {
        x
    }
}

fn add_sat(a: u64, b: u64) -> (r: u64)
    ensures
        r == sat_add(a as int, b as int),
{
    if a > u64::MAX - b {
        u64::MAX
    } else {
        a + b
    }
}

/// Computes the memory state after a review graded `grade` at `now`, for an
/// item last reviewed at `last_review`.
///
/// A failing grade resets stability to its minimum, takes `FAIL_PENALTY` off
/// the strength and makes the item due `MIN_INTERVAL` after `now`. A passing
/// grade multiplies stability by `grade - 1`, moves strength part of the way
/// towards its maximum, and makes the item due `interval(stability')` after
/// `last_review`, but never sooner than `MIN_INTERVAL` after `now`.
pub fn update(state: MemoryState, grade: u8, now: u64, last_review: u64) -> (r: Result<
    Update,
    CoreError,
>)
    ensures
        r is Err <==> !valid_grade(grade),
        r is Err ==> r == Err::<Update, CoreError>(CoreError::InvalidGrade),
        r matches Ok(u) ==> {
            &&& u.strength == strength_after(state.strength as int, grade)
            &&& u.stability == stability_after(state.stability as int, grade)
            &&& u.next_due == due_after(
                state.stability as int,
                grade,
                now as int,
                last_review as int,
            )
            &&& in_bounds(u.strength as int, u.stability as int)
            &&& u.next_due >= now
        },
{
    if grade > MAX_GRADE {
        return Err(CoreError::InvalidGrade);
    }
    let stab = clamp_u64(state.stability, MIN_STABILITY, MAX_STABILITY);
    let strength = clamp_u64(state.strength, MIN_STRENGTH, MAX_STRENGTH);
    let earliest = add_sat(now, MIN_INTERVAL);
    if grade >= PASS_GRADE {
        let factor: u64 = (grade - 1) as u64;
        assert(stab * factor <= MAX_STABILITY * 4) by (nonlinear_arith)
            requires
                stab <= MAX_STABILITY,
                factor <= 4,
        ;
        assert(stab * factor >= MIN_STABILITY) by (nonlinear_arith)
            requires
                stab >= MIN_STABILITY,
                factor >= 2,
        ;
        let new_stab = clamp_u64(stab * factor, MIN_STABILITY, MAX_STABILITY);
        let gap: u64 = MAX_STRENGTH - strength;
        let step_num: u64 = (grade - 2) as u64;
        assert(gap * step_num <= gap * 3) by (nonlinear_arith)
            requires
                step_num <= 3,
        ;
        assert(gap * step_num / 4 <= gap) by (nonlinear_arith)
            requires
                step_num <= 3,
                gap * step_num <= gap * 3,
        ;
        let new_strength = strength + gap * step_num / 4;
        let planned = add_sat(last_review, new_stab * 864 / 10);
        let due = if planned < earliest {
            earliest
        } else {
            planned
        };
        Ok(Update { strength: new_strength, stability: new_stab, next_due: due })
    } else {
        let new_strength = if strength < MIN_STRENGTH + FAIL_PENALTY {
            MIN_STRENGTH
        } else {
            strength - FAIL_PENALTY
        };
        Ok(Update { strength: new_strength, stability: MIN_STABILITY, next_due: earliest })
    }
}

/// Whatever the prior state and whatever valid grade, both strength and
/// stability end within their bounds, and the item is due no sooner than
/// `now`.
pub proof fn lemma_update_stays_in_bounds(state: MemoryState, grade: u8, now: u64, last_review: u64)
    requires
        valid_grade(grade),
    ensures
        in_bounds(
            strength_after(state.strength as int, grade),
            stability_after(state.stability as int, grade),
        ),
        due_after(state.stability as int, grade, now as int, last_review as int) >= now,
{
    let s = clamp(state.strength as int, MIN_STRENGTH as int, MAX_STRENGTH as int);
    if passing(grade) {
        assert((MAX_STRENGTH - s) * (grade - 2) / 4 <= MAX_STRENGTH - s) by (nonlinear_arith)
            requires
                s <= MAX_STRENGTH,
                2 <= grade - 2 + 2 <= 5,
        ;
        assert((MAX_STRENGTH - s) * (grade - 2) / 4 >= 0) by (nonlinear_arith)
            requires
                s <= MAX_STRENGTH,
                grade >= 2,
        ;
    }
}

/// A passing grade never lowers stability, and a higher passing grade never
/// gives a shorter planned interval.
pub proof fn lemma_pass_interval_monotonic(stab: int, g1: u8, g2: u8)
    requires
        passing(g1),
        g1 <= g2,
        valid_grade(g2),
    ensures
        stability_after(stab, g1) >= clamp(stab, MIN_STABILITY as int, MAX_STABILITY as int),
        stability_after(stab, g1) <= stability_after(stab, g2),
        interval(stability_after(stab, g1)) <= interval(stability_after(stab, g2)),
{
    let s = clamp(stab, MIN_STABILITY as int, MAX_STABILITY as int);
    assert(s * (g1 - 1) <= s * (g2 - 1)) by (nonlinear_arith)
        requires
            s >= 0,
            g1 <= g2,
    ;
    assert(s * (g1 - 1) >= s) by (nonlinear_arith)
        requires
            s >= 0,
            g1 >= 2,
    ;
    let a = stability_after(stab, g1);
    let b = stability_after(stab, g2);
    assert(a * 864 / 10 <= b * 864 / 10) by (nonlinear_arith)
        requires
            a <= b,
    ;
}

/// The memory state after reviews with `grades`, in order, starting from
/// strength `strength` and stability `stab`.
pub open spec fn replay(strength: int, stab: int, grades: Seq<u8>) -> (int, int)
    decreases grades.len(),
{
    if grades.len() == 0 {
        (strength, stab)
    } else {
        let (s, t) = replay(strength, stab, grades.drop_last());
        (strength_after(s, grades.last()), stability_after(t, grades.last()))
    }
}

/// After every non-empty sequence of valid grades, from any starting state,
/// strength and stability lie within their bounds.
pub proof fn lemma_replay_stays_in_bounds(strength: int, stab: int, grades: Seq<u8>)
    requires
        grades.len() > 0,
        forall|i: int| 0 <= i < grades.len() ==> valid_grade(#[trigger] grades[i]),
    ensures
        in_bounds(replay(strength, stab, grades).0, replay(strength, stab, grades).1),
{
    let (s, t) = replay(strength, stab, grades.drop_last());
    let g = grades.last();
    assert(valid_grade(grades[grades.len() - 1]));
    let m = clamp(s, MIN_STRENGTH as int, MAX_STRENGTH as int);
    if passing(g) {
        assert((MAX_STRENGTH - m) * (g - 2) / 4 <= MAX_STRENGTH - m) by (nonlinear_arith)
            requires
                m <= MAX_STRENGTH,
                2 <= g <= 5,
        ;
        assert((MAX_STRENGTH - m) * (g - 2) / 4 >= 0) by (nonlinear_arith)
            requires
                m <= MAX_STRENGTH,
                g >= 2,
        ;
    }
}

} // verus!
