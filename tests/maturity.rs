use speki::error::CoreError;
use speki::maturity::{update, MemoryState, MAX_STABILITY, MAX_STRENGTH, MIN_STABILITY, MIN_STRENGTH};

#[test]
fn passing_grade_raises_stability_and_plans_from_last_review() {
    let st = MemoryState { strength: 200, stability: 1000 };
    let u = update(st, 4, 1_000_000, 900_000).unwrap();
    assert_eq!(u.stability, 3000);
    assert_eq!(u.strength, 600);
    assert_eq!(u.next_due, 900_000 + 259_200);
}

#[test]
fn higher_grade_gives_longer_interval() {
    let st = MemoryState { strength: 200, stability: 1000 };
    let g3 = update(st, 3, 1_000_000, 900_000).unwrap();
    let g4 = update(st, 4, 1_000_000, 900_000).unwrap();
    let g5 = update(st, 5, 1_000_000, 900_000).unwrap();
    assert_eq!(g3.next_due, 900_000 + 172_800);
    assert_eq!(g5.next_due, 900_000 + 345_600);
    assert!(g3.next_due < g4.next_due && g4.next_due < g5.next_due);
    assert_eq!(g3.strength, 400);
    assert_eq!(g5.strength, 800);
}

#[test]
fn failing_grade_resets_stability() {
    let st = MemoryState { strength: 200, stability: 50_000 };
    let u = update(st, 1, 1_000_000, 900_000).unwrap();
    assert_eq!(u.stability, MIN_STABILITY);
    assert_eq!(u.strength, MIN_STRENGTH);
    assert_eq!(u.next_due, 1_000_600);
    let u2 = update(MemoryState { strength: 500, stability: 2000 }, 0, 10, 0).unwrap();
    assert_eq!(u2.strength, 300);
    assert_eq!(u2.next_due, 610);
}

#[test]
fn grade_out_of_range_is_refused() {
    let st = MemoryState { strength: 200, stability: 1000 };
    assert_eq!(update(st, 6, 10, 0), Err(CoreError::InvalidGrade));
    assert_eq!(update(st, 255, 10, 0), Err(CoreError::InvalidGrade));
}

#[test]
fn values_are_clamped_to_bounds() {
    let high = MemoryState { strength: u64::MAX, stability: u64::MAX };
    let u = update(high, 5, 0, 0).unwrap();
    assert_eq!(u.stability, MAX_STABILITY);
    assert_eq!(u.strength, MAX_STRENGTH);
    assert_eq!(u.next_due, 315_360_000);
    let low = MemoryState { strength: 0, stability: 0 };
    let v = update(low, 2, 0, 0).unwrap();
    assert_eq!(v.strength, MIN_STRENGTH);
    assert_eq!(v.stability, MIN_STABILITY);
    let mut st = MemoryState { strength: 0, stability: 0 };
    for g in [5u8, 5, 5, 5, 5, 5, 5, 5, 5, 5, 0, 3, 5, 1, 5, 5, 5] {
        let u = update(st, g, 1000, 0).unwrap();
        assert!(u.strength >= MIN_STRENGTH && u.strength <= MAX_STRENGTH);
        assert!(u.stability >= MIN_STABILITY && u.stability <= MAX_STABILITY);
        assert!(u.next_due >= 1000);
        st = MemoryState { strength: u.strength, stability: u.stability };
    }
}

#[test]
fn due_time_is_never_before_now() {
    let st = MemoryState { strength: 200, stability: 1000 };
    let u = update(st, 3, 10_000_000, 0).unwrap();
    assert_eq!(u.next_due, 10_000_600);
    let w = update(st, 1, u64::MAX, 0).unwrap();
    assert_eq!(w.next_due, u64::MAX);
}
