use speki::error::CoreError;
use speki::scheduler::{LearningItem, ReadingItem, Scheduler, Status};

fn with_items(n: u64, now: u64) -> Scheduler {
    let mut s = Scheduler::new();
    for i in 0..n {
        let id = s.add_item(format!("q{}", i), format!("a{}", i), 0, now);
        assert_eq!(id, i);
        assert_eq!(s.activate(id), Ok(()));
    }
    s
}

#[test]
fn new_item_is_initiated_and_not_offered() {
    let mut s = Scheduler::new();
    let id = s.add_item("q".to_string(), "a".to_string(), 0, 100);
    assert_eq!(s.get_item(id).unwrap().status, Status::Initiated);
    assert_eq!(s.next_due_item(100), None);
    assert_eq!(s.activate(id), Ok(()));
    assert_eq!(s.get_item(id).unwrap().status, Status::Active);
    assert_eq!(s.next_due_item(100), Some(0));
    assert_eq!(s.next_due_item(99), None);
}

#[test]
fn second_grade_at_same_time_is_not_due() {
    let mut s = with_items(1, 100);
    assert_eq!(s.grade_review(0, 4, 100, 5), Ok(()));
    assert_eq!(s.grade_review(0, 4, 100, 5), Err(CoreError::ItemNotDue));
    assert_eq!(s.review_log().len(), 1);
    let it = s.get_item(0).unwrap();
    assert_eq!(it.stability, 3000);
    assert_eq!(it.strength, 550);
    assert_eq!(it.next_due, 100 + 259_200);
    assert_eq!(it.last_review, 100);
    assert_eq!(it.status, Status::Active);
    let r = s.review_log()[0];
    assert_eq!((r.item, r.time, r.grade, r.latency), (0, 100, 4, 5));
}

#[test]
fn failing_grade_schedules_minimum_interval() {
    let mut s = with_items(1, 100);
    assert_eq!(s.grade_review(0, 0, 1000, 2), Ok(()));
    let it = s.get_item(0).unwrap();
    assert_eq!(it.stability, 1000);
    assert_eq!(it.next_due, 1600);
}

#[test]
fn item_completes_then_resolves() {
    let mut s = with_items(1, 0);
    assert_eq!(s.grade_review(0, 5, 0, 1), Ok(()));
    assert_eq!(s.get_item(0).unwrap().strength, 775);
    assert_eq!(s.get_item(0).unwrap().status, Status::Active);
    assert_eq!(s.get_item(0).unwrap().next_due, 345_600);
    assert_eq!(s.grade_review(0, 5, 345_600, 1), Ok(()));
    assert_eq!(s.get_item(0).unwrap().strength, 943);
    assert_eq!(s.get_item(0).unwrap().status, Status::Complete);
    assert_eq!(s.get_item(0).unwrap().completed_at, 345_600);
    assert_eq!(s.get_item(0).unwrap().next_due, 1_382_400);
    assert_eq!(s.next_due_item(2_000_000), None);
    assert_eq!(s.grade_review(0, 5, 1_382_400, 1), Ok(()));
    assert_eq!(s.get_item(0).unwrap().status, Status::Resolved);
}

#[test]
fn unresolved_dependency_is_never_offered() {
    let mut s = with_items(2, 10);
    assert_eq!(s.add_edge(0, 1), Ok(()));
    assert!(!s.is_unlocked(0));
    assert!(s.is_unlocked(1));
    assert_eq!(s.next_due_item(10), Some(1));
    assert_eq!(s.next_due_item(1_000_000_000), Some(1));
    assert_eq!(s.set_suspended(1, true), Ok(()));
    assert_eq!(s.next_due_item(1_000_000_000), None);
}

#[test]
fn resolving_the_dependency_unlocks() {
    let mut s = with_items(2, 0);
    assert_eq!(s.add_edge(0, 1), Ok(()));
    assert_eq!(s.grade_review(1, 5, 0, 1), Ok(()));
    assert_eq!(s.grade_review(1, 5, 345_600, 1), Ok(()));
    assert!(!s.is_unlocked(0));
    assert_eq!(s.grade_review(1, 5, 1_382_400, 1), Ok(()));
    assert!(s.is_unlocked(0));
    assert_eq!(s.next_due_item(1_382_400), Some(0));
    let id = s.add_item("q".to_string(), "a".to_string(), 0, 0);
    assert_eq!(s.add_edge(0, id), Ok(()));
    assert!(!s.is_unlocked(0));
}

#[test]
fn edge_errors() {
    let mut s = with_items(3, 0);
    assert_eq!(s.add_edge(0, 0), Err(CoreError::SelfDependency));
    assert_eq!(s.add_edge(0, 9), Err(CoreError::UnknownItem));
    assert_eq!(s.add_edge(0, 1), Ok(()));
    assert_eq!(s.add_edge(1, 2), Ok(()));
    assert_eq!(s.add_edge(2, 0), Err(CoreError::CycleDetected));
    assert_eq!(s.dependencies_of(2), Vec::<u64>::new());
    s.remove_edge(1, 2);
    s.remove_edge(1, 2);
    assert_eq!(s.add_edge(2, 0), Ok(()));
    assert_eq!(s.dependencies_of(2), vec![0]);
}

#[test]
fn grading_errors() {
    let mut s = with_items(1, 50);
    assert_eq!(s.grade_review(4, 3, 50, 1), Err(CoreError::UnknownItem));
    assert_eq!(s.grade_review(0, 3, 49, 1), Err(CoreError::ItemNotDue));
    assert_eq!(s.grade_review(0, 6, 50, 1), Err(CoreError::InvalidGrade));
    assert_eq!(s.set_suspended(0, true), Ok(()));
    assert_eq!(s.grade_review(0, 3, 50, 1), Err(CoreError::ItemSuspended));
    assert_eq!(s.review_log().len(), 0);
    assert_eq!(s.get_item(0).unwrap().stability, 1000);
    assert_eq!(s.set_suspended(5, true), Err(CoreError::UnknownItem));
    assert_eq!(s.activate(5), Err(CoreError::UnknownItem));
}

#[test]
fn ties_go_to_topic_position_then_identifier() {
    let mut s = Scheduler::new();
    assert_eq!(s.add_topic("late".to_string(), None, 5), Ok(0));
    assert_eq!(s.add_topic("early".to_string(), Some(0), 1), Ok(1));
    assert_eq!(s.add_topic("orphan".to_string(), Some(7), 0), Err(CoreError::UnknownItem));
    let a = s.add_item("a".to_string(), "a".to_string(), 0, 10);
    let b = s.add_item("b".to_string(), "b".to_string(), 1, 10);
    let c = s.add_item("c".to_string(), "c".to_string(), 1, 10);
    let d = s.add_item("d".to_string(), "d".to_string(), 0, 5);
    for id in [a, b, c] {
        assert_eq!(s.activate(id), Ok(()));
    }
    assert_eq!(s.next_due_item(10), Some(b));
    assert_eq!(s.activate(d), Ok(()));
    assert_eq!(s.next_due_item(10), Some(d));
    assert_eq!(s.get_topic(1).unwrap().parent, Some(0));
}

#[test]
fn skip_window_hides_item_until_it_ends() {
    let mut s = with_items(1, 0);
    assert_eq!(s.suspend(0, 10, 100), Ok(()));
    assert_eq!(s.next_due_item(50), None);
    assert_eq!(s.next_due_item(110), Some(0));
    assert_eq!(s.unsuspend(0), Ok(()));
    assert_eq!(s.next_due_item(50), Some(0));
    assert_eq!(s.suspend(3, 0, 1), Err(CoreError::UnknownItem));
    assert_eq!(s.unsuspend(3), Err(CoreError::UnknownItem));
}

#[test]
fn excerpts_are_distinct_children() {
    let mut s = Scheduler::new();
    let src = s.add_reading(4, "a long text".to_string());
    let c1 = s.excerpt(src, "a long".to_string()).unwrap();
    let c2 = s.excerpt(src, "text".to_string()).unwrap();
    assert_ne!(c1, c2);
    for c in [c1, c2] {
        let r = s.get_reading(c).unwrap();
        assert!(r.active);
        assert_eq!(r.parent, Some(src));
        assert_eq!(r.topic, 4);
    }
    assert_eq!(s.get_reading(c2).unwrap().text, "text");
    let p = s.get_reading(src).unwrap();
    assert!(p.active);
    assert_eq!(p.text, "a long text");
    assert_eq!(p.parent, None);
    assert_eq!(s.excerpt(99, "x".to_string()), Err(CoreError::UnknownItem));
}

#[test]
fn promotion_creates_initiated_item() {
    let mut s = Scheduler::new();
    let src = s.add_reading(2, "text".to_string());
    let id = s.promote(src, "q".to_string(), "a".to_string(), 7).unwrap();
    let it = s.get_item(id).unwrap();
    assert_eq!(it.status, Status::Initiated);
    assert_eq!(it.source, Some(src));
    assert_eq!(it.topic, 2);
    assert_eq!(it.question, "q");
    assert_eq!(it.strength, speki::maturity::MIN_STRENGTH);
    assert_eq!(it.stability, speki::maturity::MIN_STABILITY);
    assert_eq!((it.next_due, it.last_review, it.skip_from, it.skip_duration), (7, 7, 7, 0));
    assert!(!s.get_reading(src).unwrap().active);
    assert_eq!(s.next_due_item(7), None);
    assert_eq!(s.promote(5, "q".to_string(), "a".to_string(), 7), Err(CoreError::UnknownItem));
}

#[test]
fn reading_rotation_skips_inactive() {
    let mut s = Scheduler::new();
    assert_eq!(s.next_due_reading(), None);
    for i in 0..3u64 {
        assert_eq!(s.add_reading(0, format!("t{}", i)), i);
    }
    assert_eq!(s.promote(1, "q".to_string(), "a".to_string(), 0), Ok(0));
    assert_eq!(s.next_due_reading(), Some(0));
    assert_eq!(s.next_due_reading(), Some(2));
    assert_eq!(s.next_due_reading(), Some(0));
    assert_eq!(s.promote(0, "q".to_string(), "a".to_string(), 0), Ok(1));
    assert_eq!(s.promote(2, "q".to_string(), "a".to_string(), 0), Ok(2));
    assert_eq!(s.next_due_reading(), None);
    assert_eq!(s.reading_count(), 3);
    assert_eq!(s.item_count(), 3);
}

#[test]
fn restored_items_keep_their_place() {
    let mut s = Scheduler::new();
    let it = LearningItem {
        id: 0,
        question: "q".to_string(),
        answer: "a".to_string(),
        topic: 0,
        strength: 300,
        stability: 2000,
        status: Status::Active,
        suspended: false,
        source: None,
        skip_from: 0,
        skip_duration: 0,
        last_review: 0,
        next_due: 40,
        completed_at: 0,
    };
    assert_eq!(s.restore_item(it), Ok(0));
    assert_eq!(s.next_due_item(40), Some(0));
    let wrong = LearningItem {
        id: 5,
        question: String::new(),
        answer: String::new(),
        topic: 0,
        strength: 0,
        stability: 0,
        status: Status::Active,
        suspended: false,
        source: None,
        skip_from: 0,
        skip_duration: 0,
        last_review: 0,
        next_due: 0,
        completed_at: 0,
    };
    assert_eq!(s.restore_item(wrong), Err(CoreError::UnknownItem));
    let root = ReadingItem { id: 0, parent: None, topic: 1, text: "t".to_string(), active: true };
    assert_eq!(s.restore_reading(root), Ok(0));
    let bad = ReadingItem { id: 1, parent: Some(1), topic: 1, text: "u".to_string(), active: true };
    assert_eq!(s.restore_reading(bad), Err(CoreError::UnknownItem));
    let child = ReadingItem { id: 1, parent: Some(0), topic: 1, text: "u".to_string(), active: true };
    assert_eq!(s.restore_reading(child), Ok(1));
    assert_eq!(s.reading_count(), 2);
}
