use speki::scheduler::{LearningItem, Status};
use speki::store::{from_row, to_row};

fn sample(status: Status) -> LearningItem {
    LearningItem {
        id: 7,
        question: "What is 2+2?".to_string(),
        answer: "4".to_string(),
        topic: 3,
        strength: 450,
        stability: 2500,
        status,
        suspended: true,
        source: Some(9),
        skip_from: 11,
        skip_duration: 12,
        last_review: 13,
        next_due: 14,
        completed_at: 15,
    }
}

#[test]
fn saved_item_loads_back_identical() {
    for status in [Status::Initiated, Status::Active, Status::Complete, Status::Resolved] {
        let row = to_row(&sample(status));
        let back = from_row(row).unwrap();
        let it = sample(status);
        assert_eq!(back.id, it.id);
        assert_eq!(back.question, it.question);
        assert_eq!(back.answer, it.answer);
        assert_eq!(back.topic, it.topic);
        assert_eq!(back.strength, it.strength);
        assert_eq!(back.stability, it.stability);
        assert_eq!(back.status, it.status);
        assert_eq!(back.suspended, it.suspended);
        assert_eq!(back.source, it.source);
        assert_eq!(back.skip_from, it.skip_from);
        assert_eq!(back.skip_duration, it.skip_duration);
        assert_eq!(back.last_review, it.last_review);
        assert_eq!(back.next_due, it.next_due);
        assert_eq!(back.completed_at, it.completed_at);
    }
}

#[test]
fn status_is_written_as_flags() {
    let row = to_row(&sample(Status::Resolved));
    assert!(!row.initiated && row.complete && row.resolved);
    let row = to_row(&sample(Status::Initiated));
    assert!(row.initiated && !row.complete && !row.resolved);
}

#[test]
fn resolved_without_complete_is_rejected() {
    let mut row = to_row(&sample(Status::Active));
    row.resolved = true;
    assert!(from_row(row).is_none());
}
