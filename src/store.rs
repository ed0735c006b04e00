//! The flat form in which a learning item is stored: one column per field,
//! with the status written as the three flags of the cards table.
use vstd::prelude::*;

use crate::scheduler::{LearningItem, Status};

verus! {

pub struct CardRow {
    pub id: u64,
    pub question: String,
    pub answer: String,
    pub strength: u64,
    pub stability: u64,
    pub topic: u64,
    pub initiated: bool,
    pub complete: bool,
    pub resolved: bool,
    pub suspended: bool,
    pub source: Option<u64>,
    pub skiptime: u64,
    pub skipduration: u64,
    pub last_review: u64,
    pub next_due: u64,
    pub completed_at: u64,
}

/// The flags `(initiated, complete, resolved)` that stand for a status.
pub open spec fn flags_of(s: Status) -> (bool, bool, bool) {
    match s {
        Status::Initiated => (true, false, false),
        Status::Active => (false, false, false),
        Status::Complete => (false, true, false),
        Status::Resolved => (false, true, true),
    }
}

/// The status that three flags stand for; `None` for a combination that no
/// status writes.
pub open spec fn status_of_flags(initiated: bool, complete: bool, resolved: bool) -> Option<Status> {
    if initiated && !complete && !resolved {
        Some(Status::Initiated)
    } else if !initiated && !complete && !resolved {
        Some(Status::Active)
    } else if !initiated && complete && !resolved {
        Some(Status::Complete)
    } else if !initiated && complete && resolved {
        Some(Status::Resolved)
    } else {
        None
    }
}

pub open spec fn row_of(it: LearningItem) -> CardRow {
    let (initiated, complete, resolved) = flags_of(it.status);
    CardRow {
        id: it.id,
        question: it.question,
        answer: it.answer,
        strength: it.strength,
        stability: it.stability,
        topic: it.topic,
        initiated,
        complete,
        resolved,
        suspended: it.suspended,
        source: it.source,
        skiptime: it.skip_from,
        skipduration: it.skip_duration,
        last_review: it.last_review,
        next_due: it.next_due,
        completed_at: it.completed_at,
    }
}

pub open spec fn item_of_row(r: CardRow) -> Option<LearningItem> {
    match status_of_flags(r.initiated, r.complete, r.resolved) {
        Some(status) => Some(
            LearningItem {
                id: r.id,
                question: r.question,
                answer: r.answer,
                topic: r.topic,
                strength: r.strength,
                stability: r.stability,
                status,
                suspended: r.suspended,
                source: r.source,
                skip_from: r.skiptime,
                skip_duration: r.skipduration,
                last_review: r.last_review,
                next_due: r.next_due,
                completed_at: r.completed_at,
            },
        ),
        None => None,
    }
}

/// Writes an item as a row.
pub fn to_row(it: &LearningItem) -> (r: CardRow)
    ensures
        r == row_of(*it),
{
    let (initiated, complete, resolved) = match it.status {
        Status::Initiated => (true, false, false),
        Status::Active => (false, false, false),
        Status::Complete => (false, true, false),
        Status::Resolved => (false, true, true),
    };
    CardRow {
        id: it.id,
        question: it.question.clone(),
        answer: it.answer.clone(),
        strength: it.strength,
        stability: it.stability,
        topic: it.topic,
        initiated,
        complete,
        resolved,
        suspended: it.suspended,
        source: it.source,
        skiptime: it.skip_from,
        skipduration: it.skip_duration,
        last_review: it.last_review,
        next_due: it.next_due,
        completed_at: it.completed_at,
    }
}

/// Reads an item back from a row; `None` when the status flags do not
/// stand for any status.
pub fn from_row(r: CardRow) -> (res: Option<LearningItem>)
    ensures
        res == item_of_row(r),
{
    let status = if r.initiated && !r.complete && !r.resolved {
        Status::Initiated
    } else if !r.initiated && !r.complete && !r.resolved {
        Status::Active
    } else if !r.initiated && r.complete && !r.resolved {
        Status::Complete
    } else if !r.initiated && r.complete && r.resolved {
        Status::Resolved
    } else {
        return None;
    };
    Some(
        LearningItem {
            id: r.id,
            question: r.question,
            answer: r.answer,
            topic: r.topic,
            strength: r.strength,
            stability: r.stability,
            status,
            suspended: r.suspended,
            source: r.source,
            skip_from: r.skiptime,
            skip_duration: r.skipduration,
            last_review: r.last_review,
            next_due: r.next_due,
            completed_at: r.completed_at,
        },
    )
}

/// An item written as a row and read back is the same item, field for field.
pub proof fn lemma_row_round_trip(it: LearningItem)
    ensures
        item_of_row(row_of(it)) == Some(it),
{
}

/// A row whose flags stand for a status is read and written back unchanged.
pub proof fn lemma_valid_row_round_trip(r: CardRow)
    requires
        status_of_flags(r.initiated, r.complete, r.resolved) is Some,
    ensures
        item_of_row(r) matches Some(it) && row_of(it) == r,
{
}

} // verus!
