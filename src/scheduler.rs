//! The review scheduler: learning items, their prerequisite graph, the
//! review log, topics and reading material, with the transitions between
//! them.
use vstd::prelude::*;

use crate::error::CoreError;
use crate::graph::DependencyGraph;
use crate::maturity::{
    clamp, due_after, interval, passing, stability_after, strength_after, update, valid_grade,
    MemoryState, MAX_STABILITY, MIN_INTERVAL, MIN_STABILITY, MIN_STRENGTH,
};

verus! {

/// Strength from which an active item counts as complete.
pub const COMPLETION_THRESHOLD: u64 = 900;
/// Seconds that must pass after completion before an item is resolved.
pub const STABILIZATION_WINDOW: u64 = 604800;

/// The primary state of a learning item.
#[derive(Clone, Copy, Debug, PartialEq, Eq, Structural)]
pub enum Status {
    Initiated,
    Active,
    Complete,
    Resolved,
}

/// A question and answer under spaced review. Its identifier is its place in
/// the scheduler.
pub struct LearningItem {
    pub id: u64,
    pub question: String,
    pub answer: String,
    pub topic: u64,
    pub strength: u64,
    pub stability: u64,
    pub status: Status,
    pub suspended: bool,
    /// The reading item this one was promoted from, if any.
    pub source: Option<u64>,
    pub skip_from: u64,
    pub skip_duration: u64,
    pub last_review: u64,
    pub next_due: u64,
    /// When the item became complete; meaningful once it has.
    pub completed_at: u64,
}

/// One graded review, never changed once written.
#[derive(Clone, Copy, Debug, PartialEq, Eq, Structural)]
pub struct ReviewRecord {
    pub item: u64,
    pub time: u64,
    pub grade: u8,
    pub latency: u64,
}

pub struct Topic {
    pub id: u64,
    pub name: String,
    pub parent: Option<u64>,
    /// Place among its siblings.
    pub relpos: u64,
}

/// A piece of source text, to be excerpted or promoted.
pub struct ReadingItem {
    pub id: u64,
    pub parent: Option<u64>,
    pub topic: u64,
    pub text: String,
    pub active: bool,
}

pub open spec fn skip_elapsed(it: LearningItem, now: u64) -> bool {
    now >= it.skip_from + it.skip_duration
}

pub open spec fn is_resolved(items: Seq<LearningItem>, id: u64) -> bool {
    id < items.len() && items[id as int].status == Status::Resolved
}

/// Every direct prerequisite of `id` is resolved.
pub open spec fn unlocked(g: Set<(u64, u64)>, items: Seq<LearningItem>, id: u64) -> bool {
    forall|dep: u64| #[trigger] g.contains((id, dep)) ==> is_resolved(items, dep)
}

/// The item at `k` may be offered for review at `now`.
pub open spec fn eligible(g: Set<(u64, u64)>, items: Seq<LearningItem>, k: int, now: u64) -> bool {
    &&& 0 <= k < items.len()
    &&& items[k].status == Status::Active
    &&& !items[k].suspended
    &&& skip_elapsed(items[k], now)
    &&& unlocked(g, items, k as u64)
    &&& items[k].next_due <= now
}

pub open spec fn topic_pos(topics: Seq<Topic>, t: u64) -> u64 {
    if t < topics.len() {
        topics[t as int].relpos
    } else {
        0
    }
}

/// The item at `j` comes no later than the one at `k`: by due time, then by
/// the topic's position, then by identifier.
pub open spec fn comes_first(items: Seq<LearningItem>, topics: Seq<Topic>, j: int, k: int) -> bool {
    let (a, b) = (items[j], items[k]);
    let (pa, pb) = (topic_pos(topics, a.topic), topic_pos(topics, b.topic));
    a.next_due < b.next_due || (a.next_due == b.next_due && (pa < pb || (pa == pb && j <= k)))
}

/// The status after a review at `now` that leaves strength `strength`.
pub open spec fn status_after(it: LearningItem, strength: u64, now: u64) -> Status {
    if it.status == Status::Active && strength >= COMPLETION_THRESHOLD {
        Status::Complete
    } else if it.status == Status::Complete && now - it.completed_at > STABILIZATION_WINDOW {
        Status::Resolved
    } else {
        it.status
    }
}

/// The item after a review with a valid grade at `now`.
pub open spec fn graded(it: LearningItem, grade: u8, now: u64) -> LearningItem {
    let strength = strength_after(it.strength as int, grade) as u64;
    LearningItem {
        strength,
        stability: stability_after(it.stability as int, grade) as u64,
        next_due: due_after(it.stability as int, grade, now as int, it.last_review as int) as u64,
        last_review: now,
        status: status_after(it, strength, now),
        completed_at: if it.status == Status::Active && strength >= COMPLETION_THRESHOLD {
            now
        } else {
            it.completed_at
        },
        ..it
    }
}

/// What `grade_review` refuses, in the order it checks.
pub open spec fn grade_error(items: Seq<LearningItem>, id: u64, grade: u8, now: u64) -> Option<
    CoreError,
> {
    if id >= items.len() {
        Some(CoreError::UnknownItem)
    } else if items[id as int].suspended {
        Some(CoreError::ItemSuspended)
    } else if now < items[id as int].next_due {
        Some(CoreError::ItemNotDue)
    } else if !valid_grade(grade) {
        Some(CoreError::InvalidGrade)
    } else {
        None
    }
}

pub struct Scheduler {
    items: Vec<LearningItem>,
    graph: DependencyGraph,
    reviews: Vec<ReviewRecord>,
    topics: Vec<Topic>,
    readings: Vec<ReadingItem>,
    cursor: usize,
}

impl Scheduler {
    pub closed spec fn items(&self) -> Seq<LearningItem> {
        self.items@
    }

    pub closed spec fn edges(&self) -> Set<(u64, u64)> {
        self.graph@
    }

    pub closed spec fn reviews(&self) -> Seq<ReviewRecord> {
        self.reviews@
    }

    pub closed spec fn topics(&self) -> Seq<Topic> {
        self.topics@
    }

    pub closed spec fn readings(&self) -> Seq<ReadingItem> {
        self.readings@
    }

    /// Where the rotation over reading items stands.
    pub closed spec fn cursor(&self) -> nat {
        self.cursor as nat
    }

    pub closed spec fn wf(&self) -> bool {
        &&& self.graph.wf()
        &&& self.items@.len() < u64::MAX
        &&& self.readings@.len() < u64::MAX
        &&& self.topics@.len() < u64::MAX
        &&& self.cursor <= self.readings@.len()
        &&& forall|i: int| 0 <= i < self.items@.len() ==> (#[trigger] self.items@[i]).id == i
        &&& forall|i: int| 0 <= i < self.topics@.len() ==> (#[trigger] self.topics@[i]).id == i
        &&& forall|i: int|
            0 <= i < self.readings@.len() ==> (#[trigger] self.readings@[i]).id == i
        &&& forall|i: int|
            0 <= i < self.topics@.len() ==> match (#[trigger] self.topics@[i]).parent {
                Some(p) => p < i,
                None => true,
            }
        &&& forall|i: int|
            0 <= i < self.readings@.len() ==> match (#[trigger] self.readings@[i]).parent {
                Some(p) => p < i,
                None => true,
            }
    }

    pub fn new() -> (r: Self)
        ensures
            r.wf(),
            r.items().len() == 0,
            r.edges().is_empty(),
            r.reviews().len() == 0,
            r.topics().len() == 0,
            r.readings().len() == 0,
    {
        Scheduler {
            items: Vec::new(),
            graph: DependencyGraph::new(),
            reviews: Vec::new(),
            topics: Vec::new(),
            readings: Vec::new(),
            cursor: 0,
        }
    }

    /// Adds a topic under `parent` (none for the root) and returns its identifier.
    pub fn add_topic(&mut self, name: String, parent: Option<u64>, relpos: u64) -> (r: Result<
        u64,
        CoreError,
    >)
        requires
            old(self).wf(),
            old(self).topics().len() + 1 < u64::MAX,
        ensures
            final(self).wf(),
            r is Err <==> (parent matches Some(p) && p >= old(self).topics().len()),
            r is Err ==> r == Err::<u64, CoreError>(CoreError::UnknownItem) && *final(self)
                == *old(self),
            r matches Ok(id) ==> {
                &&& id == old(self).topics().len()
                &&& final(self).topics().len() == old(self).topics().len() + 1
                &&& final(self).topics().drop_last() == old(self).topics()
                &&& final(self).topics().last().name@ == name@
                &&& final(self).topics().last().parent == parent
                &&& final(self).topics().last().relpos == relpos
                &&& final(self).items() == old(self).items()
                &&& final(self).readings() == old(self).readings()
                &&& final(self).edges() == old(self).edges()
            },
    {
        if let Some(p) = parent {
            if p >= self.topics.len() as u64 {
                return Err(CoreError::UnknownItem);
            }
        }
        let id = self.topics.len() as u64;
        self.topics.push(Topic { id, name, parent, relpos });
        assert(self.topics@.drop_last() =~= old(self).topics@);
        Ok(id)
    }

    /// Creates a learning item in the `Initiated` state, due at `now`, and
    /// returns its identifier.
    pub fn add_item(&mut self, question: String, answer: String, topic: u64, now: u64) -> (r: u64)
        requires
            old(self).wf(),
            old(self).items().len() + 1 < u64::MAX,
        ensures
            final(self).wf(),
            r == old(self).items().len(),
            final(self).items().drop_last() == old(self).items(),
            final(self).items().len() == old(self).items().len() + 1,
            ({
                let it = final(self).items().last();
                &&& it.id == r
                &&& it.question@ == question@
                &&& it.answer@ == answer@
                &&& it.topic == topic
                &&& it.status == Status::Initiated
                &&& !it.suspended
                &&& it.source is None
                &&& it.strength == MIN_STRENGTH
                &&& it.stability == MIN_STABILITY
                &&& it.next_due == now
                &&& it.last_review == now
                &&& it.skip_from == now
                &&& it.skip_duration == 0
            }),
            final(self).edges() == old(self).edges(),
            final(self).reviews() == old(self).reviews(),
            final(self).topics() == old(self).topics(),
            final(self).readings() == old(self).readings(),
    {
        self.push_item(question, answer, topic, None, now)
    }

    fn push_item(&mut self, question: String, answer: String, topic: u64, source: Option<u64>, now: u64) -> (r: u64)
        requires
            old(self).wf(),
            old(self).items().len() + 1 < u64::MAX,
        ensures
            final(self).wf(),
            r == old(self).items().len(),
            final(self).items().drop_last() == old(self).items(),
            final(self).items().len() == old(self).items().len() + 1,
            ({
                let it = final(self).items().last();
                &&& it.id == r
                &&& it.question@ == question@
                &&& it.answer@ == answer@
                &&& it.topic == topic
                &&& it.status == Status::Initiated
                &&& !it.suspended
                &&& it.source == source
                &&& it.strength == MIN_STRENGTH
                &&& it.stability == MIN_STABILITY
                &&& it.next_due == now
                &&& it.last_review == now
                &&& it.skip_from == now
                &&& it.skip_duration == 0
            }),
            final(self).edges() == old(self).edges(),
            final(self).reviews() == old(self).reviews(),
            final(self).topics() == old(self).topics(),
            final(self).readings() == old(self).readings(),
            final(self).cursor() == old(self).cursor(),
    {
        let id = self.items.len() as u64;
        self.items.push(
            LearningItem {
                id,
                question,
                answer,
                topic,
                strength: MIN_STRENGTH,
                stability: MIN_STABILITY,
                status: Status::Initiated,
                suspended: false,
                source,
                skip_from: now,
                skip_duration: 0,
                last_review: now,
                next_due: now,
                completed_at: 0,
            },
        );
        assert(self.items@.drop_last() =~= old(self).items@);
        id
    }

    /// Whether every direct prerequisite of `id` is resolved.
    pub fn is_unlocked(&self, id: u64) -> (r: bool)
        requires
            self.wf(),
        ensures
            r == unlocked(self.edges(), self.items(), id),
    {
        let deps = self.graph.dependencies_of(id);
        let mut i: usize = 0;
        while i < deps.len()
            invariant
                0 <= i <= deps.len(),
                forall|x: u64| deps@.contains(x) <==> self.graph@.contains((id, x)),
                forall|k: int| 0 <= k < i ==> is_resolved(self.items@, #[trigger] deps@[k]),
            decreases deps.len() - i,
        {
            let d = deps[i];
            if d >= self.items.len() as u64 || self.items[d as usize].status != Status::Resolved {
                assert(deps@.contains(d));
                return false;
            }
            i += 1;
        }
        proof {
            assert forall|dep: u64| #[trigger] self.graph@.contains((id, dep)) implies is_resolved(self.items@, dep) by {
                assert(deps@.contains(dep));
                let k = choose|k: int| 0 <= k < deps@.len() && deps@[k] == dep;
            }
        }
        true
    }

    /// Records a review of item `id` with `grade` at `now`, taking
    /// `latency` seconds. Refuses an unknown or suspended item, an item that
    /// is not yet due and an invalid grade; a refusal changes nothing.
    pub fn grade_review(&mut self, id: u64, grade: u8, now: u64, latency: u64) -> (r: Result<
        (),
        CoreError,
    >)
        requires
            old(self).wf(),
        ensures
            final(self).wf(),
            match grade_error(old(self).items(), id, grade, now) {
                Some(e) => r == Err::<(), CoreError>(e) && *final(self) == *old(self),
                None => {
                    &&& r is Ok
                    &&& final(self).items() == old(self).items().update(
                        id as int,
                        graded(old(self).items()[id as int], grade, now),
                    )
                    &&& final(self).reviews() == old(self).reviews().push(
                        ReviewRecord { item: id, time: now, grade, latency },
                    )
                    &&& final(self).edges() == old(self).edges()
                    &&& final(self).topics() == old(self).topics()
                    &&& final(self).readings() == old(self).readings()
                },
            },
    {
        if id >= self.items.len() as u64 {
            return Err(CoreError::UnknownItem);
        }
        let k = id as usize;
        if self.items[k].suspended {
            return Err(CoreError::ItemSuspended);
        }
        if now < self.items[k].next_due {
            return Err(CoreError::ItemNotDue);
        }
        let state = MemoryState { strength: self.items[k].strength, stability: self.items[k].stability };
        let u = match update(state, grade, now, self.items[k].last_review) {
            Ok(u) => u,
            Err(e) => {
                return Err(e);
            },
        };
        let status = self.items[k].status;
        let completed_at = self.items[k].completed_at;
        let ghost before = self.items@[k as int];
        let (new_status, new_completed) = if status == Status::Active && u.strength
            >= COMPLETION_THRESHOLD {
            (Status::Complete, now)
        } else if status == Status::Complete && now >= completed_at && now - completed_at
            > STABILIZATION_WINDOW {
            (Status::Resolved, completed_at)
        } else {
            (status, completed_at)
        };
        assert(new_status == status_after(before, u.strength, now));
        self.items[k].strength = u.strength;
        self.items[k].stability = u.stability;
        self.items[k].next_due = u.next_due;
        self.items[k].last_review = now;
        self.items[k].status = new_status;
        self.items[k].completed_at = new_completed;
        self.reviews.push(ReviewRecord { item: id, time: now, grade, latency });
        assert(self.items@ =~= old(self).items@.update(id as int, graded(before, grade, now)));
        Ok(())
    }

    fn is_eligible(&self, k: usize, now: u64) -> (r: bool)
        requires
            self.wf(),
            k < self.items().len(),
        ensures
            r == eligible(self.edges(), self.items(), k as int, now),
    {
        let it = &self.items[k];
        if it.status != Status::Active || it.suspended || it.next_due > now {
            return false;
        }
        if it.skip_from > now || now - it.skip_from < it.skip_duration {
            return false;
        }
        self.is_unlocked(k as u64)
    }

    fn topic_position(&self, t: u64) -> (r: u64)
        ensures
            r == topic_pos(self.topics(), t),
    {
        if t < self.topics.len() as u64 {
            self.topics[t as usize].relpos
        } else {
            0
        }
    }

    /// The item to review next at `now`: among the eligible items, the one
    /// due earliest, then in the lowest topic position, then with the lowest
    /// identifier. `None` when nothing is eligible.
    pub fn next_due_item(&self, now: u64) -> (r: Option<u64>)
        requires
            self.wf(),
        ensures
            r is None <==> forall|k: int| !eligible(self.edges(), self.items(), k, now),
            r matches Some(id) ==> {
                &&& eligible(self.edges(), self.items(), id as int, now)
                &&& forall|k: int|
                    eligible(self.edges(), self.items(), k, now) ==> comes_first(
                        self.items(),
                        self.topics(),
                        id as int,
                        k,
                    )
            },
    {
        let mut best: Option<usize> = None;
        let mut i: usize = 0;
        while i < self.items.len()
            invariant
                self.wf(),
                0 <= i <= self.items@.len(),
                best is None ==> forall|k: int|
                    0 <= k < i ==> !eligible(self.edges(), self.items(), k, now),
                best matches Some(b) ==> {
                    &&& b < i
                    &&& eligible(self.edges(), self.items(), b as int, now)
                    &&& forall|k: int|
                        0 <= k < i && eligible(self.edges(), self.items(), k, now) ==> comes_first(
                            self.items(),
                            self.topics(),
                            b as int,
                            k,
                        )
                },
            decreases self.items@.len() - i,
        {
            if self.is_eligible(i, now) {
                match best {
                    None => {
                        best = Some(i);
                    },
                    Some(b) => {
                        let (db, di) = (self.items[b].next_due, self.items[i].next_due);
                        let pb = self.topic_position(self.items[b].topic);
                        let pi = self.topic_position(self.items[i].topic);
                        if di < db || (di == db && pi < pb) {
                            best = Some(i);
                        }
                    },
                }
            }
            i += 1;
        }
        match best {
            None => None,
            Some(b) => {
                assert(self.items@[b as int].id == b);
                Some(b as u64)
            },
        }
    }

    /// Moves an `Initiated` item to `Active`; any other status stays.
    pub fn activate(&mut self, id: u64) -> (r: Result<(), CoreError>)
        requires
            old(self).wf(),
        ensures
            final(self).wf(),
            r is Err <==> id >= old(self).items().len(),
            r is Err ==> r == Err::<(), CoreError>(CoreError::UnknownItem) && *final(self)
                == *old(self),
            r is Ok ==> final(self).items() == old(self).items().update(
                id as int,
                LearningItem {
                    status: if old(self).items()[id as int].status == Status::Initiated {
                        Status::Active
                    } else {
                        old(self).items()[id as int].status
                    },
                    ..old(self).items()[id as int]
                },
            ),
            final(self).edges() == old(self).edges(),
            final(self).reviews() == old(self).reviews(),
            final(self).readings() == old(self).readings(),
            final(self).topics() == old(self).topics(),
    {
        if id >= self.items.len() as u64 {
            return Err(CoreError::UnknownItem);
        }
        let k = id as usize;
        if self.items[k].status == Status::Initiated {
            self.items[k].status = Status::Active;
        }
        assert(self.items@ =~= old(self).items@.update(
            id as int,
            LearningItem {
                status: if old(self).items@[id as int].status == Status::Initiated {
                    Status::Active
                } else {
                    old(self).items@[id as int].status
                },
                ..old(self).items@[id as int]
            },
        ));
        Ok(())
    }

    /// Sets or clears the suspended flag of item `id`.
    pub fn set_suspended(&mut self, id: u64, suspended: bool) -> (r: Result<(), CoreError>)
        requires
            old(self).wf(),
        ensures
            final(self).wf(),
            r is Err <==> id >= old(self).items().len(),
            r is Err ==> r == Err::<(), CoreError>(CoreError::UnknownItem) && *final(self)
                == *old(self),
            r is Ok ==> final(self).items() == old(self).items().update(
                id as int,
                LearningItem { suspended, ..old(self).items()[id as int] },
            ),
            final(self).edges() == old(self).edges(),
            final(self).reviews() == old(self).reviews(),
            final(self).readings() == old(self).readings(),
            final(self).topics() == old(self).topics(),
    {
        if id >= self.items.len() as u64 {
            return Err(CoreError::UnknownItem);
        }
        self.items[id as usize].suspended = suspended;
        assert(self.items@ =~= old(self).items@.update(
            id as int,
            LearningItem { suspended, ..old(self).items@[id as int] },
        ));
        Ok(())
    }

    /// Keeps item `id` out of review for `duration` seconds from `now`.
    pub fn suspend(&mut self, id: u64, now: u64, duration: u64) -> (r: Result<(), CoreError>)
        requires
            old(self).wf(),
        ensures
            final(self).wf(),
            r is Err <==> id >= old(self).items().len(),
            r is Err ==> r == Err::<(), CoreError>(CoreError::UnknownItem) && *final(self)
                == *old(self),
            r is Ok ==> final(self).items() == old(self).items().update(
                id as int,
                LearningItem { skip_from: now, skip_duration: duration, ..old(self).items()[id as int] },
            ),
            final(self).edges() == old(self).edges(),
            final(self).reviews() == old(self).reviews(),
            final(self).readings() == old(self).readings(),
            final(self).topics() == old(self).topics(),
    {
        if id >= self.items.len() as u64 {
            return Err(CoreError::UnknownItem);
        }
        self.items[id as usize].skip_from = now;
        self.items[id as usize].skip_duration = duration;
        assert(self.items@ =~= old(self).items@.update(
            id as int,
            LearningItem { skip_from: now, skip_duration: duration, ..old(self).items@[id as int] },
        ));
        Ok(())
    }

    /// Clears the skip window of item `id` at once.
    pub fn unsuspend(&mut self, id: u64) -> (r: Result<(), CoreError>)
        requires
            old(self).wf(),
        ensures
            final(self).wf(),
            r is Err <==> id >= old(self).items().len(),
            r is Err ==> r == Err::<(), CoreError>(CoreError::UnknownItem) && *final(self)
                == *old(self),
            r is Ok ==> final(self).items() == old(self).items().update(
                id as int,
                LearningItem { skip_duration: 0, ..old(self).items()[id as int] },
            ),
            r is Ok ==> forall|now: u64| #[trigger] skip_elapsed(final(self).items()[id as int], now)
                <== now >= old(self).items()[id as int].skip_from,
            final(self).edges() == old(self).edges(),
            final(self).reviews() == old(self).reviews(),
            final(self).readings() == old(self).readings(),
            final(self).topics() == old(self).topics(),
    {
        if id >= self.items.len() as u64 {
            return Err(CoreError::UnknownItem);
        }
        self.items[id as usize].skip_duration = 0;
        assert(self.items@ =~= old(self).items@.update(
            id as int,
            LearningItem { skip_duration: 0, ..old(self).items@[id as int] },
        ));
        Ok(())
    }

    /// Makes item `dependent` wait for item `dependency`. Both must exist;
    /// the graph refuses self-dependencies and cycles.
    pub fn add_edge(&mut self, dependent: u64, dependency: u64) -> (r: Result<(), CoreError>)
        requires
            old(self).wf(),
        ensures
            final(self).wf(),
            dependent >= old(self).items().len() || dependency >= old(self).items().len() ==> r
                == Err::<(), CoreError>(CoreError::UnknownItem),
            dependent < old(self).items().len() && dependency < old(self).items().len() ==> {
                &&& dependent == dependency ==> r == Err::<(), CoreError>(
                    CoreError::SelfDependency,
                )
                &&& dependent != dependency && crate::graph::reaches(
                    old(self).edges(),
                    dependency,
                    dependent,
                ) ==> r == Err::<(), CoreError>(CoreError::CycleDetected)
                &&& dependent != dependency && !crate::graph::reaches(
                    old(self).edges(),
                    dependency,
                    dependent,
                ) ==> r is Ok
            },
            r is Ok ==> final(self).edges() == old(self).edges().insert((dependent, dependency)),
            r is Err ==> final(self).edges() == old(self).edges(),
            crate::graph::acyclic(final(self).edges()),
            final(self).items() == old(self).items(),
            final(self).reviews() == old(self).reviews(),
            final(self).readings() == old(self).readings(),
            final(self).topics() == old(self).topics(),
    {
        proof {
            crate::graph::lemma_wf_acyclic(&self.graph);
        }
        if dependent >= self.items.len() as u64 || dependency >= self.items.len() as u64 {
            return Err(CoreError::UnknownItem);
        }
        let r = self.graph.add_edge(dependent, dependency);
        proof {
            crate::graph::lemma_wf_acyclic(&self.graph);
        }
        r
    }

    /// Removes the edge if it is there.
    pub fn remove_edge(&mut self, dependent: u64, dependency: u64)
        requires
            old(self).wf(),
        ensures
            final(self).wf(),
            final(self).edges() == old(self).edges().remove((dependent, dependency)),
            final(self).items() == old(self).items(),
            final(self).reviews() == old(self).reviews(),
            final(self).readings() == old(self).readings(),
            final(self).topics() == old(self).topics(),
    {
        self.graph.remove_edge(dependent, dependency);
    }

    /// Adds a top-level reading source, active, and returns its identifier.
    pub fn add_reading(&mut self, topic: u64, text: String) -> (r: u64)
        requires
            old(self).wf(),
            old(self).readings().len() + 1 < u64::MAX,
        ensures
            final(self).wf(),
            r == old(self).readings().len(),
            final(self).readings() == old(self).readings().push(
                ReadingItem { id: r, parent: None, topic, text, active: true },
            ),
            final(self).items() == old(self).items(),
            final(self).edges() == old(self).edges(),
            final(self).reviews() == old(self).reviews(),
            final(self).topics() == old(self).topics(),
    {
        let id = self.readings.len() as u64;
        self.readings.push(ReadingItem { id, parent: None, topic, text, active: true });
        id
    }

    /// Cuts an excerpt `span` out of reading item `parent`: a new active
    /// child in the parent's topic. The parent stays as it was.
    pub fn excerpt(&mut self, parent: u64, span: String) -> (r: Result<u64, CoreError>)
        requires
            old(self).wf(),
            old(self).readings().len() + 1 < u64::MAX,
        ensures
            final(self).wf(),
            r is Err <==> parent >= old(self).readings().len(),
            r is Err ==> r == Err::<u64, CoreError>(CoreError::UnknownItem) && *final(self)
                == *old(self),
            r matches Ok(id) ==> {
                &&& id == old(self).readings().len()
                &&& final(self).readings() == old(self).readings().push(
                    ReadingItem {
                        id,
                        parent: Some(parent),
                        topic: old(self).readings()[parent as int].topic,
                        text: span,
                        active: true,
                    },
                )
            },
            final(self).items() == old(self).items(),
            final(self).edges() == old(self).edges(),
            final(self).reviews() == old(self).reviews(),
            final(self).topics() == old(self).topics(),
    {
        if parent >= self.readings.len() as u64 {
            return Err(CoreError::UnknownItem);
        }
        let topic = self.readings[parent as usize].topic;
        let id = self.readings.len() as u64;
        self.readings.push(ReadingItem { id, parent: Some(parent), topic, text: span, active: true });
        Ok(id)
    }

    /// Turns reading item `reading` into a new learning item in the
    /// `Initiated` state, whose source is that reading item, and deactivates
    /// the reading item.
    pub fn promote(&mut self, reading: u64, question: String, answer: String, now: u64) -> (r:
        Result<u64, CoreError>)
        requires
            old(self).wf(),
            old(self).items().len() + 1 < u64::MAX,
        ensures
            final(self).wf(),
            r is Err <==> reading >= old(self).readings().len(),
            r is Err ==> r == Err::<u64, CoreError>(CoreError::UnknownItem) && *final(self)
                == *old(self),
            r matches Ok(id) ==> {
                let it = final(self).items().last();
                &&& id == old(self).items().len()
                &&& final(self).items().len() == old(self).items().len() + 1
                &&& final(self).items().drop_last() == old(self).items()
                &&& it.id == id
                &&& it.status == Status::Initiated
                &&& !it.suspended
                &&& it.source == Some(reading)
                &&& it.topic == old(self).readings()[reading as int].topic
                &&& it.question@ == question@
                &&& it.answer@ == answer@
                &&& it.strength == MIN_STRENGTH
                &&& it.stability == MIN_STABILITY
                &&& it.next_due == now
                &&& it.last_review == now
                &&& it.skip_from == now
                &&& it.skip_duration == 0
                &&& final(self).cursor() == old(self).cursor()
                &&& final(self).readings() == old(self).readings().update(
                    reading as int,
                    ReadingItem { active: false, ..old(self).readings()[reading as int] },
                )
            },
            final(self).edges() == old(self).edges(),
            final(self).reviews() == old(self).reviews(),
            final(self).topics() == old(self).topics(),
    {
        if reading >= self.readings.len() as u64 {
            return Err(CoreError::UnknownItem);
        }
        let k = reading as usize;
        let topic = self.readings[k].topic;
        self.readings[k].active = false;
        assert(self.readings@ =~= old(self).readings@.update(
            reading as int,
            ReadingItem { active: false, ..old(self).readings@[reading as int] },
        ));
        let id = self.push_item(question, answer, topic, Some(reading), now);
        Ok(id)
    }

    /// The next active reading item in rotation: the first active one from
    /// the cursor on, wrapping round. The cursor then moves past it.
    pub fn next_due_reading(&mut self) -> (r: Option<u64>)
        requires
            old(self).wf(),
        ensures
            final(self).wf(),
            r is None <==> forall|k: int|
                0 <= k < old(self).readings().len() ==> !(#[trigger] old(self).readings()[k]).active,
            r is None ==> *final(self) == *old(self),
            r matches Some(id) ==> {
                let n = old(self).readings().len() as int;
                &&& id < n
                &&& old(self).readings()[id as int].active
                &&& exists|d: int|
                    0 <= d < n && id == rotate(old(self).cursor() as int, d, n) && forall|e: int|
                        0 <= e < d ==> !(#[trigger] old(self).readings()[rotate(
                            old(self).cursor() as int,
                            e,
                            n,
                        )]).active
                &&& final(self).cursor() == id + 1
            },
            final(self).readings() == old(self).readings(),
            final(self).items() == old(self).items(),
            final(self).edges() == old(self).edges(),
            final(self).reviews() == old(self).reviews(),
            final(self).topics() == old(self).topics(),
    {
        let n = self.readings.len();
        let c = self.cursor;
        let mut d: usize = 0;
        while d < n
            invariant
                n == self.readings@.len(),
                c == self.cursor <= n,
                *self == *old(self),
                self.wf(),
                0 <= d <= n,
                forall|e: int| 0 <= e < d ==> !(#[trigger] self.readings@[rotate(c as int, e, n as int)]).active,
            decreases n - d,
        {
            let k = if d >= n - c {
                d - (n - c)
            } else {
                c + d
            };
            assert(k as int == rotate(c as int, d as int, n as int));
            if self.readings[k].active {
                self.cursor = k + 1;
                assert(self.wf());
                proof {
                    let ghost dd = d as int;
                    let ghost nn = n as int;
                    assert(old(self).cursor() as int == c as int);
                    assert(old(self).readings() == self.readings@);
                    assert(0 <= dd < nn && k as u64 == rotate(old(self).cursor() as int, dd, nn)
                        && forall|e: int|
                        0 <= e < dd ==> !(#[trigger] old(self).readings()[rotate(
                            old(self).cursor() as int,
                            e,
                            nn,
                        )]).active);
                }
                return Some(k as u64);
            }
            d += 1;
        }
        proof {
            assert forall|k: int| 0 <= k < n implies !(#[trigger] self.readings@[k]).active by {
                let e = if k >= c { k - c } else { k + n - c };
                assert(rotate(c as int, e, n as int) == k);
            }
        }
        None
    }

    pub fn item_count(&self) -> (r: usize)
        ensures
            r == self.items().len(),
    {
        self.items.len()
    }

    pub fn topic_count(&self) -> (r: usize)
        ensures
            r == self.topics().len(),
    {
        self.topics.len()
    }

    pub fn reading_count(&self) -> (r: usize)
        ensures
            r == self.readings().len(),
    {
        self.readings.len()
    }

    pub fn get_item(&self, id: u64) -> (r: Option<&LearningItem>)
        ensures
            id < self.items().len() ==> r == Some(&self.items()[id as int]),
            id >= self.items().len() ==> r is None,
    {
        if id < self.items.len() as u64 {
            Some(&self.items[id as usize])
        } else {
            None
        }
    }

    pub fn get_reading(&self, id: u64) -> (r: Option<&ReadingItem>)
        ensures
            id < self.readings().len() ==> r == Some(&self.readings()[id as int]),
            id >= self.readings().len() ==> r is None,
    {
        if id < self.readings.len() as u64 {
            Some(&self.readings[id as usize])
        } else {
            None
        }
    }

    pub fn get_topic(&self, id: u64) -> (r: Option<&Topic>)
        ensures
            id < self.topics().len() ==> r == Some(&self.topics()[id as int]),
            id >= self.topics().len() ==> r is None,
    {
        if id < self.topics.len() as u64 {
            Some(&self.topics[id as usize])
        } else {
            None
        }
    }

    /// The review log, oldest first.
    pub fn review_log(&self) -> (r: &Vec<ReviewRecord>)
        ensures
            r@ == self.reviews(),
    {
        &self.reviews
    }

    /// The direct prerequisites of item `id`.
    pub fn dependencies_of(&self, id: u64) -> (r: Vec<u64>)
        ensures
            forall|x: u64| r@.contains(x) <==> self.edges().contains((id, x)),
    {
        self.graph.dependencies_of(id)
    }

    /// Takes back an item read from the store at the start of a session.
    /// Items come back in the order of their identifiers: one whose
    /// identifier is not the next free one is refused. Strength and stability
    /// are taken as they are, even outside their bounds; the item's next
    /// review brings them within.
    pub fn restore_item(&mut self, item: LearningItem) -> (r: Result<u64, CoreError>)
        requires
            old(self).wf(),
            old(self).items().len() + 1 < u64::MAX,
        ensures
            final(self).wf(),
            r is Err <==> item.id != old(self).items().len(),
            r is Err ==> r == Err::<u64, CoreError>(CoreError::UnknownItem) && *final(self)
                == *old(self),
            r is Ok ==> r == Ok::<u64, CoreError>(item.id) && final(self).items()
                == old(self).items().push(item),
            final(self).edges() == old(self).edges(),
            final(self).reviews() == old(self).reviews(),
            final(self).readings() == old(self).readings(),
            final(self).topics() == old(self).topics(),
    {
        if item.id != self.items.len() as u64 {
            return Err(CoreError::UnknownItem);
        }
        let id = item.id;
        self.items.push(item);
        Ok(id)
    }

    /// Takes back a reading item read from the store, in the order of the
    /// identifiers; its parent must already be there.
    pub fn restore_reading(&mut self, reading: ReadingItem) -> (r: Result<u64, CoreError>)
        requires
            old(self).wf(),
            old(self).readings().len() + 1 < u64::MAX,
        ensures
            final(self).wf(),
            r is Err <==> (reading.id != old(self).readings().len() || (reading.parent matches Some(
                p,
            ) && p >= reading.id)),
            r is Err ==> r == Err::<u64, CoreError>(CoreError::UnknownItem) && *final(self)
                == *old(self),
            r is Ok ==> r == Ok::<u64, CoreError>(reading.id) && final(self).readings()
                == old(self).readings().push(reading),
            final(self).items() == old(self).items(),
            final(self).edges() == old(self).edges(),
            final(self).reviews() == old(self).reviews(),
            final(self).topics() == old(self).topics(),
    {
        if reading.id != self.readings.len() as u64 {
            return Err(CoreError::UnknownItem);
        }
        if let Some(p) = reading.parent {
            if p >= reading.id {
                return Err(CoreError::UnknownItem);
            }
        }
        let id = reading.id;
        self.readings.push(reading);
        Ok(id)
    }
}

/// Place `d` steps after `c` on a ring of `n` places, for `c <= n` and `d < n`.
pub open spec fn rotate(c: int, d: int, n: int) -> int {
    if c + d >= n {
        c + d - n
    } else {
        c + d
    }
}

/// An item with an edge to a prerequisite that is not resolved is never
/// eligible, however due it is.
pub proof fn lemma_unresolved_dependency_blocks(
    g: Set<(u64, u64)>,
    items: Seq<LearningItem>,
    k: int,
    dep: u64,
    now: u64,
)
    requires
        g.contains((k as u64, dep)),
        !is_resolved(items, dep),
    ensures
        !eligible(g, items, k, now),
{
}

/// Giving an item a prerequisite that is not resolved locks it.
pub proof fn lemma_unresolved_dependency_locks(
    g: Set<(u64, u64)>,
    items: Seq<LearningItem>,
    id: u64,
    dep: u64,
)
    requires
        !is_resolved(items, dep),
    ensures
        !unlocked(g.insert((id, dep)), items, id),
{
    assert(g.insert((id, dep)).contains((id, dep)));
}

/// A successful review makes the item not due at the same `now`: a second
/// review then is refused with `ItemNotDue`.
pub proof fn lemma_regrade_not_due(items: Seq<LearningItem>, id: u64, g1: u8, g2: u8, now: u64)
    requires
        grade_error(items, id, g1, now) is None,
        now + crate::maturity::MIN_INTERVAL <= u64::MAX,
    ensures
        grade_error(items.update(id as int, graded(items[id as int], g1, now)), id, g2, now)
            == Some(CoreError::ItemNotDue),
{
}

/// A failing grade resets stability to its minimum and makes the item due
/// `MIN_INTERVAL` after the review.
pub proof fn lemma_fail_resets(it: LearningItem, grade: u8, now: u64)
    requires
        valid_grade(grade),
        !passing(grade),
        now + MIN_INTERVAL <= u64::MAX,
    ensures
        graded(it, grade, now).stability == MIN_STABILITY,
        graded(it, grade, now).next_due == now + MIN_INTERVAL,
        graded(it, grade, now).last_review == now,
{
}

/// A passing grade raises stability below its maximum, plans the next
/// review `interval(stability')` after the previous one unless that falls
/// within `MIN_INTERVAL` of now, and keeps an active item active exactly
/// while its strength stays under the completion threshold.
pub proof fn lemma_pass_extends(it: LearningItem, grade: u8, now: u64)
    requires
        valid_grade(grade),
        passing(grade),
        MIN_STABILITY <= it.stability < MAX_STABILITY,
    ensures
        graded(it, grade, now).stability > it.stability,
        ({
            let planned = it.last_review + interval(graded(it, grade, now).stability as int);
            planned >= now + MIN_INTERVAL && planned <= u64::MAX ==> graded(it, grade, now).next_due
                == planned
        }),
        it.status == Status::Active ==> (graded(it, grade, now).status == Status::Active
            <==> graded(it, grade, now).strength < COMPLETION_THRESHOLD),
{
    let s = it.stability as int;
    assert(clamp(s, MIN_STABILITY as int, MAX_STABILITY as int) == s);
    assert(s * (grade - 1) >= 2 * s) by (nonlinear_arith)
        requires
            s >= 0,
            grade >= 3,
    ;
    let t = stability_after(s, grade);
    assert(t >= 0);
    assert(interval(t) >= 0) by (nonlinear_arith)
        requires
            t >= 0,
    ;
}

} // verus!
