use vstd::prelude::*;

verus! {

/// The ways in which an operation of the core is refused.
#[derive(Clone, Copy, Debug, PartialEq, Eq, Structural)]
pub enum CoreError {
    /// A grade outside the ordinal range `0..=MAX_GRADE`.
    InvalidGrade,
    /// The edge would close a cycle in the prerequisite graph.
    CycleDetected,
    /// An item was asked to depend on itself.
    SelfDependency,
    /// The item carries the suspended flag.
    ItemSuspended,
    /// The item is graded before its next due time.
    ItemNotDue,
    /// No item, reading item or topic has the given identifier.
    UnknownItem,
}

} // verus!
