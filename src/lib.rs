//! Dependency-aware spaced repetition with incremental reading.
use vstd::prelude::*;

pub mod error;
pub mod graph;
pub mod maturity;
pub mod scheduler;
pub mod store;
pub mod tabs;

verus! {

} // verus!
