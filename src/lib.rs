//! Finds the pull requests of a repository that concern one viewer, and
//! joins them with their change sizes in a fixed order.
use vstd::prelude::*;

pub mod cli;
pub mod diffstat;
pub mod fanout;
pub mod model;
pub mod order;
pub mod relevance;
pub mod relevant_set;

verus! {

} // verus!
