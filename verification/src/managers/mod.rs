//! Managers orchestrate high level business logic for the analysis process.

pub mod standard;

use crate::contracts::PendingResearchItem;
use crate::managers::standard::{in_clip_order, of_one_episode, Emission};
use vstd::prelude::*;

verus! {

/// A `Runner` is responsible for ochestrating high level analyzer logic.
pub trait Runner {
    /// Runs the analysis that `pri` prescribes and returns what it emitted, in
    /// order: one emission for each clip that was processed, or the one error
    /// of an episode that could not be had.
    fn run(&self, ctx: &cancel::Token, pri: &PendingResearchItem) -> (sent: Vec<Emission>)
        ensures
            in_clip_order(sent@, 0, pri) || (sent@.len() == 1 && sent@[0] is Err),
            of_one_episode(sent@, 0),
    ;
}

} // verus!
