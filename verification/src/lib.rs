//! Extraction of game results from chat lines, identity resolution,
//! per-player statistics, ranking and report assembly.

use vstd::prelude::*;

pub mod identity;
pub mod parse;
pub mod pipeline;
pub mod rank;
pub mod report;
pub mod stats;
pub mod text;
pub mod user;
pub mod window;

verus! {

/// What the command keeps between invocations: nothing.
pub struct Data {}

} // verus!
