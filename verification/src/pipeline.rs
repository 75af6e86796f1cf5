//! Outcomes of pipeline stages.

use vstd::prelude::*;
use crate::phase::Phase;

verus! {

/// What a stage decided: continue at a phase, or drop the query.
#[derive(Debug, Clone, Copy, PartialEq, Eq, Structural)]
pub enum StageOutcome {
    Continue(Phase),
    Drop,
}

} // verus!
