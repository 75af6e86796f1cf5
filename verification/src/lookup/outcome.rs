//! Terminal outcomes from a lookup provider attempt.

use vstd::prelude::*;

verus! {

#[derive(Debug, Clone, Copy, PartialEq, Eq, Structural)]
pub enum LookupOutcome {
    Answered,
    Miss,
    Pending,
    Bypass,
    Fail,
}

#[derive(Debug, Clone, Copy, PartialEq, Eq, Structural)]
pub enum AnswerSource {
    Cache,
    Forward,
}

impl AnswerSource {
    /// Metric label: `"cache"` or `"forward"`.
    pub fn as_str(self) -> (r: &'static str)
        ensures
            self == AnswerSource::Cache ==> r@ == "cache"@,
            self == AnswerSource::Forward ==> r@ == "forward"@,
    {
        match self {
            AnswerSource::Cache => "cache",
            AnswerSource::Forward => "forward",
        }
    }
}

} // verus!
