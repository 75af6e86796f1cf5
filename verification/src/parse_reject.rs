//! Parse-stage rejection reasons, as metric labels.

use vstd::prelude::*;

verus! {

#[derive(Debug, Clone, Copy, PartialEq, Eq, Structural)]
pub enum ParseRejectReason {
    Empty,
    WireError,
    NotQuery,
    NoQuestion,
    MultiQuestion,
}

impl ParseRejectReason {
    /// The metric label of the reason.
    pub fn as_str(self) -> (r: &'static str)
        ensures
            self == ParseRejectReason::Empty ==> r@ == "empty"@,
            self == ParseRejectReason::WireError ==> r@ == "wire_error"@,
            self == ParseRejectReason::NotQuery ==> r@ == "not_query"@,
            self == ParseRejectReason::NoQuestion ==> r@ == "no_question"@,
            self == ParseRejectReason::MultiQuestion ==> r@ == "multi_question"@,
    {
        match self {
            ParseRejectReason::Empty => "empty",
            ParseRejectReason::WireError => "wire_error",
            ParseRejectReason::NotQuery => "not_query",
            ParseRejectReason::NoQuestion => "no_question",
            ParseRejectReason::MultiQuestion => "multi_question",
        }
    }
}

} // verus!
