//! Named steps in the per-query orchestrator graph.

use vstd::prelude::*;

verus! {

/// Pipeline phases. `Route`, `Forward` and `WaitResponse` are internal to the
/// forward lookup provider; `Lookup` is the lookup spine.
#[derive(Debug, Clone, Copy, PartialEq, Eq, Structural, Hash)]
pub enum Phase {
    Receive,
    Parse,
    RequestRules,
    Lookup,
    ResponseRules,
    Send,
    Route,
    Forward,
    WaitResponse,
}

/// Reserved attachment points for processor chains and rate limits.
#[derive(Debug, Clone, Copy, PartialEq, Eq, Structural, Hash)]
pub enum PipelineAttachment {
    PostParse,
    PostRequestRules,
    PreForward,
    PostLookupPreForward,
    PostWait,
    PreSend,
}

} // verus!
