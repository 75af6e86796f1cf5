//! The parts of a DNS response the cache reads, decoded by hickory-proto.

use vstd::prelude::*;

verus! {

/// What the cache reads of a decoded response: the header rcode (its low
/// four bits), the number of answer records, the TTLs of the answer
/// records followed by those of the authority records, and the header's
/// TC (truncated) bit.
pub struct ResponseSummary {
    pub rcode: u16,
    pub answer_count: usize,
    pub ttls: Vec<u32>,
    pub truncated: bool,
}

/// The summary of `wire` as hickory-proto decodes it, `None` when the bytes
/// do not decode as a DNS message.
pub uninterp spec fn spec_response_summary(wire: Seq<u8>) -> Option<(u16, nat, Seq<u32>, bool)>;

/// Decodes `wire` with `hickory_proto::op::Message::from_vec` and reads
/// `response_code().low()`, `answers().len()`, the `ttl()` of each record
/// of `answers()` then `name_servers()`, and `header().truncated()`. Trusted: the result is the named
/// summary of the bytes; what the decoder accepts is not stated.
#[verifier::external_body]
pub fn summarize_response(wire: &[u8]) -> (r: Option<ResponseSummary>)
    ensures
        r is None <==> spec_response_summary(wire@) is None,
        r matches Some(s) ==> spec_response_summary(wire@) == Some(
            (s.rcode, s.answer_count as nat, s.ttls@, s.truncated),
        ),
{
    let msg = hickory_proto::op::Message::from_vec(wire).ok()?;
    let ttls: Vec<u32> = msg.answers().iter().chain(msg.name_servers().iter()).map(|rr| rr.ttl()).collect();
    Some(ResponseSummary {
        rcode: msg.response_code().low() as u16,
        answer_count: msg.answers().len(),
        ttls,
        truncated: msg.header().truncated(),
    })
}

} // verus!
