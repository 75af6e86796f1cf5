//! Structural DNS query parse (header, question, EDNS) without policy
//! semantics.

use vstd::prelude::*;
use hickory_proto::op::MessageType;
use crate::parse_reject::ParseRejectReason;
use crate::phase::Phase;
use crate::pipeline::StageOutcome;
use crate::transaction::Transaction;

verus! {

/// Fields extracted from a structurally valid DNS query.
#[derive(Debug, Clone, PartialEq, Eq)]
pub struct ParsedQuery {
    pub dns_id: u16,
    pub opcode: u8,
    pub qname: String,
    pub qtype: u16,
    pub qclass: u16,
    pub client_udp_payload_size: Option<u16>,
    pub edns_option_codes: Vec<u16>,
}

/// What the parse reads of a decoded message: id, whether it is a query,
/// opcode, its questions `(name, type, class)`, and its EDNS section's
/// payload size and option codes.
pub struct WireQuery {
    pub dns_id: u16,
    pub is_query: bool,
    pub opcode: u8,
    pub questions: Vec<(String, u16, u16)>,
    pub edns: Option<(u16, Vec<u16>)>,
}

/// The decoded header fields and questions of a message, as hickory-proto
/// decodes it.
pub uninterp spec fn spec_wire_query(wire: Seq<u8>) -> Option<(u16, bool, u8, Seq<(Seq<char>, u16, u16)>)>;

/// The EDNS payload size and the set of option codes of a decoded message
/// (`None` inside when it has no EDNS section).
pub uninterp spec fn spec_wire_edns(wire: Seq<u8>) -> Option<(u16, Set<u16>)>;

pub open spec fn question_views(q: Seq<(String, u16, u16)>) -> Seq<(Seq<char>, u16, u16)> {
    q.map_values(|x: (String, u16, u16)| (x.0@, x.1, x.2))
}

/// Decodes `wire` with `hickory_proto::op::Message::from_vec` and reads
/// `id()`, whether `header().message_type()` is a query, `op_code()`, each
/// question's `name().to_utf8()`, `query_type()` and `query_class()`, and
/// the EDNS `max_payload()` and option codes. Trusted: the result is the
/// named function of the bytes; the option codes come in the order the
/// decoder's map yields them, so only their set is named.
#[verifier::external_body]
fn decode_query(wire: &[u8]) -> (r: Option<WireQuery>)
    ensures
        r is None <==> spec_wire_query(wire@) is None,
        r matches Some(q) ==> spec_wire_query(wire@) == Some((q.dns_id, q.is_query, q.opcode, question_views(q.questions@)))
            && spec_wire_edns(wire@) == match q.edns {
                Some((p, codes)) => Some((p, codes@.to_set())),
                None => None::<(u16, Set<u16>)>,
            },
{
    let msg = hickory_proto::op::Message::from_vec(wire).ok()?;
    let questions = msg.queries().iter().map(|q| (q.name().to_utf8(), u16::from(q.query_type()), u16::from(q.query_class()))).collect();
    let edns = msg.extensions().as_ref().map(|e| (e.max_payload(), e.options().as_ref().keys().map(|c| u16::from(*c)).collect()));
    Some(WireQuery {
        dns_id: msg.id(),
        is_query: msg.header().message_type() == MessageType::Query,
        opcode: u8::from(msg.header().op_code()),
        questions,
        edns,
    })
}

/// Strictly increasing.
pub open spec fn strictly_sorted(s: Seq<u16>) -> bool {
    forall|i: int, j: int| 0 <= i < j < s.len() ==> s[i] < s[j]
}

/// `v` sorted, without duplicates.
pub fn sort_dedup(v: &Vec<u16>) -> (r: Vec<u16>)
    ensures
        strictly_sorted(r@),
        r@.to_set() == v@.to_set(),
{
    let mut out: Vec<u16> = Vec::new();
    let mut i: usize = 0;
    while i < v.len()
        invariant
            i <= v@.len(),
            strictly_sorted(out@),
            out@.to_set() == v@.subrange(0, i as int).to_set(),
        decreases v@.len() - i,
    {
        let x = v[i];
        let mut j: usize = 0;
        while j < out.len() && out[j] < x
            invariant
                j <= out@.len(),
                strictly_sorted(out@),
                forall|k: int| 0 <= k < j ==> out@[k] < x,
            decreases out@.len() - j,
        {
            j += 1;
        }
        let ghost before = out@;
        if j == out.len() || out[j] != x {
            out.insert(j, x);
            proof {
                assert(out@ =~= before.subrange(0, j as int).push(x) + before.subrange(j as int, before.len() as int));
                assert forall|a: int, b: int| 0 <= a < b < out@.len() implies out@[a] < out@[b] by {
                    if b < j {
                        assert(out@[a] == before[a] && out@[b] == before[b]);
                    } else if b == j {
                        assert(out@[a] == before[a]);
                    } else if a < j {
                        assert(out@[a] == before[a] && out@[b] == before[b - 1]);
                        if b - 1 > j {
                            assert(before[j as int] < before[b - 1]);
                        }
                    } else if a == j {
                        assert(out@[b] == before[b - 1]);
                        if b - 1 > j {
                            assert(before[j as int] < before[b - 1]);
                        }
                    } else {
                        assert(out@[a] == before[a - 1] && out@[b] == before[b - 1]);
                    }
                }
                assert(out@.to_set() =~= before.to_set().insert(x)) by {
                    assert forall|y: u16| out@.to_set().contains(y) <==> before.to_set().insert(x).contains(y) by {
                        if out@.to_set().contains(y) {
                            let k = choose|k: int| 0 <= k < out@.len() && out@[k] == y;
                            if k < j {
                                assert(before[k] == y);
                            } else if k > j {
                                assert(before[k - 1] == y);
                            }
                        }
                        if before.to_set().contains(y) {
                            let k = choose|k: int| 0 <= k < before.len() && before[k] == y;
                            if k < j {
                                assert(out@[k] == y);
                            } else {
                                assert(out@[k + 1] == y);
                            }
                        }
                        if y == x {
                            assert(out@[j as int] == x);
                        }
                    }
                }
            }
        } else {
            proof {
                assert(out@.to_set() =~= before.to_set().insert(x)) by {
                    assert(out@[j as int] == x);
                }
            }
        }
        proof {
            assert(v@.subrange(0, i as int + 1) =~= v@.subrange(0, i as int).push(x));
            v@.subrange(0, i as int).lemma_push_to_set_commute(x);
        }
        i += 1;
    }
    proof {
        assert(v@.subrange(0, i as int) =~= v@);
    }
    out
}

/// The structural parse of a query wire: the rejection reason, in the
/// order the checks run, or the query's fields.
pub open spec fn spec_parse_outcome(wire: Seq<u8>) -> Result<(), ParseRejectReason> {
    if wire.len() == 0 {
        Err(ParseRejectReason::Empty)
    } else {
        match spec_wire_query(wire) {
            None => Err(ParseRejectReason::WireError),
            Some((_, is_query, _, questions)) => if !is_query {
                Err(ParseRejectReason::NotQuery)
            } else if questions.len() == 0 {
                Err(ParseRejectReason::NoQuestion)
            } else if questions.len() > 1 {
                Err(ParseRejectReason::MultiQuestion)
            } else {
                Ok(())
            },
        }
    }
}

/// The parsed query agrees with what the wire decodes to.
pub open spec fn spec_parsed_from(p: ParsedQuery, wire: Seq<u8>) -> bool {
    &&& spec_wire_query(wire) matches Some((id, _, opcode, questions))
    &&& p.dns_id == id
    &&& p.opcode == opcode
    &&& (p.qname@, p.qtype, p.qclass) == questions[0]
    &&& match spec_wire_edns(wire) {
        None => p.client_udp_payload_size is None && p.edns_option_codes@.len() == 0,
        Some((payload, codes)) => p.client_udp_payload_size == Some(payload) && p.edns_option_codes@.to_set()
            == codes && strictly_sorted(p.edns_option_codes@),
    }
}

/// Parse wire into query metadata.
pub fn structural_parse(wire: &[u8]) -> (r: Result<ParsedQuery, ParseRejectReason>)
    ensures
        match r {
            Ok(p) => spec_parse_outcome(wire@) is Ok && spec_parsed_from(p, wire@),
            Err(e) => spec_parse_outcome(wire@) == Err::<(), ParseRejectReason>(e),
        },
{
    if wire.len() == 0 {
        return Err(ParseRejectReason::Empty);
    }
    let q = match decode_query(wire) {
        Some(q) => q,
        None => return Err(ParseRejectReason::WireError),
    };
    if !q.is_query {
        return Err(ParseRejectReason::NotQuery);
    }
    if q.questions.len() == 0 {
        return Err(ParseRejectReason::NoQuestion);
    }
    if q.questions.len() > 1 {
        return Err(ParseRejectReason::MultiQuestion);
    }
    let qname = q.questions[0].0.clone();
    let qtype = q.questions[0].1;
    let qclass = q.questions[0].2;
    proof {
        assert(question_views(q.questions@)[0] == (q.questions@[0].0@, q.questions@[0].1, q.questions@[0].2));
    }
    let (client_udp_payload_size, edns_option_codes) = match &q.edns {
        Some((payload, codes)) => (Some(*payload), sort_dedup(codes)),
        None => (None, Vec::new()),
    };
    Ok(ParsedQuery { dns_id: q.dns_id, opcode: q.opcode, qname, qtype, qclass, client_udp_payload_size, edns_option_codes })
}

/// Apply structural parse output to a transaction and mark it pre-parsed.
pub fn apply_parsed_query(txn: &mut Transaction, parsed: ParsedQuery)
    ensures
        final(txn).dns_id == parsed.dns_id,
        final(txn).opcode == Some(parsed.opcode),
        final(txn).qname == Some(parsed.qname),
        final(txn).qtype == Some(parsed.qtype),
        final(txn).qclass == Some(parsed.qclass),
        final(txn).client_udp_payload_size == parsed.client_udp_payload_size,
        final(txn).edns_option_codes == parsed.edns_option_codes,
        final(txn).pre_parsed,
        final(txn).id == old(txn).id,
        final(txn).query_wire == old(txn).query_wire,
{
    txn.dns_id = parsed.dns_id;
    txn.opcode = Some(parsed.opcode);
    txn.qname = Some(parsed.qname);
    txn.qtype = Some(parsed.qtype);
    txn.qclass = Some(parsed.qclass);
    txn.client_udp_payload_size = parsed.client_udp_payload_size;
    txn.edns_option_codes = parsed.edns_option_codes;
    txn.pre_parsed = true;
}

/// The parse stage.
pub struct ParseStage;

impl ParseStage {
    /// Parse the transaction's query wire (unless ingress already did) and
    /// continue to RequestRules, or drop it with the reason.
    pub fn handle(&self, txn: &mut Transaction) -> (r: StageOutcome)
        ensures
            old(txn).pre_parsed && old(txn).qname is None ==> r == StageOutcome::Drop
                && final(txn).parse_reject_reason == Some(ParseRejectReason::WireError),
            old(txn).pre_parsed && old(txn).qname is Some ==> r == StageOutcome::Continue(Phase::RequestRules),
            !old(txn).pre_parsed ==> match spec_parse_outcome(old(txn).query_wire@) {
                Ok(()) => r == StageOutcome::Continue(Phase::RequestRules) && final(txn).pre_parsed
                    && final(txn).qname is Some,
                Err(e) => r == StageOutcome::Drop && final(txn).parse_reject_reason == Some(e),
            },
    {
        if txn.pre_parsed {
            if txn.qname.is_none() {
                txn.parse_reject_reason = Some(ParseRejectReason::WireError);
                return StageOutcome::Drop;
            }
            return StageOutcome::Continue(Phase::RequestRules);
        }
        match structural_parse(txn.query_wire.as_slice()) {
            Ok(parsed) => {
                apply_parsed_query(txn, parsed);
                StageOutcome::Continue(Phase::RequestRules)
            },
            Err(reason) => {
                txn.parse_reject_reason = Some(reason);
                StageOutcome::Drop
            },
        }
    }
}

} // verus!
