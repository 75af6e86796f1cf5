//! Probe query construction and response validation.
//!
//! A probe is a normal DNS query with a fresh message id. A reply counts as
//! a success only when it is well-formed and its message id and question
//! match the outstanding probe; by default any rcode proves the backend is
//! alive, and operators may narrow the acceptable rcodes. Replies that do
//! not match are ignored (neither success nor failure).

use vstd::prelude::*;
use hickory_proto::op::{Message, OpCode, Query};
use hickory_proto::rr::{Name, RecordType};
use hickory_proto::serialize::binary::BinDecodable;
use crate::text::owned;

verus! {

/// What a received datagram means for the outstanding probe.
#[derive(Debug, Clone, Copy, PartialEq, Eq, Structural)]
pub enum ProbeOutcome {
    /// Well-formed, matching, acceptable-rcode response: the backend is alive.
    Success,
    /// Well-formed, matching response with an rcode outside the narrowed set.
    Failure,
    /// Did not match the outstanding probe, or could not be parsed.
    Unmatched,
}

/// What classification reads of a reply: its id, its first question (does
/// the name match the probe's, and its type), and its rcode.
#[derive(Debug, Clone, Copy, PartialEq, Eq)]
pub struct ProbeReply {
    pub id: u16,
    pub question: Option<(bool, u16)>,
    pub rcode: u16,
}

/// The probe name hickory-proto makes of `qname`: parsed, fully qualified,
/// lowercased, in ASCII form; or the text of the parse error.
pub uninterp spec fn spec_probe_name(qname: Seq<char>) -> Result<Seq<char>, Seq<char>>;

/// The encoded probe query for id, probe name, type, opcode and RD flag; or
/// the text of the error.
pub uninterp spec fn spec_probe_query(qid: u16, name: Seq<char>, qtype: u16, opcode: u8, rd: bool) -> Result<Seq<u8>, Seq<char>>;

/// The reply fields of `wire` against probe name `name` (`None` when the
/// wire does not decode).
pub uninterp spec fn spec_probe_reply(wire: Seq<u8>, name: Seq<char>) -> Option<(u16, Option<(bool, u16)>, u16)>;

/// The opcode of a probe: QUERY (RFC 1035 section 4.1.1).
pub const PROBE_OPCODE: u8 = 0;

/// Probes ask for recursion, as a client query would.
pub const PROBE_RECURSION_DESIRED: bool = true;

/// Parses `qname` with `Name::from_utf8`, marks it fully qualified, and
/// returns `to_lowercase().to_ascii()`; a parse error becomes its
/// `to_string()`. Trusted: the result is the named function of the text.
#[verifier::external_body]
fn normalize_probe_name(qname: &str) -> (r: Result<String, String>)
    ensures
        spec_probe_name(qname@) == (match r {
            Ok(s) => Ok(s@),
            Err(e) => Err(e@),
        }),
{
    let mut name = Name::from_utf8(qname).map_err(|e| e.to_string())?;
    name.set_fqdn(true);
    Ok(name.to_lowercase().to_ascii())
}

/// Builds `Message::new()` (a query message) with id `qid`, the opcode
/// `OpCode::from_u8(opcode)`, RD as given, and one question of
/// `Name::from_ascii(name)` and type `qtype`, and encodes it with
/// `Message::to_vec`; an error becomes its `to_string()`. Trusted: the
/// result is the named function of the arguments.
#[verifier::external_body]
fn encode_probe_query(qid: u16, name: &str, qtype: u16, opcode: u8, rd: bool) -> (r: Result<Vec<u8>, String>)
    ensures
        spec_probe_query(qid, name@, qtype, opcode, rd) == (match r {
            Ok(w) => Ok(w@),
            Err(e) => Err(e@),
        }),
{
    let name = Name::from_ascii(name).map_err(|e| e.to_string())?;
    let op = OpCode::from_u8(opcode).map_err(|e| e.to_string())?;
    let mut msg = Message::new();
    msg.set_id(qid);
    msg.set_op_code(op);
    msg.set_recursion_desired(rd);
    msg.add_query(Query::query(name, RecordType::from(qtype)));
    msg.to_vec().map_err(|e| e.to_string())
}

/// The message for a probe name that does not parse.
pub open spec fn spec_bad_qname_message(qname: Seq<char>, err: Seq<char>) -> Seq<char> {
    "invalid probe qname '"@ + qname + "': "@ + err
}

fn bad_qname_message(qname: &str, err: &str) -> (r: String)
    ensures
        r@ == spec_bad_qname_message(qname@, err@),
{
    let mut out = owned("invalid probe qname '");
    out.append(qname);
    out.append("': ");
    out.append(err);
    out
}

/// The message for a probe query that could not be encoded.
pub open spec fn spec_encode_failed_message(err: Seq<char>) -> Seq<char> {
    "probe encode failed: "@ + err
}

fn encode_failed_message(err: &str) -> (r: String)
    ensures
        r@ == spec_encode_failed_message(err@),
{
    let mut out = owned("probe encode failed: ");
    out.append(err);
    out
}

/// Decodes `wire` with `Message::from_bytes` and reads `id()`, the first
/// question's name compared (`Name` equality, which ignores ASCII case) with
/// `Name::from_ascii(name)` and its `u16` type, and `u16::from(response_code())`.
/// Trusted: the result is the named function of the arguments.
#[verifier::external_body]
fn decode_probe_reply(wire: &[u8], name: &str) -> (r: Option<ProbeReply>)
    ensures
        r is None <==> spec_probe_reply(wire@, name@) is None,
        r matches Some(p) ==> spec_probe_reply(wire@, name@) == Some((p.id, p.question, p.rcode)),
{
    let msg = Message::from_bytes(wire).ok()?;
    let expected = Name::from_ascii(name).ok();
    let question = msg.queries().first().map(|q| (Some(q.name()) == expected.as_ref(), u16::from(q.query_type())));
    Some(ProbeReply { id: msg.id(), question, rcode: u16::from(msg.response_code()) })
}

/// A compiled probe: the question to send and the rcode acceptance policy.
#[derive(Debug, Clone)]
pub struct ProbeSpec {
    name: String,
    qtype: u16,
    /// `None`: accept any well-formed response; `Some`: the narrowed rcodes.
    acceptable_rcodes: Option<Vec<u16>>,
}

/// A probe's view: its normalized name, its type, its acceptable rcodes.
pub struct ProbeSpecView {
    pub name: Seq<char>,
    pub qtype: u16,
    pub acceptable_rcodes: Option<Seq<u16>>,
}

impl View for ProbeSpec {
    type V = ProbeSpecView;

    closed spec fn view(&self) -> ProbeSpecView {
        ProbeSpecView {
            name: self.name@,
            qtype: self.qtype,
            acceptable_rcodes: match self.acceptable_rcodes {
                Some(v) => Some(v@),
                None => None,
            },
        }
    }
}

/// The outcome of a reply for a probe with type `qtype` and acceptable
/// rcodes `acceptable`, sent with id `qid`.
pub open spec fn spec_classify(qtype: u16, acceptable: Option<Seq<u16>>, qid: u16, reply: Option<(u16, Option<(bool, u16)>, u16)>) -> ProbeOutcome {
    match reply {
        None => ProbeOutcome::Unmatched,
        Some((id, question, rcode)) => if id != qid {
            ProbeOutcome::Unmatched
        } else {
            match question {
                None => ProbeOutcome::Unmatched,
                Some((name_matches, t)) => if t != qtype || !name_matches {
                    ProbeOutcome::Unmatched
                } else {
                    match acceptable {
                        None => ProbeOutcome::Success,
                        Some(allowed) => if allowed.contains(rcode) {
                            ProbeOutcome::Success
                        } else {
                            ProbeOutcome::Failure
                        },
                    }
                },
            }
        },
    }
}

impl ProbeSpec {
    /// Build a probe spec, parsing and lowercasing the query name.
    pub fn new(qname: &str, qtype: u16, acceptable_rcodes: Option<Vec<u16>>) -> (r: Result<ProbeSpec, String>)
        ensures
            spec_probe_name(qname@) is Ok <==> r is Ok,
            r matches Ok(p) ==> spec_probe_name(qname@) == Ok::<Seq<char>, Seq<char>>(p@.name) && p@.qtype == qtype
                && p@.acceptable_rcodes == (match acceptable_rcodes {
                    Some(v) => Some(v@),
                    None => None,
                }),
            r matches Err(e) ==> spec_probe_name(qname@) matches Err(m) && e@ == spec_bad_qname_message(qname@, m),
    {
        match normalize_probe_name(qname) {
            Ok(name) => Ok(ProbeSpec { name, qtype, acceptable_rcodes }),
            Err(e) => Err(bad_qname_message(qname, e.as_str())),
        }
    }

    pub fn qtype(&self) -> (r: u16)
        ensures
            r == self@.qtype,
    {
        self.qtype
    }

    /// Encode a probe query for the given message id: opcode QUERY, RD set.
    pub fn build_query(&self, qid: u16) -> (r: Result<Vec<u8>, String>)
        ensures
            r matches Ok(w) ==> spec_probe_query(qid, self@.name, self@.qtype, PROBE_OPCODE, PROBE_RECURSION_DESIRED)
                == Ok::<Seq<u8>, Seq<char>>(w@),
            r matches Err(e) ==> spec_probe_query(qid, self@.name, self@.qtype, PROBE_OPCODE, PROBE_RECURSION_DESIRED)
                matches Err(m) && e@ == spec_encode_failed_message(m),
    {
        match encode_probe_query(qid, self.name.as_str(), self.qtype, PROBE_OPCODE, PROBE_RECURSION_DESIRED) {
            Ok(w) => Ok(w),
            Err(e) => Err(encode_failed_message(e.as_str())),
        }
    }

    /// Classify decoded reply fields against this probe and message id.
    pub fn classify_reply(&self, qid: u16, reply: Option<ProbeReply>) -> (r: ProbeOutcome)
        ensures
            r == spec_classify(self@.qtype, self@.acceptable_rcodes, qid, match reply {
                Some(p) => Some((p.id, p.question, p.rcode)),
                None => None,
            }),
    {
        let p = match reply {
            None => return ProbeOutcome::Unmatched,
            Some(p) => p,
        };
        if p.id != qid {
            return ProbeOutcome::Unmatched;
        }
        let (name_matches, t) = match p.question {
            None => return ProbeOutcome::Unmatched,
            Some(q) => q,
        };
        if t != self.qtype || !name_matches {
            return ProbeOutcome::Unmatched;
        }
        match &self.acceptable_rcodes {
            None => ProbeOutcome::Success,
            Some(allowed) => {
                let mut i: usize = 0;
                while i < allowed.len()
                    invariant
                        i <= allowed@.len(),
                        forall|k: int| 0 <= k < i ==> allowed@[k] != p.rcode,
                        reply == Some(p),
                        p.id == qid,
                        p.question == Some((name_matches, t)),
                        t == self.qtype,
                        name_matches,
                        self.acceptable_rcodes == Some(*allowed),
                    decreases allowed@.len() - i,
                {
                    if allowed[i] == p.rcode {
                        assert(allowed@.contains(p.rcode));
                        return ProbeOutcome::Success;
                    }
                    i = i + 1;
                }
                ProbeOutcome::Failure
            },
        }
    }

    /// Classify a received datagram against this probe and message id.
    pub fn classify_response(&self, qid: u16, wire: &[u8]) -> (r: ProbeOutcome)
        ensures
            r == spec_classify(self@.qtype, self@.acceptable_rcodes, qid, spec_probe_reply(wire@, self@.name)),
    {
        let reply = decode_probe_reply(wire, self.name.as_str());
        self.classify_reply(qid, reply)
    }
}

/// With the default policy a matching reply is a success whatever its
/// rcode; a reply with another id is never attributed to the probe.
pub proof fn lemma_default_policy_accepts_any_rcode(qtype: u16, qid: u16, rcode: u16, other_id: u16, question: Option<(bool, u16)>)
    ensures
        spec_classify(qtype, None, qid, Some((qid, Some((true, qtype)), rcode))) == ProbeOutcome::Success,
        other_id != qid ==> forall|acc: Option<Seq<u16>>| spec_classify(qtype, acc, qid, Some((other_id, question, rcode)))
            == ProbeOutcome::Unmatched,
{
}

} // verus!
