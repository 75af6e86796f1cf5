//! DNS messages as hickory-proto decodes, edits and encodes them.
//!
//! The message, question, record and EDNS types stay hickory-proto's own;
//! the library holds them beside a model of what it reads of them (header
//! fields, questions, record types and TTLs, EDNS payload size and option
//! codes) and moves them between the calls below. What the library decides
//! about them (which sections to drop, in what order records go, which TTL a
//! record gets, whether a reply fits) is verified code in the modules that
//! use these calls.

use vstd::prelude::*;
use hickory_proto::op::{Edns, Message, MessageType, Query, ResponseCode};
use hickory_proto::rr::Record;
use hickory_proto::serialize::binary::{BinEncodable, BinEncoder};
use crate::lookup::cache::response::spec_response_summary;
use crate::structural_parse::{spec_wire_edns, spec_wire_query};

verus! {

#[verifier::external_type_specification]
#[verifier::external_body]
pub struct ExMessage(Message);

#[verifier::external_type_specification]
#[verifier::external_body]
pub struct ExEdns(Edns);

#[verifier::external_type_specification]
#[verifier::external_body]
pub struct ExQuery(Query);

/// What the library reads of one resource record: where it was decoded
/// from (a wire, the section, 0 for answers, 1 for authority, 2 for
/// additionals, and the position in that section), its type code
/// (`u16::from(record_type())`) and its TTL. The record is the one decoded
/// at that place, with this TTL.
pub struct RecordView {
    pub origin: (Seq<u8>, nat, nat),
    pub rtype: u16,
    pub ttl: u32,
}

/// The records of each section of `wire` as hickory-proto decodes it, by
/// section (answers, authority, additionals): owner name as `to_utf8()`
/// gives it, type code and TTL.
pub uninterp spec fn spec_wire_records(wire: Seq<u8>) -> Seq<Seq<(Seq<char>, u16, u32)>>;

/// The record decoded from section `s` of `wire` at position `i`.
pub open spec fn spec_wire_record_view(wire: Seq<u8>, s: nat, i: nat) -> RecordView {
    RecordView {
        origin: (wire, s, i),
        rtype: spec_wire_records(wire)[s as int][i as int].1,
        ttl: spec_wire_records(wire)[s as int][i as int].2,
    }
}

/// The records decoded from section `s` of `wire`, in order.
pub open spec fn spec_wire_section(wire: Seq<u8>, s: nat) -> Seq<RecordView> {
    Seq::new(spec_wire_records(wire)[s as int].len(), |i: int| spec_wire_record_view(wire, s, i as nat))
}

/// The records of the answer, authority and additional sections, in
/// section order.
pub struct SectionsView {
    pub answers: Seq<RecordView>,
    pub authority: Seq<RecordView>,
    pub additionals: Seq<RecordView>,
}

/// hickory-proto's `Record`. Verus refuses a declaration of `Record` itself
/// (its type parameter is bounded by hickory-proto's `RecordData` trait), so
/// the record is kept in this opaque holder.
#[verifier::external_body]
struct RecordCell {
    inner: Record,
}

/// One resource record of a message section with its type and TTL, as the
/// calls below report them. Only those calls make or change one.
pub struct ResourceRecord {
    cell: RecordCell,
    view: Ghost<RecordView>,
}

impl ResourceRecord {
    /// The record's type code and TTL.
    pub closed spec fn spec_view(&self) -> RecordView {
        self.view@
    }
}

/// The type codes and TTLs of a list of records.
pub open spec fn spec_record_views(v: Seq<ResourceRecord>) -> Seq<RecordView> {
    v.map_values(|r: ResourceRecord| r.spec_view())
}

/// The TTLs of a list of record views.
pub open spec fn spec_ttls(v: Seq<RecordView>) -> Seq<u32> {
    v.map_values(|r: RecordView| r.ttl)
}

/// The OPT pseudo-record type code (RFC 6891).
pub open spec fn spec_opt_type() -> u16 {
    41
}

/// No record of the list is an OPT pseudo-record.
pub open spec fn spec_no_opt(v: Seq<RecordView>) -> bool {
    forall|i: int| 0 <= i < v.len() ==> (#[trigger] v[i]).rtype != spec_opt_type()
}

/// The response summary of a wire (`spec_response_summary`) agrees with
/// these sections: the wire decodes, its answer count is that of the
/// answer section, and its TTLs are those of the answer records followed
/// by those of the authority records.
pub open spec fn spec_summary_agrees(summary: Option<(u16, nat, Seq<u32>, bool)>, s: SectionsView) -> bool {
    &&& summary is Some
    &&& (summary->0).1 == s.answers.len()
    &&& (summary->0).2 == spec_ttls(s.answers) + spec_ttls(s.authority)
}

/// The header fields the library reads of a DNS wire (RFC 1035 section
/// 4.1.1): the id, the QR (response) and AA bits, and the low four RCODE
/// bits.
#[derive(Debug, Clone, Copy, PartialEq, Eq, Structural)]
pub struct HeaderView {
    pub id: u16,
    pub response: bool,
    pub authoritative: bool,
    pub rcode_low: u8,
}

/// The header of a wire: the id from the first two bytes (big-endian), QR
/// as bit 0x80 and AA as bit 0x04 of the third byte, RCODE as the low four
/// bits of the fourth; `None` for a wire shorter than the 12-byte header.
pub open spec fn spec_wire_header(w: Seq<u8>) -> Option<HeaderView> {
    if w.len() < 12 {
        None
    } else {
        Some(HeaderView {
            id: ((w[0] as int) * 256 + (w[1] as int)) as u16,
            response: w[2] & 0x80u8 != 0,
            authoritative: w[2] & 0x04u8 != 0,
            rcode_low: w[3] & 0x0fu8,
        })
    }
}

/// The header's TC flag: bit 0x02 of the third byte.
pub open spec fn spec_wire_tc(w: Seq<u8>) -> bool {
    w.len() >= 3 && w[2] & 0x02u8 != 0
}

/// The header a fresh encoding buffer holds until the encoder writes the
/// final one: twelve zero bytes.
pub open spec fn spec_zero_header() -> HeaderView {
    HeaderView { id: 0, response: false, authoritative: false, rcode_low: 0 }
}

/// A question as the library reads it: the name as `to_utf8()` gives it,
/// the type code and the class code.
pub type QuestionView = (Seq<char>, u16, u16);

/// An EDNS section as the library reads it: the payload size and the set of
/// option codes.
pub type EdnsView = (u16, Set<u16>);

/// What the library reads of a message, and what it is made of: the wire
/// its header was decoded from (`None` for `Message::new()`), the RCODE set
/// since (`None` when it is the decoded one), and for each question and the
/// EDNS section the wire (and position) it was decoded from. With the
/// record origins and TTLs, these fix the whole hickory-proto message.
pub struct MessageView {
    pub header: HeaderView,
    pub questions: Seq<QuestionView>,
    pub sections: SectionsView,
    pub edns: Option<EdnsView>,
    pub header_src: Option<Seq<u8>>,
    pub rcode_set: Option<u8>,
    pub question_origins: Seq<(Seq<u8>, nat)>,
    pub edns_origin: Option<Seq<u8>>,
}

/// A hickory-proto message together with what the calls below report of it.
/// Only those calls make or change one; the view is ghost state that their
/// contracts define (the trusted bodies leave it unspecified, and it is
/// erased from the compiled code).
pub struct DnsMessage {
    pub(crate) msg: Message,
    pub(crate) view: Ghost<MessageView>,
}

impl View for DnsMessage {
    type V = MessageView;

    closed spec fn view(&self) -> MessageView {
        self.view@
    }
}

impl DnsMessage {
    /// The header fields of the message.
    pub open spec fn spec_header(&self) -> HeaderView {
        self@.header
    }

    /// The type codes and TTLs of the message's records, by section.
    pub open spec fn spec_sections(&self) -> SectionsView {
        self@.sections
    }
}

/// One question of a message, held as hickory-proto's `Query`, with its view
/// and the wire and position it was decoded from.
pub struct Question {
    inner: Query,
    view: Ghost<QuestionView>,
    origin: Ghost<(Seq<u8>, nat)>,
}

impl Question {
    /// The question's name, type and class.
    pub closed spec fn spec_view(&self) -> QuestionView {
        self.view@
    }

    /// The wire and position the question was decoded from.
    pub closed spec fn spec_origin(&self) -> (Seq<u8>, nat) {
        self.origin@
    }
}

/// The views of a list of questions.
pub open spec fn spec_question_views(v: Seq<Question>) -> Seq<QuestionView> {
    v.map_values(|q: Question| q.spec_view())
}

/// The origins of a list of questions.
pub open spec fn spec_question_origins(v: Seq<Question>) -> Seq<(Seq<u8>, nat)> {
    v.map_values(|q: Question| q.spec_origin())
}

/// The positions `0..n` of the questions decoded from `wire`.
pub open spec fn spec_wire_question_origins(wire: Seq<u8>, n: nat) -> Seq<(Seq<u8>, nat)> {
    Seq::new(n, |i: int| (wire, i as nat))
}

/// An EDNS section, held as hickory-proto's `Edns`, with its view and the
/// wire it was decoded from.
pub struct EdnsSection {
    inner: Edns,
    view: Ghost<EdnsView>,
    origin: Ghost<Seq<u8>>,
}

impl EdnsSection {
    /// The section's payload size and option codes.
    pub closed spec fn spec_view(&self) -> EdnsView {
        self.view@
    }

    /// The wire the section was decoded from.
    pub closed spec fn spec_origin(&self) -> Seq<u8> {
        self.origin@
    }
}

/// The EDNS view of a message, when it has an EDNS section.
pub open spec fn spec_edns_view(e: Option<EdnsSection>) -> Option<EdnsView> {
    match e {
        Some(s) => Some(s.spec_view()),
        None => None,
    }
}

/// The wire an EDNS section was decoded from, when there is one.
pub open spec fn spec_edns_origin(e: Option<EdnsSection>) -> Option<Seq<u8>> {
    match e {
        Some(s) => Some(s.spec_origin()),
        None => None,
    }
}

/// What a decoded message is made of: its header, questions, records and
/// EDNS section all come from `wire`, in wire order.
pub open spec fn spec_decoded_from(wire: Seq<u8>, m: MessageView) -> bool {
    &&& m.header_src == Some(wire)
    &&& m.rcode_set is None
    &&& spec_wire_records(wire).len() == 3
    &&& m.sections == (SectionsView {
        answers: spec_wire_section(wire, 0),
        authority: spec_wire_section(wire, 1),
        additionals: spec_wire_section(wire, 2),
    })
    &&& m.question_origins == spec_wire_question_origins(wire, m.questions.len())
    &&& m.edns_origin == (if m.edns is Some { Some(wire) } else { None::<Seq<u8>> })
}

/// The parts records are made of: origin and TTL.
pub open spec fn spec_record_parts(v: Seq<RecordView>) -> Seq<(Seq<u8>, nat, nat, u32)> {
    v.map_values(|r: RecordView| (r.origin.0, r.origin.1, r.origin.2, r.ttl))
}

/// Whether `BinEncodable::emit` succeeds on the message made of these parts:
/// the header decoded from `header_src` (or `Header::new()`), with the id,
/// message type, AA flag and, when set, RCODE of `header`; the questions
/// and records decoded at these places (records with these TTLs); and the
/// EDNS section decoded from `edns`.
pub uninterp spec fn spec_emit_succeeds(
    header_src: Option<Seq<u8>>,
    header: (u16, bool, bool, Option<u8>),
    questions: Seq<(Seq<u8>, nat)>,
    answers: Seq<(Seq<u8>, nat, nat, u32)>,
    authority: Seq<(Seq<u8>, nat, nat, u32)>,
    additionals: Seq<(Seq<u8>, nat, nat, u32)>,
    edns: Option<Seq<u8>>,
) -> bool;

/// Whether the message with this view encodes.
pub open spec fn spec_encodes(m: MessageView) -> bool {
    spec_emit_succeeds(
        m.header_src,
        (m.header.id, m.header.response, m.header.authoritative, m.rcode_set),
        m.question_origins,
        spec_record_parts(m.sections.answers),
        spec_record_parts(m.sections.authority),
        spec_record_parts(m.sections.additionals),
        m.edns_origin,
    )
}

/// What `from_vec` reads back of an encoding of a message with this view:
/// the questions and EDNS section of `wire` are the view's.
pub open spec fn spec_wire_agrees(wire: Seq<u8>, m: MessageView) -> bool {
    &&& spec_wire_query(wire) is Some
    &&& (spec_wire_query(wire)->0).3 == m.questions
    &&& spec_wire_edns(wire) == m.edns
    &&& spec_summary_agrees(spec_response_summary(wire), m.sections)
}

/// The EDNS payload size of the view is one `from_vec` can give back:
/// hickory-proto reads an OPT class below 512 as 512.
pub open spec fn spec_edns_payload_ok(m: MessageView) -> bool {
    m.edns matches Some(e) ==> e.0 >= 512
}

/// Decodes `wire` with `Message::from_vec`. Trusted: the bytes decode
/// exactly when the response summary and the question reading of them exist
/// (all rest on the same decoder); the decoded message carries the header
/// fields of the wire (`Header::read` reads the first 12 bytes; the EDNS
/// merge only touches the RCODE bits above the low four), the questions and
/// EDNS section that reading names, the answer and authority records the
/// summary reads, and an additional section without an OPT record
/// (`read_records` moves that into the EDNS field, with a payload size of
/// at least 512, `DNSClass::for_opt`). Its parts are recorded as decoded
/// from `wire`, and its records are those `spec_wire_records` names.
#[verifier::external_body]
pub(crate) fn decode_message(wire: &[u8]) -> (r: Option<DnsMessage>)
    ensures
        r is Some <==> spec_response_summary(wire@) is Some,
        r is Some <==> spec_wire_query(wire@) is Some,
        r matches Some(m) ==> spec_wire_header(wire@) == Some(m@.header),
        r matches Some(m) ==> spec_wire_agrees(wire@, m@),
        r matches Some(m) ==> spec_no_opt(m@.sections.additionals) && spec_edns_payload_ok(m@),
        r matches Some(m) ==> spec_decoded_from(wire@, m@),
{
    match Message::from_vec(wire) {
        Ok(msg) => Some(DnsMessage { msg, view: Ghost(arbitrary()) }),
        Err(_) => None,
    }
}

/// Encodes the message with `BinEncodable::emit` into a fresh buffer and
/// returns the buffer with whether the encoder reported success. Trusted:
/// the success is the named function of what the message is made of (the
/// view's parts fix the whole hickory-proto message, and `emit` reads
/// nothing else).
/// `emit_message_parts` first reserves the 12 header bytes as zeros and
/// writes the final header there only on success, so on failure the buffer
/// starts with a zero header; on success it starts with the message's header
/// (`Header::emit`: the id, then QR, AA and the low RCODE bits). When the
/// encoding succeeded without TC set in it (the encoder sets TC when it
/// had to leave records out to stay within 65,535 bytes), the additional
/// section holds no OPT record and the EDNS payload size is one the decoder
/// keeps, `from_vec` reads the message back: its questions, EDNS section,
/// and record types and TTLs (`Query`, `Record` and the OPT record are
/// written and read field by field; hickory-proto is built here without its
/// `dnssec` feature, so `read_records` keeps SIG and TSIG records in the
/// additional section). The bytes are otherwise not described.
#[verifier::external_body]
pub(crate) fn encode_message(m: &DnsMessage) -> (r: (Vec<u8>, bool))
    ensures
        r.1 == spec_emit_succeeds(
            m@.header_src,
            (m@.header.id, m@.header.response, m@.header.authoritative, m@.rcode_set),
            m@.question_origins,
            spec_record_parts(m@.sections.answers),
            spec_record_parts(m@.sections.authority),
            spec_record_parts(m@.sections.additionals),
            m@.edns_origin,
        ),
        r.1 ==> spec_wire_header(r.0@) == Some(m@.header),
        !r.1 ==> spec_wire_header(r.0@) == Some(spec_zero_header()),
        r.1 && !spec_wire_tc(r.0@) && spec_no_opt(m@.sections.additionals) && spec_edns_payload_ok(m@)
            ==> spec_wire_agrees(r.0@, m@),
{
    let mut buf = Vec::new();
    let ok = {
        let mut enc = BinEncoder::new(&mut buf);
        m.msg.emit(&mut enc).is_ok()
    };
    (buf, ok)
}

/// `Message::new()`: an empty query message with id 0, AA clear, RCODE
/// `NoError`, no questions, no records and no EDNS section.
#[verifier::external_body]
pub(crate) fn new_message() -> (r: DnsMessage)
    ensures
        r@ == (MessageView {
            header: spec_zero_header(),
            questions: seq![],
            sections: SectionsView { answers: seq![], authority: seq![], additionals: seq![] },
            edns: None,
            header_src: None,
            rcode_set: None,
            question_origins: seq![],
            edns_origin: None,
        }),
{
    DnsMessage { msg: Message::new(), view: Ghost(arbitrary()) }
}

/// `Message::set_id`.
#[verifier::external_body]
pub(crate) fn set_message_id(m: &mut DnsMessage, id: u16)
    ensures
        final(m)@ == (MessageView { header: HeaderView { id, ..old(m)@.header }, ..old(m)@ }),
{
    m.msg.set_id(id);
}

/// `Message::set_message_type(MessageType::Response)`.
#[verifier::external_body]
pub(crate) fn mark_response(m: &mut DnsMessage)
    ensures
        final(m)@ == (MessageView { header: HeaderView { response: true, ..old(m)@.header }, ..old(m)@ }),
{
    m.msg.set_message_type(MessageType::Response);
}

/// `Message::set_response_code(ResponseCode::from_low(low))`.
#[verifier::external_body]
pub(crate) fn set_rcode_low(m: &mut DnsMessage, low: u8)
    requires
        low <= 15,
    ensures
        final(m)@ == (MessageView {
            header: HeaderView { rcode_low: low, ..old(m)@.header },
            rcode_set: Some(low),
            ..old(m)@
        }),
{
    m.msg.set_response_code(ResponseCode::from_low(low));
}

/// `Message::set_authoritative`.
#[verifier::external_body]
pub(crate) fn set_authoritative(m: &mut DnsMessage, authoritative: bool)
    ensures
        final(m)@ == (MessageView { header: HeaderView { authoritative, ..old(m)@.header }, ..old(m)@ }),
{
    m.msg.set_authoritative(authoritative);
}

/// `Message::take_queries`: the question section, leaving it empty.
#[verifier::external_body]
pub(crate) fn take_questions(m: &mut DnsMessage) -> (r: Vec<Question>)
    ensures
        spec_question_views(r@) == old(m)@.questions,
        spec_question_origins(r@) == old(m)@.question_origins,
        final(m)@ == (MessageView { questions: seq![], question_origins: seq![], ..old(m)@ }),
{
    m.msg.take_queries().into_iter().map(|inner| Question { inner, view: Ghost(arbitrary()), origin: Ghost(arbitrary()) }).collect()
}

/// `Message::queries_mut().clear()`.
#[verifier::external_body]
pub(crate) fn clear_questions(m: &mut DnsMessage)
    ensures
        final(m)@ == (MessageView { questions: seq![], question_origins: seq![], ..old(m)@ }),
{
    m.msg.queries_mut().clear();
}

/// `Message::add_query`: appends the question.
#[verifier::external_body]
pub(crate) fn add_question(m: &mut DnsMessage, q: Question)
    ensures
        final(m)@ == (MessageView {
            questions: old(m)@.questions.push(q.spec_view()),
            question_origins: old(m)@.question_origins.push(q.spec_origin()),
            ..old(m)@
        }),
{
    m.msg.add_query(q.inner);
}

/// Appends the questions, in order.
pub(crate) fn add_questions(m: &mut DnsMessage, questions: Vec<Question>)
    ensures
        final(m)@ == (MessageView {
            questions: old(m)@.questions + spec_question_views(questions@),
            question_origins: old(m)@.question_origins + spec_question_origins(questions@),
            ..old(m)@
        }),
{
    let ghost qv = spec_question_views(questions@);
    let ghost qo = spec_question_origins(questions@);
    let mut rest = questions;
    let n = rest.len();
    let mut i: usize = 0;
    while i < n
        invariant
            i <= n,
            rest@.len() == n - i,
            qv.len() == n,
            qo.len() == n,
            spec_question_views(rest@) == qv.subrange(i as int, n as int),
            spec_question_origins(rest@) == qo.subrange(i as int, n as int),
            m@ == (MessageView {
                questions: old(m)@.questions + qv.take(i as int),
                question_origins: old(m)@.question_origins + qo.take(i as int),
                ..old(m)@
            }),
        decreases n - i,
    {
        let ghost before = rest@;
        let q = rest.remove(0);
        proof {
            assert(q.spec_view() == spec_question_views(before)[0]);
            assert(q.spec_origin() == spec_question_origins(before)[0]);
            assert(spec_question_views(rest@) =~= spec_question_views(before).subrange(1, before.len() as int));
            assert(spec_question_origins(rest@) =~= spec_question_origins(before).subrange(1, before.len() as int));
            assert(qv.take(i + 1) =~= qv.take(i as int).push(qv[i as int]));
            assert(qo.take(i + 1) =~= qo.take(i as int).push(qo[i as int]));
        }
        add_question(m, q);
        i = i + 1;
        proof {
            assert(spec_question_views(rest@) =~= qv.subrange(i as int, n as int));
            assert(spec_question_origins(rest@) =~= qo.subrange(i as int, n as int));
            assert(old(m)@.questions + qv.take(i - 1).push(qv[i - 1]) =~= old(m)@.questions + qv.take(i as int));
            assert(old(m)@.question_origins + qo.take(i - 1).push(qo[i - 1])
                =~= old(m)@.question_origins + qo.take(i as int));
        }
    }
    proof {
        assert(qv.take(n as int) =~= qv);
        assert(qo.take(n as int) =~= qo);
    }
}

/// A copy of `Message::extensions()`: the EDNS section, if any.
#[verifier::external_body]
pub(crate) fn edns_of(m: &DnsMessage) -> (r: Option<EdnsSection>)
    ensures
        spec_edns_view(r) == m@.edns,
        spec_edns_origin(r) == m@.edns_origin,
{
    m.msg.extensions().clone().map(|inner| EdnsSection { inner, view: Ghost(arbitrary()), origin: Ghost(arbitrary()) })
}

/// `Message::set_edns` with a copy of the section (the OPT record is kept
/// apart from the additional records).
#[verifier::external_body]
pub(crate) fn put_edns(m: &mut DnsMessage, edns: &EdnsSection)
    ensures
        final(m)@ == (MessageView { edns: Some(edns.spec_view()), edns_origin: Some(edns.spec_origin()), ..old(m)@ }),
{
    m.msg.set_edns(edns.inner.clone());
}

/// `Message::answers().len()`.
#[verifier::external_body]
pub(crate) fn answer_count(m: &DnsMessage) -> (r: usize)
    ensures
        r == m@.sections.answers.len(),
{
    m.msg.answers().len()
}

/// `Message::name_servers().len()`.
#[verifier::external_body]
pub(crate) fn authority_count(m: &DnsMessage) -> (r: usize)
    ensures
        r == m@.sections.authority.len(),
{
    m.msg.name_servers().len()
}

/// `Message::answers_mut().truncate(n)`: keeps the first `n` answer records.
#[verifier::external_body]
pub(crate) fn keep_answers(m: &mut DnsMessage, n: usize)
    ensures
        final(m)@ == (MessageView {
            sections: SectionsView {
                answers: if n < old(m)@.sections.answers.len() {
                    old(m)@.sections.answers.take(n as int)
                } else {
                    old(m)@.sections.answers
                },
                ..old(m)@.sections
            },
            ..old(m)@
        }),
{
    m.msg.answers_mut().truncate(n);
}

/// `Message::name_servers_mut().clear()`.
#[verifier::external_body]
pub(crate) fn clear_authority(m: &mut DnsMessage)
    ensures
        final(m)@ == (MessageView { sections: SectionsView { authority: seq![], ..old(m)@.sections }, ..old(m)@ }),
{
    m.msg.name_servers_mut().clear();
}

/// `Message::additionals_mut().clear()`.
#[verifier::external_body]
pub(crate) fn clear_additionals(m: &mut DnsMessage)
    ensures
        final(m)@ == (MessageView { sections: SectionsView { additionals: seq![], ..old(m)@.sections }, ..old(m)@ }),
{
    m.msg.additionals_mut().clear();
}

/// `Message::take_answers`: the answer records, leaving the section empty.
#[verifier::external_body]
pub(crate) fn take_answers(m: &mut DnsMessage) -> (r: Vec<ResourceRecord>)
    ensures
        spec_record_views(r@) == old(m)@.sections.answers,
        final(m)@ == (MessageView { sections: SectionsView { answers: seq![], ..old(m)@.sections }, ..old(m)@ }),
{
    m.msg.take_answers().into_iter().map(|inner| ResourceRecord { cell: RecordCell { inner }, view: Ghost(arbitrary()) }).collect()
}

/// `Message::take_name_servers`: the authority records, leaving the section empty.
#[verifier::external_body]
pub(crate) fn take_authority(m: &mut DnsMessage) -> (r: Vec<ResourceRecord>)
    ensures
        spec_record_views(r@) == old(m)@.sections.authority,
        final(m)@ == (MessageView { sections: SectionsView { authority: seq![], ..old(m)@.sections }, ..old(m)@ }),
{
    m.msg.take_name_servers().into_iter().map(|inner| ResourceRecord { cell: RecordCell { inner }, view: Ghost(arbitrary()) }).collect()
}

/// `Message::take_additionals`: the additional records, leaving the section empty.
#[verifier::external_body]
pub(crate) fn take_additionals(m: &mut DnsMessage) -> (r: Vec<ResourceRecord>)
    ensures
        spec_record_views(r@) == old(m)@.sections.additionals,
        final(m)@ == (MessageView { sections: SectionsView { additionals: seq![], ..old(m)@.sections }, ..old(m)@ }),
{
    m.msg.take_additionals().into_iter().map(|inner| ResourceRecord { cell: RecordCell { inner }, view: Ghost(arbitrary()) }).collect()
}

/// Replaces the answer section (`*answers_mut() = records`).
#[verifier::external_body]
pub(crate) fn put_answers(m: &mut DnsMessage, records: Vec<ResourceRecord>)
    ensures
        final(m)@ == (MessageView {
            sections: SectionsView { answers: spec_record_views(records@), ..old(m)@.sections },
            ..old(m)@
        }),
{
    *m.msg.answers_mut() = records.into_iter().map(|r| r.cell.inner).collect();
}

/// Replaces the authority section (`*name_servers_mut() = records`).
#[verifier::external_body]
pub(crate) fn put_authority(m: &mut DnsMessage, records: Vec<ResourceRecord>)
    ensures
        final(m)@ == (MessageView {
            sections: SectionsView { authority: spec_record_views(records@), ..old(m)@.sections },
            ..old(m)@
        }),
{
    *m.msg.name_servers_mut() = records.into_iter().map(|r| r.cell.inner).collect();
}

/// Replaces the additional section (`*additionals_mut() = records`).
#[verifier::external_body]
pub(crate) fn put_additionals(m: &mut DnsMessage, records: Vec<ResourceRecord>)
    ensures
        final(m)@ == (MessageView {
            sections: SectionsView { additionals: spec_record_views(records@), ..old(m)@.sections },
            ..old(m)@
        }),
{
    *m.msg.additionals_mut() = records.into_iter().map(|r| r.cell.inner).collect();
}

/// `Record::ttl`.
#[verifier::external_body]
pub(crate) fn record_ttl(rr: &ResourceRecord) -> (r: u32)
    ensures
        r == rr.spec_view().ttl,
{
    rr.cell.inner.ttl()
}

/// `Record::set_ttl`: the TTL changes, the type stays.
#[verifier::external_body]
pub(crate) fn set_record_ttl(rr: &mut ResourceRecord, ttl: u32)
    ensures
        final(rr).spec_view() == (RecordView { ttl, ..old(rr).spec_view() }),
{
    rr.cell.inner.set_ttl(ttl);
}

/// The RRset a record belongs to: `(name().to_utf8(), u16::from(record_type()))`.
/// Trusted: the name is that of the record decoded at the record's origin
/// (setting the TTL leaves it).
#[verifier::external_body]
pub(crate) fn rrset_key(rr: &ResourceRecord) -> (r: (String, u16))
    ensures
        r.0@ == spec_wire_records(rr.spec_view().origin.0)[rr.spec_view().origin.1 as int][rr.spec_view().origin.2 as int].0,
        r.1 == rr.spec_view().rtype,
{
    (rr.cell.inner.name().to_utf8(), u16::from(rr.cell.inner.record_type()))
}

} // verus!
