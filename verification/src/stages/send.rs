//! Send phase: make sure a response wire exists and fit it to the client's
//! UDP payload size on record boundaries.

use vstd::prelude::*;

use crate::dns_message::{spec_wire_header, spec_wire_tc, spec_zero_header, spec_summary_agrees, spec_no_opt,
    spec_ttls, spec_wire_agrees, spec_edns_payload_ok, spec_edns_view, EdnsSection, HeaderView, MessageView, SectionsView,
    add_questions, answer_count, authority_count, clear_additionals, clear_authority,
    decode_message, edns_of, encode_message, keep_answers, mark_response, new_message, put_edns, DnsMessage,
    set_authoritative, set_message_id, set_rcode_low, take_questions,
};
use crate::lookup::cache::response::spec_response_summary;
use crate::structural_parse::{spec_wire_edns, spec_wire_query};
use crate::phase::Phase;
use crate::pipeline::StageOutcome;
use crate::transaction::{ClientProtocol, Transaction};

verus! {

/// The UDP payload limit: the client's advertised size, else 512 bytes.
pub open spec fn spec_payload_limit(size: Option<u16>) -> int {
    match size {
        Some(n) => n as int,
        None => 512,
    }
}

/// The header's TC flag (bit 0x02 of the third byte), for a wire long
/// enough to hold it.
pub open spec fn spec_tc_marked(wire: Seq<u8>) -> bool {
    wire.len() >= 3 ==> wire[2] & 2u8 != 0
}

/// `wire` with its TC flag set, when it is long enough to hold one.
pub open spec fn spec_mark_tc(wire: Seq<u8>) -> Seq<u8> {
    if wire.len() >= 3 {
        wire.update(2, wire[2] | 2u8)
    } else {
        wire
    }
}

/// The last-resort clip: the first `limit` bytes, TC flag set.
pub open spec fn spec_clip(wire: Seq<u8>, limit: int) -> Seq<u8> {
    spec_mark_tc(if wire.len() > limit { wire.take(limit) } else { wire })
}

proof fn lemma_mark_tc(b: u8)
    ensures
        (b | 2u8) & 2u8 != 0,
        (b | 2u8) & 0x80u8 == b & 0x80u8,
        (b | 2u8) & 0x04u8 == b & 0x04u8,
{
    assert((b | 2u8) & 2u8 != 0) by (bit_vector);
    assert((b | 2u8) & 0x80u8 == b & 0x80u8) by (bit_vector);
    assert((b | 2u8) & 0x04u8 == b & 0x04u8) by (bit_vector);
}

/// Setting TC leaves the header fields the library reads as they were.
proof fn lemma_mark_tc_header(w: Seq<u8>)
    ensures
        spec_wire_header(spec_mark_tc(w)) == spec_wire_header(w),
{
    if w.len() >= 12 {
        lemma_mark_tc(w[2]);
        let m = spec_mark_tc(w);
        assert(m[0] == w[0] && m[1] == w[1] && m[3] == w[3]);
    }
}

/// Clipping to 12 bytes or more leaves the header fields as they were.
proof fn lemma_clip_header(w: Seq<u8>, limit: int)
    requires
        limit >= 12,
    ensures
        spec_wire_header(spec_clip(w, limit)) == spec_wire_header(w),
{
    let t = if w.len() > limit { w.take(limit) } else { w };
    if w.len() >= 12 {
        assert(t[0] == w[0] && t[1] == w[1] && t[2] == w[2] && t[3] == w[3]);
    }
    lemma_mark_tc_header(t);
}

/// Sets the TC flag on the wire, when it is long enough to hold one.
fn mark_tc(wire: &mut Vec<u8>)
    ensures
        final(wire)@ == spec_mark_tc(old(wire)@),
        spec_tc_marked(final(wire)@),
        spec_wire_header(final(wire)@) == spec_wire_header(old(wire)@),
{
    proof {
        lemma_mark_tc_header(wire@);
    }
    if wire.len() >= 3 {
        let b = wire[2];
        wire.set(2, b | 2u8);
        proof {
            lemma_mark_tc(b);
        }
    }
}

/// Clips the wire to `limit` bytes and sets its TC flag.
fn clip(wire: &mut Vec<u8>, limit: usize)
    ensures
        final(wire)@ == spec_clip(old(wire)@, limit as int),
        final(wire)@.len() <= limit,
        spec_tc_marked(final(wire)@),
        limit >= 12 ==> spec_wire_header(final(wire)@) == spec_wire_header(old(wire)@),
{
    proof {
        if limit >= 12 {
            lemma_clip_header(wire@, limit as int);
        }
    }
    wire.truncate(limit);
    mark_tc(wire);
}

/// Encodes the message when the encoding succeeds and fits in `limit` bytes.
fn emit_if_fits(msg: &DnsMessage, limit: usize) -> (r: Option<Vec<u8>>)
    ensures
        r matches Some(w) ==> w@.len() <= limit && spec_wire_header(w@) == Some(msg.spec_header()),
        r matches Some(w) ==> (!spec_wire_tc(w@) && spec_no_opt(msg@.sections.additionals) && spec_edns_payload_ok(msg@)
            ==> spec_wire_agrees(w@, msg@)),
{
    let (wire, ok) = encode_message(msg);
    if ok && wire.len() <= limit {
        Some(wire)
    } else {
        None
    }
}

/// Restores the EDNS section kept aside before a section was dropped.
fn restore_edns(msg: &mut DnsMessage, edns: &Option<EdnsSection>)
    ensures
        final(msg)@ == (MessageView {
            edns: match edns {
                Some(e) => Some(e.spec_view()),
                None => old(msg)@.edns,
            },
            edns_origin: match edns {
                Some(e) => Some(e.spec_origin()),
                None => old(msg)@.edns_origin,
            },
            ..old(msg)@
        }),
{
    match edns {
        Some(e) => put_edns(msg, e),
        None => {},
    }
}

/// The records a cut wire keeps of the original, as their response
/// summaries show them: every answer and authority record (only additional
/// records dropped), or the first answer records and no authority record.
pub open spec fn spec_whole_records(
    orig: Option<(u16, nat, Seq<u32>, bool)>,
    cut: Option<(u16, nat, Seq<u32>, bool)>,
) -> bool {
    let n = (orig->0).1;
    let t = (orig->0).2;
    &&& orig is Some
    &&& cut is Some
    &&& (cut->0).1 <= n
    &&& ((cut->0).2 == t && (cut->0).1 == n) || (cut->0).2 == t.take((cut->0).1 as int)
}

/// A served wire that carries TC after fitting: the clipped original, or a
/// re-encoding (with TC set, or clipped) that, read with the TC flag the
/// encoder gave it, keeps whole records of the original when the encoder
/// itself left none out.
pub open spec fn spec_tc_fit(orig: Seq<u8>, served: Seq<u8>, limit: int) -> bool {
    ||| served == spec_clip(orig, limit)
    ||| exists|w: Seq<u8>| #![trigger spec_mark_tc(w)] served == spec_mark_tc(w)
            && (!spec_wire_tc(w) ==> spec_whole_records(spec_response_summary(orig), spec_response_summary(w)))
    ||| exists|w: Seq<u8>| #![trigger spec_clip(w, limit)] served == spec_clip(w, limit)
            && (!spec_wire_tc(w) ==> spec_whole_records(spec_response_summary(orig), spec_response_summary(w)))
}

proof fn lemma_whole_records(orig: Seq<u8>, s0: SectionsView, cut: Seq<u8>, s1: SectionsView, k: int)
    requires
        spec_summary_agrees(spec_response_summary(orig), s0),
        spec_summary_agrees(spec_response_summary(cut), s1),
        0 <= k <= s0.answers.len(),
        s1.answers == s0.answers.take(k),
        (k == s0.answers.len() && s1.authority == s0.authority) || s1.authority.len() == 0,
    ensures
        spec_whole_records(spec_response_summary(orig), spec_response_summary(cut)),
        (spec_response_summary(cut)->0).1 == k,
{
    let t = (spec_response_summary(orig)->0).2;
    assert(s1.answers.len() == k);
    if s1.authority.len() == 0 {
        assert(spec_ttls(s1.authority) =~= Seq::<u32>::empty());
        assert(spec_ttls(s1.answers) + spec_ttls(s1.authority) =~= t.take(k));
    } else {
        assert(s0.answers.take(k) =~= s0.answers);
    }
}

/// Fit a DNS response into the UDP payload limit without cutting inside a
/// record.
///
/// Optional additional records go first, then authority records (whose loss
/// sets TC when the reply has no answers), then answer records from the end
/// (TC set). EDNS is kept. A wire that does not decode, or that cannot be
/// brought under the limit as whole records, is clipped to the limit with
/// TC set. Returns whether the served wire carries TC; a wire already within
/// the limit is left as it is. A re-encoded reply keeps whole records of the
/// original (`spec_whole_records`): without TC, every answer record and the
/// authority records or none; with TC, a prefix of the answer records and
/// no authority record, as the encoder's own TC flag allows it to be read.
pub fn truncate_udp(buf: &mut Vec<u8>, udp_payload_size: Option<u16>) -> (tc: bool)
    ensures
        old(buf)@.len() <= spec_payload_limit(udp_payload_size) ==> final(buf)@ == old(buf)@ && !tc,
        final(buf)@.len() <= spec_payload_limit(udp_payload_size),
        tc ==> spec_tc_marked(final(buf)@),
        old(buf)@.len() > spec_payload_limit(udp_payload_size) && spec_response_summary(old(buf)@) is None
            ==> tc && final(buf)@ == spec_clip(old(buf)@, spec_payload_limit(udp_payload_size)),
        spec_payload_limit(udp_payload_size) >= 12 && spec_wire_header(old(buf)@) is Some
            ==> spec_wire_header(final(buf)@) == spec_wire_header(old(buf)@),
        old(buf)@.len() > spec_payload_limit(udp_payload_size) && spec_response_summary(old(buf)@) is Some
            && !tc && !spec_wire_tc(final(buf)@)
            ==> spec_whole_records(spec_response_summary(old(buf)@), spec_response_summary(final(buf)@))
                && (spec_response_summary(final(buf)@)->0).1 == (spec_response_summary(old(buf)@)->0).1,
        old(buf)@.len() > spec_payload_limit(udp_payload_size) && spec_response_summary(old(buf)@) is Some && tc
            ==> spec_tc_fit(old(buf)@, final(buf)@, spec_payload_limit(udp_payload_size)),
{
    let limit: usize = match udp_payload_size {
        Some(n) => n as usize,
        None => 512,
    };
    if buf.len() <= limit {
        return false;
    }
    let mut msg = match decode_message(buf.as_slice()) {
        Some(m) => m,
        None => {
            clip(buf, limit);
            return true;
        },
    };
    let ghost orig = buf@;
    let ghost s0 = msg.spec_sections();
    let ghost e0 = msg@.edns;
    let edns = edns_of(&msg);
    let had_answers = answer_count(&msg) != 0;
    let had_authority = authority_count(&msg) != 0;

    // Additional records are optional: dropping them alone does not set TC.
    clear_additionals(&mut msg);
    restore_edns(&mut msg, &edns);
    match emit_if_fits(&msg, limit) {
        Some(wire) => {
            proof {
                assert(s0.answers.take(s0.answers.len() as int) =~= s0.answers);
                if !spec_wire_tc(wire@) {
                    lemma_whole_records(orig, s0, wire@, msg.spec_sections(), s0.answers.len() as int);
                }
            }
            *buf = wire;
            return false;
        },
        None => {},
    }

    // Authority next: optional beside answers, required content of an
    // empty-answer reply (NXDOMAIN, referral), whose loss sets TC.
    clear_authority(&mut msg);
    let authority_required = had_authority && !had_answers;
    restore_edns(&mut msg, &edns);
    match emit_if_fits(&msg, limit) {
        Some(wire) => {
            proof {
                assert(s0.answers.take(s0.answers.len() as int) =~= s0.answers);
                if !spec_wire_tc(wire@) {
                    lemma_whole_records(orig, s0, wire@, msg.spec_sections(), s0.answers.len() as int);
                }
            }
            *buf = wire;
            if authority_required {
                let ghost w = buf@;
                mark_tc(buf);
                assert(buf@ == spec_mark_tc(w));
            }
            return authority_required;
        },
        None => {},
    }

    // Required answer data is still too large: TC, and whole answer records
    // are dropped from the end until the reply fits.
    let mut keep: usize = answer_count(&msg);
    assert(msg.spec_sections().answers =~= s0.answers.take(keep as int));
    while keep > 0
        invariant
            limit == spec_payload_limit(udp_payload_size),
            buf@ == old(buf)@,
            orig == old(buf)@,
            old(buf)@.len() > limit,
            spec_response_summary(old(buf)@) is Some,
            spec_summary_agrees(spec_response_summary(orig), s0),
            spec_wire_header(old(buf)@) == Some(msg.spec_header()),
            keep <= s0.answers.len(),
            msg.spec_sections().answers == s0.answers.take(keep as int),
            msg.spec_sections().authority.len() == 0,
            msg.spec_sections().additionals.len() == 0,
            msg@.edns == e0,
            spec_edns_view(edns) == e0,
            spec_edns_payload_ok(msg@),
        decreases keep,
    {
        restore_edns(&mut msg, &edns);
        match emit_if_fits(&msg, limit) {
            Some(wire) => {
                proof {
                    assert(msg.spec_sections().answers =~= s0.answers.take(keep as int));
                    assert(spec_no_opt(msg.spec_sections().additionals));
                    if !spec_wire_tc(wire@) {
                        lemma_whole_records(orig, s0, wire@, msg.spec_sections(), keep as int);
                    }
                }
                *buf = wire;
                let ghost w = buf@;
                mark_tc(buf);
                assert(buf@ == spec_mark_tc(w));
                return true;
            },
            None => {},
        }
        keep = keep - 1;
        keep_answers(&mut msg, keep);
        proof {
            assert(s0.answers.take(keep + 1).take(keep as int) =~= s0.answers.take(keep as int));
        }
    }

    // No answers left and still oversized (huge question or EDNS): best effort.
    restore_edns(&mut msg, &edns);
    let (mut wire, ok) = encode_message(&msg);
    proof {
        assert(msg.spec_sections().answers =~= s0.answers.take(0));
        assert(spec_no_opt(msg.spec_sections().additionals));
        if ok && !spec_wire_tc(wire@) {
            lemma_whole_records(orig, s0, wire@, msg.spec_sections(), 0);
        }
    }
    if ok {
        let ghost w = wire@;
        if wire.len() > limit {
            clip(&mut wire, limit);
            assert(wire@ == spec_clip(w, limit as int));
        } else {
            mark_tc(&mut wire);
            assert(wire@ == spec_mark_tc(w));
        }
        *buf = wire;
    } else {
        clip(buf, limit);
    }
    true
}

/// The header of an error reply: response id `id`, QR and AA set, and the
/// low four bits of `rcode`.
pub open spec fn spec_error_header(id: u16, rcode: u16) -> HeaderView {
    HeaderView { id, response: true, authoritative: true, rcode_low: (rcode & 0xf) as u8 }
}

/// What an error reply to `query` reads back: the query's questions and
/// EDNS section when the query is not empty and decodes; no question and no
/// EDNS section otherwise.
pub open spec fn spec_error_reply_body(query: Seq<u8>, reply: Seq<u8>) -> bool {
    let decodes = query.len() != 0 && spec_wire_query(query) is Some;
    &&& spec_wire_query(reply) is Some
    &&& (spec_wire_query(reply)->0).3 == (if decodes { (spec_wire_query(query)->0).3 } else { seq![] })
    &&& spec_wire_edns(reply) == (if decodes { spec_wire_edns(query) } else { None })
}

/// Build an error reply to `query_wire`: a response with id `id`, the low
/// four bits of `rcode`, AA set, and the query's questions and EDNS when the
/// query decodes; then fitted to the UDP payload limit. Returns the wire,
/// whether TC was set, and the encoded length before fitting. When the
/// encoder fails, its buffer (a zero header and what was written after it)
/// is fitted and served as it is.
pub fn build_error_response(id: u16, rcode: u16, query_wire: &[u8], udp_payload_size: Option<u16>) -> (r: (
    Vec<u8>,
    bool,
    usize,
))
    ensures
        r.0@.len() <= spec_payload_limit(udp_payload_size),
        r.1 ==> spec_tc_marked(r.0@),
        r.2 <= spec_payload_limit(udp_payload_size) ==> !r.1 && r.0@.len() == r.2,
        spec_payload_limit(udp_payload_size) >= 12 ==> (spec_wire_header(r.0@) == Some(spec_error_header(id, rcode))
            || spec_wire_header(r.0@) == Some(spec_zero_header())),
        spec_wire_header(r.0@) matches Some(h) ==> (h.response ==> h == spec_error_header(id, rcode)),
        spec_wire_header(r.0@) matches Some(h) ==> (h.response && !spec_wire_tc(r.0@)
            && r.2 <= spec_payload_limit(udp_payload_size) ==> spec_error_reply_body(query_wire@, r.0@)),
{
    let mut msg = new_message();
    set_message_id(&mut msg, id);
    mark_response(&mut msg);
    if query_wire.len() != 0 {
        match decode_message(query_wire) {
            Some(mut query) => {
                let questions = take_questions(&mut query);
                add_questions(&mut msg, questions);
                match edns_of(&query) {
                    Some(e) => put_edns(&mut msg, &e),
                    None => {},
                }
            },
            None => {},
        }
    }
    let low = rcode & 0xf;
    assert(rcode & 0xf <= 0xf) by (bit_vector);
    set_rcode_low(&mut msg, low as u8);
    set_authoritative(&mut msg, true);
    let (mut buf, _ok) = encode_message(&msg);
    let before_len = buf.len();
    let truncated = truncate_udp(&mut buf, udp_payload_size);
    (buf, truncated, before_len)
}

/// The rcode of an error reply for a transaction: its own, SERVFAIL (2)
/// when it has none.
pub open spec fn spec_reply_rcode(rcode: Option<u16>) -> u16 {
    match rcode {
        Some(c) => c,
        None => 2,
    }
}

/// The send stage.
pub struct SendStage;

impl SendStage {
    /// Keep the response wire, fitted to the client's payload size for UDP,
    /// or build an error reply (rcode from the transaction, SERVFAIL when
    /// unset) when there is none. Sets `udp_response_truncated_on_send` when
    /// the served wire carries TC. Always continues at Send.
    pub fn handle(&self, txn: &mut Transaction) -> (r: StageOutcome)
        ensures
            r == StageOutcome::Continue(Phase::Send),
            final(txn).response_wire is Some,
            *final(txn) == (Transaction {
                response_wire: final(txn).response_wire,
                udp_response_truncated_on_send: final(txn).udp_response_truncated_on_send,
                ..*old(txn)
            }),
            final(txn).udp_response_truncated_on_send != old(txn).udp_response_truncated_on_send
                ==> final(txn).udp_response_truncated_on_send
                    && spec_tc_marked(final(txn).response_wire.unwrap()@),
            match old(txn).response_wire {
                Some(w) => if old(txn).protocol == ClientProtocol::Udp {
                    &&& final(txn).response_wire.unwrap()@.len()
                        <= spec_payload_limit(old(txn).client_udp_payload_size)
                    &&& w@.len() <= spec_payload_limit(old(txn).client_udp_payload_size)
                        ==> final(txn).response_wire.unwrap()@ == w@
                            && final(txn).udp_response_truncated_on_send == old(txn).udp_response_truncated_on_send
                    &&& w@.len() > spec_payload_limit(old(txn).client_udp_payload_size)
                        && spec_response_summary(w@) is None
                        ==> final(txn).response_wire.unwrap()@
                                == spec_clip(w@, spec_payload_limit(old(txn).client_udp_payload_size))
                            && final(txn).udp_response_truncated_on_send
                } else {
                    final(txn).response_wire == Some(w)
                        && final(txn).udp_response_truncated_on_send == old(txn).udp_response_truncated_on_send
                },
                None => {
                    let w = final(txn).response_wire.unwrap()@;
                    let h = spec_error_header(old(txn).dns_id, spec_reply_rcode(old(txn).rcode));
                    &&& w.len() <= spec_payload_limit(old(txn).client_udp_payload_size)
                    &&& spec_payload_limit(old(txn).client_udp_payload_size) >= 12
                        ==> (spec_wire_header(w) == Some(h) || spec_wire_header(w) == Some(spec_zero_header()))
                    &&& spec_wire_header(w) matches Some(g) ==> (g.response ==> g == h)
                },
            },
    {
        match txn.response_wire.take() {
            Some(mut wire) => {
                if txn.protocol == ClientProtocol::Udp {
                    if truncate_udp(&mut wire, txn.client_udp_payload_size) {
                        txn.udp_response_truncated_on_send = true;
                    }
                }
                txn.response_wire = Some(wire);
                StageOutcome::Continue(Phase::Send)
            },
            None => {
                let rcode: u16 = match txn.rcode {
                    Some(c) => c,
                    None => 2,
                };
                let (wire, truncated, _before_len) = build_error_response(
                    txn.dns_id,
                    rcode,
                    txn.query_wire.as_slice(),
                    txn.client_udp_payload_size,
                );
                if truncated {
                    txn.udp_response_truncated_on_send = true;
                }
                txn.response_wire = Some(wire);
                StageOutcome::Continue(Phase::Send)
            },
        }
    }
}

} // verus!
