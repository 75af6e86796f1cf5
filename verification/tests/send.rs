use conduit_core::net::SockAddr;
use conduit_core::phase::Phase;
use conduit_core::pipeline::StageOutcome;
use conduit_core::stages::send::{build_error_response, truncate_udp, SendStage};
use conduit_core::transaction::{ClientProtocol, Transaction};
use hickory_proto::op::{Edns, Message, MessageType, Query, ResponseCode};
use hickory_proto::rr::rdata::{A, SOA};
use hickory_proto::rr::{Name, RData, Record, RecordType};
use hickory_proto::serialize::binary::{BinEncodable, BinEncoder};

fn example_query() -> Vec<u8> {
    let name = Name::from_utf8("foo.example.com.").unwrap();
    let query = Query::query(name, RecordType::A);
    let mut msg = Message::new();
    msg.add_query(query);
    encode_msg(&msg)
}

fn encode_msg(msg: &Message) -> Vec<u8> {
    let mut buf = Vec::new();
    let mut enc = BinEncoder::new(&mut buf);
    msg.emit(&mut enc).unwrap();
    buf
}

fn multi_a_response(count: u8) -> Message {
    let name = Name::from_ascii("big.example.").unwrap();
    let mut msg = Message::new();
    msg.set_id(0x2222);
    msg.set_message_type(MessageType::Response);
    msg.set_response_code(ResponseCode::NoError);
    msg.add_query(Query::query(name.clone(), RecordType::A));
    for i in 1..=count {
        msg.add_answer(Record::from_rdata(name.clone(), 300, RData::A(A::new(203, 0, 113, i))));
    }
    msg
}

#[test]
fn error_response_parses_query_after_compressed_upstream_response_roundtrip() {
    let name = Name::from_utf8("www.example.com.").unwrap();
    let mut upstream = Message::new();
    upstream.set_id(0x00_42);
    upstream.set_message_type(MessageType::Response);
    upstream.set_response_code(ResponseCode::NoError);
    upstream.add_query(Query::query(name.clone(), RecordType::A));
    upstream.add_answer(Record::from_rdata(name.clone(), 60, RData::A(A::new(1, 2, 3, 4))));
    let upstream_wire = encode_msg(&upstream);
    assert!(upstream_wire.windows(2).any(|w| w[0] & 0xC0 == 0xC0));

    let mut client_query = Message::new();
    client_query.set_id(0x00_42);
    client_query.add_query(Query::query(name, RecordType::A));
    let query_wire = encode_msg(&client_query);

    let _ = Message::from_vec(&upstream_wire).expect("compressed response parses");
    let (wire, _, _) = build_error_response(0x00_42, 5, &query_wire, None);
    let parsed = Message::from_vec(&wire).unwrap();
    assert_eq!(parsed.queries().first().unwrap().name().to_utf8(), "www.example.com.");
    assert_eq!(parsed.response_code(), ResponseCode::Refused);
}

#[test]
fn error_response_respects_512_without_edns() {
    let (wire, _, _) = build_error_response(42, 2, &example_query(), None);
    assert!(wire.len() <= 512);
    assert_eq!(wire[0], 0);
    assert_eq!(wire[1], 42);
    let parsed = Message::from_vec(&wire).unwrap();
    assert_eq!(parsed.queries().len(), 1);
    assert!(parsed.header().message_type() == MessageType::Response);
}

#[test]
fn existing_response_wire_truncated_for_udp_client_payload() {
    let name = Name::from_utf8("tc.policy-lab.test.example.").unwrap();
    let mut msg = Message::new();
    msg.set_id(0x1234);
    msg.set_message_type(MessageType::Response);
    msg.set_response_code(ResponseCode::NoError);
    msg.add_query(Query::query(name.clone(), RecordType::A));
    for i in 1..=40u8 {
        msg.add_answer(Record::from_rdata(name.clone(), 3600, RData::A(A::new(192, 0, 2, i))));
    }
    let oversized = encode_msg(&msg);
    assert!(oversized.len() > 512, "fixture must exceed 512 bytes, got {}", oversized.len());

    let mut txn = Transaction::new(1, SockAddr::v4(127, 0, 0, 1, 53), ClientProtocol::Udp);
    txn.client_udp_payload_size = Some(512);
    txn.response_wire = Some(oversized);

    let stage = SendStage;
    let _ = stage.handle(&mut txn);

    let wire = txn.response_wire.expect("send stage must keep wire");
    assert!(wire.len() <= 512, "wire len {}", wire.len());
    assert_ne!(wire[2] & 0x02, 0, "TC bit must be set");
    assert!(txn.udp_response_truncated_on_send);
    let parsed = Message::from_vec(&wire).expect("truncated wire must remain a valid DNS message");
    assert!(!parsed.answers().is_empty());
    for rr in parsed.answers() {
        assert_eq!(rr.record_type(), RecordType::A);
    }
}

#[test]
fn truncate_udp_never_cuts_mid_rr_and_sets_tc_for_partial_answer_rrset() {
    let msg = multi_a_response(40);
    let mut wire = encode_msg(&msg);
    let full_len = wire.len();
    assert!(full_len > 512);
    let limit = 200usize;
    assert!(limit < full_len);
    let truncated = truncate_udp(&mut wire, Some(limit as u16));
    assert!(truncated, "oversized answer RRset must set TC");
    assert!(wire.len() <= limit, "served len {} > limit {}", wire.len(), limit);
    assert_ne!(wire[2] & 0x02, 0);
    let parsed = Message::from_vec(&wire).expect("must not leave a mid-RR fragment");
    assert_eq!(parsed.id(), 0x2222);
    assert!(parsed.truncated());
    assert!(!parsed.answers().is_empty());
    assert!(parsed.answers().len() < 40);
    for rr in parsed.answers() {
        assert_eq!(rr.record_type(), RecordType::A);
        assert_eq!(rr.name().to_utf8(), "big.example.");
    }
}

#[test]
fn truncate_udp_drops_additionals_without_tc_when_answers_fit() {
    let qname = Name::from_ascii("small.example.").unwrap();
    let extra = Name::from_ascii("glue.example.").unwrap();
    let mut msg = Message::new();
    msg.set_id(0x3333);
    msg.set_message_type(MessageType::Response);
    msg.set_response_code(ResponseCode::NoError);
    msg.add_query(Query::query(qname.clone(), RecordType::A));
    msg.add_answer(Record::from_rdata(qname, 60, RData::A(A::new(192, 0, 2, 1))));
    for i in 1..=30u8 {
        msg.add_additional(Record::from_rdata(extra.clone(), 60, RData::A(A::new(198, 51, 100, i))));
    }
    let mut wire = encode_msg(&msg);
    let full_len = wire.len();
    let mut answers_only = msg.clone();
    answers_only.additionals_mut().clear();
    let answers_only_len = encode_msg(&answers_only).len();
    assert!(answers_only_len < full_len);
    let limit = answers_only_len + 8;
    assert!(limit < full_len);
    let truncated = truncate_udp(&mut wire, Some(limit as u16));
    assert!(!truncated, "dropping optional additionals should not set TC when answers fit");
    assert!(wire.len() <= limit);
    let parsed = Message::from_vec(&wire).unwrap();
    assert!(!parsed.truncated());
    assert_eq!(parsed.answers().len(), 1);
    assert!(parsed.additionals().is_empty());
}

#[test]
fn truncate_udp_noop_when_already_within_limit() {
    let msg = multi_a_response(2);
    let mut wire = encode_msg(&msg);
    let original = wire.clone();
    assert!(!truncate_udp(&mut wire, Some(512)));
    assert_eq!(wire, original);
    assert_eq!(wire[2] & 0x02, 0);
}

#[test]
fn truncate_udp_preserves_edns_when_trimming_answers() {
    let name = Name::from_ascii("edns.example.").unwrap();
    let mut msg = Message::new();
    msg.set_id(0x4444);
    msg.set_message_type(MessageType::Response);
    msg.set_response_code(ResponseCode::NoError);
    msg.add_query(Query::query(name.clone(), RecordType::A));
    for i in 1..=40u8 {
        msg.add_answer(Record::from_rdata(name.clone(), 60, RData::A(A::new(192, 0, 2, i))));
    }
    let mut edns = Edns::new();
    edns.set_max_payload(1232);
    msg.set_edns(edns);
    let mut wire = encode_msg(&msg);
    assert!(truncate_udp(&mut wire, Some(512)));
    let parsed = Message::from_vec(&wire).unwrap();
    assert!(parsed.truncated());
    let edns = parsed.extensions().as_ref().expect("EDNS OPT should survive truncation");
    assert_eq!(edns.max_payload(), 1232);
    assert!(wire.len() <= 512);
}

fn nxdomain_with_padding(qname: &str) -> Message {
    let qname = Name::from_ascii(qname).unwrap();
    let zone = Name::from_ascii("example.").unwrap();
    let mname = Name::from_ascii("ns.example.").unwrap();
    let rname = Name::from_ascii("hostmaster.example.").unwrap();
    let mut msg = Message::new();
    msg.set_message_type(MessageType::Response);
    msg.set_response_code(ResponseCode::NXDomain);
    msg.add_query(Query::query(qname, RecordType::A));
    msg.add_name_server(Record::from_rdata(
        zone,
        60,
        RData::SOA(SOA::new(mname, rname, 1, 7200, 3600, 1209600, 60)),
    ));
    let glue = Name::from_ascii("pad.example.").unwrap();
    for i in 1..=40u8 {
        msg.add_additional(Record::from_rdata(glue.clone(), 60, RData::A(A::new(203, 0, 113, i))));
    }
    msg
}

#[test]
fn truncate_udp_sets_tc_when_dropping_required_authority_on_nxdomain() {
    let mut msg = nxdomain_with_padding("missing.example.");
    msg.set_id(0x5555);
    let mut wire = encode_msg(&msg);
    let mut soa_only = msg.clone();
    soa_only.additionals_mut().clear();
    let soa_len = encode_msg(&soa_only).len();
    let limit = (soa_len / 2).max(64);
    assert!(limit < soa_len);
    let truncated = truncate_udp(&mut wire, Some(limit as u16));
    assert!(truncated, "dropping required NXDOMAIN authority must set TC");
    assert!(wire.len() <= limit);
    let parsed = Message::from_vec(&wire).unwrap();
    assert!(parsed.truncated());
    assert!(parsed.answers().is_empty());
}

#[test]
fn truncate_udp_nxdomain_drops_additionals_keeps_soa_without_tc() {
    let mut msg = nxdomain_with_padding("gone.example.");
    msg.set_id(0x7777);
    let mut wire = encode_msg(&msg);
    let mut soa_only = msg.clone();
    soa_only.additionals_mut().clear();
    let soa_len = encode_msg(&soa_only).len();
    let limit = soa_len + 8;
    assert!(limit < wire.len());
    let truncated = truncate_udp(&mut wire, Some(limit as u16));
    assert!(!truncated, "NXDOMAIN that fits after dropping additionals should keep SOA without TC");
    let parsed = Message::from_vec(&wire).unwrap();
    assert!(!parsed.truncated());
    assert_eq!(parsed.name_servers().len(), 1);
    assert_eq!(parsed.name_servers()[0].record_type(), RecordType::SOA);
    assert!(parsed.additionals().is_empty());
}

#[test]
fn truncate_udp_positive_answer_drops_authority_without_tc_when_answers_fit() {
    let qname = Name::from_ascii("www.example.").unwrap();
    let ns = Name::from_ascii("ns.example.").unwrap();
    let mut msg = Message::new();
    msg.set_id(0x6666);
    msg.set_message_type(MessageType::Response);
    msg.set_response_code(ResponseCode::NoError);
    msg.add_query(Query::query(qname.clone(), RecordType::A));
    msg.add_answer(Record::from_rdata(qname, 60, RData::A(A::new(192, 0, 2, 9))));
    for i in 1..=30u8 {
        msg.add_name_server(Record::from_rdata(ns.clone(), 60, RData::A(A::new(198, 51, 100, i))));
    }
    let mut wire = encode_msg(&msg);
    let mut answers_only = msg.clone();
    answers_only.name_servers_mut().clear();
    let answers_len = encode_msg(&answers_only).len();
    let limit = answers_len + 4;
    assert!(limit < wire.len());
    let truncated = truncate_udp(&mut wire, Some(limit as u16));
    assert!(!truncated, "positive answer that fits after dropping authority should not set TC");
    let parsed = Message::from_vec(&wire).unwrap();
    assert!(!parsed.truncated());
    assert_eq!(parsed.answers().len(), 1);
    assert!(parsed.name_servers().is_empty());
}

#[test]
fn truncate_udp_clips_undecodable_wire_and_sets_tc() {
    let mut wire = vec![0xffu8; 600];
    wire[2] = 0;
    assert!(truncate_udp(&mut wire, None));
    assert_eq!(wire.len(), 512);
    assert_eq!(wire[2], 0x02);
}

#[test]
fn truncate_udp_tiny_limit_never_exceeds_it() {
    let msg = multi_a_response(10);
    let mut wire = encode_msg(&msg);
    assert!(truncate_udp(&mut wire, Some(5)));
    assert!(wire.len() <= 5);
}

#[test]
fn send_keeps_tcp_wire_untouched() {
    let msg = multi_a_response(40);
    let oversized = encode_msg(&msg);
    let mut txn = Transaction::new(2, SockAddr::v4(127, 0, 0, 1, 53), ClientProtocol::Tcp);
    txn.response_wire = Some(oversized.clone());
    assert_eq!(SendStage.handle(&mut txn), StageOutcome::Continue(Phase::Send));
    assert_eq!(txn.response_wire, Some(oversized));
    assert!(!txn.udp_response_truncated_on_send);
}

#[test]
fn send_builds_servfail_when_no_response_wire() {
    let mut txn = Transaction::new(3, SockAddr::v4(127, 0, 0, 1, 53), ClientProtocol::Udp);
    txn.dns_id = 77;
    txn.query_wire = example_query();
    assert_eq!(SendStage.handle(&mut txn), StageOutcome::Continue(Phase::Send));
    let parsed = Message::from_vec(txn.response_wire.as_ref().unwrap()).unwrap();
    assert_eq!(parsed.id(), 77);
    assert_eq!(parsed.response_code(), ResponseCode::ServFail);
    assert!(parsed.authoritative());
    assert_eq!(parsed.queries().len(), 1);
}

#[test]
fn error_reply_header_keeps_low_rcode_bits_and_sets_qr_aa() {
    let (wire, tc, before) = build_error_response(0x1234, 0x13, &example_query(), None);
    assert!(!tc);
    assert_eq!(wire.len(), before);
    assert_eq!(&wire[0..2], &[0x12, 0x34]);
    assert_eq!(wire[2] & 0x80, 0x80);
    assert_eq!(wire[2] & 0x04, 0x04);
    assert_eq!(wire[3] & 0x0f, 0x03);
    let parsed = Message::from_vec(&wire).unwrap();
    assert_eq!(parsed.queries().len(), 1);
}

#[test]
fn error_reply_without_query_has_no_question() {
    let (wire, tc, _) = build_error_response(9, 5, &[], Some(1232));
    assert!(!tc);
    let parsed = Message::from_vec(&wire).unwrap();
    assert_eq!(parsed.id(), 9);
    assert_eq!(parsed.message_type(), MessageType::Response);
    assert_eq!(parsed.response_code(), ResponseCode::Refused);
    assert!(parsed.queries().is_empty());
}

#[test]
fn truncated_reply_keeps_leading_answer_ttls() {
    let msg = multi_a_response(60);
    let wire = encode_msg(&msg);
    let mut buf = wire.clone();
    assert!(truncate_udp(&mut buf, Some(512)));
    assert!(buf.len() <= 512);
    let parsed = Message::from_vec(&buf).unwrap();
    assert!(parsed.truncated());
    assert!(!parsed.answers().is_empty());
    for (kept, orig) in parsed.answers().iter().zip(msg.answers().iter()) {
        assert_eq!(kept, orig);
    }
}
