use conduit_core::net::SockAddr;
use conduit_core::parse_reject::ParseRejectReason;
use conduit_core::phase::Phase;
use conduit_core::pipeline::StageOutcome;
use conduit_core::structural_parse::{apply_parsed_query, sort_dedup, structural_parse, ParseStage, ParsedQuery};
use conduit_core::transaction::{ClientProtocol, Transaction};
use hickory_proto::op::{Edns, Message, MessageType, Query};
use hickory_proto::rr::{Name, RecordType};
use hickory_proto::serialize::binary::{BinEncodable, BinEncoder};

fn encode_message(msg: Message) -> Vec<u8> {
    let mut buf = Vec::new();
    let mut encoder = BinEncoder::new(&mut buf);
    msg.emit(&mut encoder).unwrap();
    buf
}

fn example_query() -> Vec<u8> {
    let name = Name::from_utf8("www.example.com.").unwrap();
    let mut msg = Message::new();
    msg.add_query(Query::query(name, RecordType::A));
    encode_message(msg)
}

fn txn() -> Transaction {
    Transaction::new(1, SockAddr::v4(127, 0, 0, 1, 15353), ClientProtocol::Udp)
}

#[test]
fn structural_parse_valid_query() {
    let parsed = structural_parse(&example_query()).unwrap();
    assert_eq!(parsed.dns_id, 0);
    assert_eq!(parsed.opcode, 0);
    assert!(parsed.qname.trim_end_matches('.').eq("www.example.com"));
    assert_eq!(parsed.qtype, 1);
    assert_eq!(parsed.qclass, 1);
    assert!(parsed.edns_option_codes.is_empty());
    assert_eq!(parsed.client_udp_payload_size, None);
}

#[test]
fn structural_parse_rejects_empty() {
    assert_eq!(structural_parse(&[]), Err(ParseRejectReason::Empty));
}

#[test]
fn structural_parse_rejects_garbage() {
    assert_eq!(structural_parse(&[0xff, 0x00, 0x01]), Err(ParseRejectReason::WireError));
}

#[test]
fn structural_parse_rejects_not_query() {
    let name = Name::from_utf8("www.example.com.").unwrap();
    let mut msg = Message::new();
    msg.add_query(Query::query(name, RecordType::A));
    msg.set_message_type(MessageType::Response);
    assert_eq!(structural_parse(&encode_message(msg)), Err(ParseRejectReason::NotQuery));
}

#[test]
fn structural_parse_reads_edns_payload() {
    let name = Name::from_utf8("www.example.com.").unwrap();
    let mut msg = Message::new();
    msg.add_query(Query::query(name, RecordType::AAAA));
    let mut edns = Edns::new();
    edns.set_max_payload(1232);
    msg.set_edns(edns);
    let parsed = structural_parse(&encode_message(msg)).unwrap();
    assert_eq!(parsed.qtype, 28);
    assert_eq!(parsed.client_udp_payload_size, Some(1232));
    assert!(parsed.edns_option_codes.is_empty());
}

#[test]
fn sort_dedup_orders_and_removes_duplicates() {
    assert_eq!(sort_dedup(&vec![10, 3, 8, 3, 10, 1]), vec![1, 3, 8, 10]);
    assert!(sort_dedup(&vec![]).is_empty());
}

#[test]
fn apply_parsed_query_sets_selector_fields() {
    let mut txn = txn();
    apply_parsed_query(
        &mut txn,
        ParsedQuery {
            dns_id: 9,
            opcode: 0,
            qname: "test.example.".into(),
            qtype: 1,
            qclass: 1,
            client_udp_payload_size: Some(1232),
            edns_option_codes: vec![8],
        },
    );
    assert!(txn.pre_parsed);
    assert_eq!(txn.dns_id, 9);
    assert_eq!(txn.opcode, Some(0));
    assert_eq!(txn.qname.as_deref(), Some("test.example."));
    assert_eq!(txn.qtype, Some(1));
    assert_eq!(txn.qclass, Some(1));
    assert_eq!(txn.client_udp_payload_size, Some(1232));
    assert_eq!(txn.edns_option_codes, vec![8]);
}

#[test]
fn parse_skips_wire_when_pre_parsed() {
    let mut txn = txn();
    txn.pre_parsed = true;
    txn.qname = Some("www.example.com.".into());
    txn.qtype = Some(1);
    txn.qclass = Some(1);
    txn.dns_id = 42;
    assert_eq!(ParseStage.handle(&mut txn), StageOutcome::Continue(Phase::RequestRules));
    let mut broken = self::txn();
    broken.pre_parsed = true;
    assert_eq!(ParseStage.handle(&mut broken), StageOutcome::Drop);
    assert_eq!(broken.parse_reject_reason, Some(ParseRejectReason::WireError));
}

#[test]
fn parse_valid_query() {
    let mut txn = txn().with_query_wire(example_query());
    let outcome = ParseStage.handle(&mut txn);
    assert_eq!(outcome, StageOutcome::Continue(Phase::RequestRules));
    assert!(txn.pre_parsed);
    assert!(txn.qname.as_deref().is_some_and(|q| q.trim_end_matches('.') == "www.example.com"));
    assert_eq!(txn.qclass, Some(1));
    assert_eq!(txn.opcode, Some(0));
    assert!(txn.edns_option_codes.is_empty());
}

#[test]
fn parse_rejects_empty() {
    let mut txn = txn();
    assert_eq!(ParseStage.handle(&mut txn), StageOutcome::Drop);
    assert_eq!(txn.parse_reject_reason, Some(ParseRejectReason::Empty));
}

#[test]
fn parse_rejects_wire_error() {
    let mut txn = txn().with_query_wire(vec![0xff, 0x00, 0x01]);
    assert_eq!(ParseStage.handle(&mut txn), StageOutcome::Drop);
    assert_eq!(txn.parse_reject_reason, Some(ParseRejectReason::WireError));
}

#[test]
fn parse_rejects_not_query() {
    let name = Name::from_utf8("www.example.com.").unwrap();
    let mut msg = Message::new();
    msg.add_query(Query::query(name, RecordType::A));
    msg.set_message_type(MessageType::Response);
    let mut txn = txn().with_query_wire(encode_message(msg));
    assert_eq!(ParseStage.handle(&mut txn), StageOutcome::Drop);
    assert_eq!(txn.parse_reject_reason, Some(ParseRejectReason::NotQuery));
}

#[test]
fn parse_rejects_no_question() {
    let mut txn = txn().with_query_wire(encode_message(Message::new()));
    assert_eq!(ParseStage.handle(&mut txn), StageOutcome::Drop);
    assert_eq!(txn.parse_reject_reason, Some(ParseRejectReason::NoQuestion));
}

#[test]
fn parse_rejects_recursive_name_compression_pointer() {
    let wire = vec![
        0x00, 0x01, 0x00, 0x00, 0x00, 0x01, 0x00, 0x00, 0x00, 0x00, 0x00, 0x00, 0xC0, 0x0C, 0x00, 0x01,
        0x00, 0x01,
    ];
    let mut txn = txn().with_query_wire(wire);
    assert_eq!(ParseStage.handle(&mut txn), StageOutcome::Drop);
    assert_eq!(txn.parse_reject_reason, Some(ParseRejectReason::WireError));
}

#[test]
fn parse_rejects_multi_question() {
    let name = Name::from_utf8("www.example.com.").unwrap();
    let mut msg = Message::new();
    msg.add_query(Query::query(name.clone(), RecordType::A));
    msg.add_query(Query::query(name, RecordType::AAAA));
    let mut txn = txn().with_query_wire(encode_message(msg));
    assert_eq!(ParseStage.handle(&mut txn), StageOutcome::Drop);
    assert_eq!(txn.parse_reject_reason, Some(ParseRejectReason::MultiQuestion));
}

#[test]
fn parse_reject_reason_labels() {
    assert_eq!(ParseRejectReason::Empty.as_str(), "empty");
    assert_eq!(ParseRejectReason::WireError.as_str(), "wire_error");
    assert_eq!(ParseRejectReason::NotQuery.as_str(), "not_query");
    assert_eq!(ParseRejectReason::NoQuestion.as_str(), "no_question");
    assert_eq!(ParseRejectReason::MultiQuestion.as_str(), "multi_question");
}
