use conduit_core::health::probe::{ProbeOutcome, ProbeReply, ProbeSpec};
use hickory_proto::op::{Message, MessageType, ResponseCode};
use hickory_proto::rr::{Name, RecordType};
use hickory_proto::serialize::binary::BinDecodable;

fn spec_any() -> ProbeSpec {
    ProbeSpec::new("health.example.", 1, None).unwrap()
}

fn response(id: u16, qname: &str, qtype: u16, rcode: ResponseCode) -> Vec<u8> {
    let mut msg = Message::new();
    msg.set_id(id);
    msg.set_message_type(MessageType::Response);
    msg.set_response_code(rcode);
    let mut name = Name::from_utf8(qname).unwrap();
    name.set_fqdn(true);
    msg.add_query(hickory_proto::op::Query::query(name, RecordType::from(qtype)));
    msg.to_vec().unwrap()
}

#[test]
fn build_query_uses_supplied_id_and_question() {
    let wire = spec_any().build_query(0x4321).unwrap();
    let msg = Message::from_bytes(&wire).unwrap();
    assert_eq!(msg.id(), 0x4321);
    assert_eq!(msg.queries().len(), 1);
    assert_eq!(msg.queries()[0].query_type(), RecordType::A);
}

#[test]
fn any_rcode_is_success_by_default() {
    let spec = spec_any();
    let r = response(7, "health.example.", 1, ResponseCode::NXDomain);
    assert_eq!(spec.classify_response(7, &r), ProbeOutcome::Success);
    let r2 = response(7, "health.example.", 1, ResponseCode::ServFail);
    assert_eq!(spec.classify_response(7, &r2), ProbeOutcome::Success);
}

#[test]
fn narrowed_rcode_rejects_servfail() {
    let spec = ProbeSpec::new("health.example.", 1, Some(vec![0])).unwrap();
    let ok = response(9, "health.example.", 1, ResponseCode::NoError);
    assert_eq!(spec.classify_response(9, &ok), ProbeOutcome::Success);
    let bad = response(9, "health.example.", 1, ResponseCode::ServFail);
    assert_eq!(spec.classify_response(9, &bad), ProbeOutcome::Failure);
}

#[test]
fn mismatched_id_is_unmatched() {
    let spec = spec_any();
    let r = response(100, "health.example.", 1, ResponseCode::NoError);
    assert_eq!(spec.classify_response(101, &r), ProbeOutcome::Unmatched);
}

#[test]
fn mismatched_question_is_unmatched() {
    let spec = spec_any();
    let wrong_name = response(5, "other.example.", 1, ResponseCode::NoError);
    assert_eq!(spec.classify_response(5, &wrong_name), ProbeOutcome::Unmatched);
    let wrong_type = response(5, "health.example.", 28, ResponseCode::NoError);
    assert_eq!(spec.classify_response(5, &wrong_type), ProbeOutcome::Unmatched);
}

#[test]
fn malformed_datagram_is_unmatched() {
    let spec = spec_any();
    assert_eq!(spec.classify_response(5, &[0u8, 1, 2]), ProbeOutcome::Unmatched);
}

#[test]
fn question_match_is_case_insensitive() {
    let spec = spec_any();
    let r = response(5, "HEALTH.EXAMPLE.", 1, ResponseCode::NoError);
    assert_eq!(spec.classify_response(5, &r), ProbeOutcome::Success);
}

#[test]
fn invalid_probe_name_is_an_error() {
    let err = ProbeSpec::new("bad..name", 1, None).unwrap_err();
    assert!(err.starts_with("invalid probe qname 'bad..name'"), "{err}");
}

#[test]
fn classify_reply_decides_on_plain_fields() {
    let spec = ProbeSpec::new("health.example.", 1, Some(vec![0, 3])).unwrap();
    assert_eq!(spec.qtype(), 1);
    assert_eq!(spec.classify_reply(1, None), ProbeOutcome::Unmatched);
    let reply = |id, question, rcode| Some(ProbeReply { id, question, rcode });
    assert_eq!(spec.classify_reply(1, reply(1, None, 0)), ProbeOutcome::Unmatched);
    assert_eq!(spec.classify_reply(1, reply(1, Some((false, 1)), 0)), ProbeOutcome::Unmatched);
    assert_eq!(spec.classify_reply(1, reply(1, Some((true, 28)), 0)), ProbeOutcome::Unmatched);
    assert_eq!(spec.classify_reply(1, reply(1, Some((true, 1)), 3)), ProbeOutcome::Success);
    assert_eq!(spec.classify_reply(1, reply(1, Some((true, 1)), 2)), ProbeOutcome::Failure);
    assert_eq!(spec.classify_reply(1, reply(2, Some((true, 1)), 0)), ProbeOutcome::Unmatched);
}
