use conduit_core::lookup::cache::key::{
    build_key_from_parts, build_query_key, build_truncated_udp_key, KeyError, TransportKey,
};
use conduit_core::net::SockAddr;
use conduit_core::transaction::{ClientProtocol, Transaction};
use hickory_proto::op::{Edns, Message, Query};
use hickory_proto::rr::{Name, RecordType};
use hickory_proto::serialize::binary::{BinEncodable, BinEncoder};

fn encode(msg: &Message) -> Vec<u8> {
    let mut buf = Vec::new();
    let mut enc = BinEncoder::new(&mut buf);
    msg.emit(&mut enc).unwrap();
    buf
}

fn example_query() -> Vec<u8> {
    let name = Name::from_utf8("www.example.com.").unwrap();
    let mut msg = Message::new();
    msg.add_query(Query::query(name, RecordType::A));
    encode(&msg)
}

fn query_with_dnssec_flags(cd: bool, do_bit: bool) -> Vec<u8> {
    let name = Name::from_utf8("www.example.com.").unwrap();
    let mut msg = Message::new();
    msg.add_query(Query::query(name, RecordType::A));
    msg.set_checking_disabled(cd);
    let mut edns = Edns::new();
    edns.set_max_payload(1232);
    edns.set_dnssec_ok(do_bit);
    msg.set_edns(edns);
    encode(&msg)
}

fn txn_for(id: u64, qname: &str, wire: Vec<u8>, protocol: ClientProtocol) -> Transaction {
    let mut txn = Transaction::new(id, SockAddr::v4(127, 0, 0, 1, 53), protocol);
    txn.qname = Some(qname.into());
    txn.qtype = Some(1);
    txn.qclass = Some(1);
    txn.query_wire = wire;
    txn
}

fn txn_with_wire(id: u64, wire: Vec<u8>) -> Transaction {
    txn_for(id, "www.example.com.", wire, ClientProtocol::Udp)
}

#[test]
fn distinct_qnames_produce_distinct_keys() {
    let a = txn_for(1, "www.example.com.", example_query(), ClientProtocol::Udp);
    let b = txn_for(2, "other.example.com.", example_query(), ClientProtocol::Udp);
    assert_ne!(build_query_key(&a).unwrap(), build_query_key(&b).unwrap());
}

#[test]
fn case_insensitive_qname_normalization() {
    let lower = txn_for(1, "www.example.com.", example_query(), ClientProtocol::Udp);
    let upper = txn_for(2, "WWW.EXAMPLE.COM.", example_query(), ClientProtocol::Udp);
    assert_eq!(build_query_key(&lower).unwrap(), build_query_key(&upper).unwrap());
}

#[test]
fn udp_and_tcp_clients_share_complete_answer_key() {
    let udp = txn_for(1, "www.example.com.", example_query(), ClientProtocol::Udp);
    let tcp = txn_for(2, "www.example.com.", example_query(), ClientProtocol::Tcp);
    assert_eq!(build_query_key(&udp).unwrap(), build_query_key(&tcp).unwrap());
}

#[test]
fn truncated_udp_key_differs_from_complete_key() {
    let txn = txn_with_wire(1, example_query());
    assert_ne!(build_query_key(&txn).unwrap(), build_truncated_udp_key(&txn).unwrap());
}

#[test]
fn cd_and_do_bits_produce_distinct_keys() {
    let neither = txn_with_wire(1, query_with_dnssec_flags(false, false));
    let cd_only = txn_with_wire(2, query_with_dnssec_flags(true, false));
    let do_only = txn_with_wire(3, query_with_dnssec_flags(false, true));
    let both = txn_with_wire(4, query_with_dnssec_flags(true, true));

    let k_neither = build_query_key(&neither).unwrap();
    let k_cd = build_query_key(&cd_only).unwrap();
    let k_do = build_query_key(&do_only).unwrap();
    let k_both = build_query_key(&both).unwrap();

    assert_ne!(k_neither, k_cd, "CD bit must change the cache key");
    assert_ne!(k_neither, k_do, "DO bit must change the cache key");
    assert_ne!(k_cd, k_do, "CD-only and DO-only keys must differ");
    assert_ne!(k_both, k_cd);
    assert_ne!(k_both, k_do);
    assert_ne!(k_both, k_neither);
}

#[test]
fn key_layout_is_exact() {
    let key = build_key_from_parts("Example.COM", 28, 1, &example_query(), TransportKey::UdpTruncated).unwrap();
    // version, name length, name wire ("example" "com" root), qtype, qclass, flags, transport, ecs length
    let mut want = vec![1u8, 0, 13];
    want.extend_from_slice(&[7, b'e', b'x', b'a', b'm', b'p', b'l', b'e', 3, b'c', b'o', b'm', 0]);
    want.extend_from_slice(&[0, 28, 0, 1, 0, 2, 0]);
    assert_eq!(key.as_bytes(), &want[..]);
    // Trailing dots collapse to one; the root name is a single zero byte.
    let dotted = build_key_from_parts("example.com..", 28, 1, &example_query(), TransportKey::UdpTruncated).unwrap();
    let plain = build_key_from_parts("example.com.", 28, 1, &example_query(), TransportKey::UdpTruncated).unwrap();
    assert_eq!(dotted, plain);
    let root = build_key_from_parts(".", 2, 1, &example_query(), TransportKey::Complete).unwrap();
    assert_eq!(&root.as_bytes()[..4], &[1, 0, 1, 0]);
}

#[test]
fn bad_query_wire_is_rejected() {
    assert_eq!(build_key_from_parts("a.", 1, 1, &[0xff, 0x00], TransportKey::Complete), Err(KeyError::InvalidQuery));
    assert_eq!(TransportKey::Complete.as_byte(), 0);
    assert_eq!(TransportKey::UdpTruncated.as_byte(), 2);
}
