use conduit_core::clock::Instant;
use conduit_core::lookup::cache::entry::{expires_at_from_ttl, CacheEntry, EntryKind};
use conduit_core::lookup::cache::inflight::{InFlightGate, InFlightRole};
use conduit_core::lookup::cache::key::build_query_key;
use conduit_core::lookup::cache::memory::{entry_from_wire, MemoryCacheBackend, MemoryCacheConfig};
use conduit_core::lookup::cache::registry::{ancestor_qnames, should_store_truncated, try_ancestor_nxdomain_hit};
use conduit_core::lookup::outcome::AnswerSource;
use conduit_core::net::SockAddr;
use conduit_core::transaction::{ClientProtocol, Transaction};
use hickory_proto::op::{Message, Query, ResponseCode};
use hickory_proto::rr::{Name, RecordType};
use hickory_proto::serialize::binary::{BinEncodable, BinEncoder};

fn encode(msg: &Message) -> Vec<u8> {
    let mut buf = Vec::new();
    let mut enc = BinEncoder::new(&mut buf);
    msg.emit(&mut enc).unwrap();
    buf
}

fn client_query(qname: &str) -> Vec<u8> {
    let mut msg = Message::new();
    msg.add_query(Query::query(Name::from_utf8(qname).unwrap(), RecordType::A));
    encode(&msg)
}

fn nxdomain_wire(qname: &str) -> Vec<u8> {
    let mut msg = Message::new();
    msg.add_query(Query::query(Name::from_utf8(qname).unwrap(), RecordType::A));
    msg.set_response_code(ResponseCode::NXDomain);
    encode(&msg)
}

fn txn_for(qname: &str, id: u64, protocol: ClientProtocol) -> Transaction {
    let mut txn = Transaction::new(id, SockAddr::v4(127, 0, 0, 1, 53), protocol);
    txn.qname = Some(qname.into());
    txn.qtype = Some(1);
    txn.qclass = Some(1);
    txn.query_wire = client_query(qname);
    txn
}

#[test]
fn ancestor_names_strip_leftmost_labels() {
    assert_eq!(ancestor_qnames("a.b.c."), vec!["b.c.".to_string(), "c.".to_string()]);
    assert_eq!(ancestor_qnames("a.b.c"), vec!["b.c.".to_string(), "c.".to_string()]);
    assert!(ancestor_qnames("com.").is_empty());
    assert!(ancestor_qnames(".").is_empty());
    assert!(ancestor_qnames("").is_empty());
    assert_eq!(ancestor_qnames("a..b"), vec![".b.".to_string(), "b.".to_string()]);
}

#[test]
fn ancestor_nxdomain_answers_descendant_when_enabled() {
    let mut cache = MemoryCacheBackend::from_config(&MemoryCacheConfig { shard_count: 4, max_entries: 0 });
    let now = Instant::now();
    let parent = txn_for("8020.policy-lab.test.example.", 1, ClientProtocol::Udp);
    let parent_key = build_query_key(&parent).unwrap();
    let entry = entry_from_wire(nxdomain_wire("8020.policy-lab.test.example."), true, 10, now).unwrap();
    assert_eq!(entry.kind, EntryKind::NxDomain);
    cache.insert(parent_key, entry, now);

    let child = txn_for("child.8020.policy-lab.test.example.", 2, ClientProtocol::Udp);
    let hit = try_ancestor_nxdomain_hit(&cache, true, true, &child, now).expect("ancestor hit");
    assert_eq!(hit.kind, EntryKind::NxDomain);
    assert!(try_ancestor_nxdomain_hit(&cache, true, false, &child, now).is_none());
    assert!(try_ancestor_nxdomain_hit(&cache, false, true, &child, now).is_none());
    // A grandchild misses at its immediate parent first, which ends the walk.
    let grandchild = txn_for("x.child.8020.policy-lab.test.example.", 3, ClientProtocol::Udp);
    assert!(try_ancestor_nxdomain_hit(&cache, true, true, &grandchild, now).is_none());
}

#[test]
fn truncated_udp_storage_policy() {
    let mut msg = Message::new();
    msg.add_query(Query::query(Name::from_utf8("big.example.").unwrap(), RecordType::TXT));
    msg.set_truncated(true);
    let truncated = encode(&msg);
    let complete = nxdomain_wire("big.example.");
    assert!(should_store_truncated(true, &truncated, ClientProtocol::Udp));
    assert!(!should_store_truncated(false, &truncated, ClientProtocol::Udp));
    assert!(!should_store_truncated(true, &truncated, ClientProtocol::Tcp));
    assert!(!should_store_truncated(true, &complete, ClientProtocol::Udp));
    assert!(!should_store_truncated(true, &[1, 2], ClientProtocol::Udp));
}

#[test]
fn single_flight_coalescing() {
    let mut gate = InFlightGate::new();
    assert_eq!(gate.register(1, false), InFlightRole::Leader);
    assert_eq!(gate.register(2, true), InFlightRole::Follower);
    assert_eq!(gate.register(3, false), InFlightRole::Follower);
    assert!(!gate.has_result());
    let waiters = gate.complete(Some(b"answer".to_vec()));
    assert_eq!(waiters, vec![2]);
    assert_eq!(gate.result(), Some(b"answer".to_vec()));
    // The next registration starts a new flight and drops the old result.
    assert_eq!(gate.register(4, true), InFlightRole::Leader);
    assert!(!gate.has_result());
    gate.reset();
    assert_eq!(gate.register(5, false), InFlightRole::Leader);
}

#[test]
fn entry_classification_and_lifetime() {
    assert_eq!(EntryKind::from_rcode(0, 0), EntryKind::NoData);
    assert_eq!(EntryKind::from_rcode(0, 2), EntryKind::Positive);
    assert_eq!(EntryKind::from_rcode(3, 0), EntryKind::NxDomain);
    assert_eq!(EntryKind::from_rcode(2, 0), EntryKind::ServFail);
    assert_eq!(EntryKind::from_rcode(5, 0), EntryKind::Positive);
    let now = Instant::from_secs(50);
    let e = CacheEntry { kind: EntryKind::Positive, wire: vec![], filled_at: now, expires_at: expires_at_from_ttl(now, 30) };
    assert!(e.is_fresh(now));
    assert!(!e.is_fresh(Instant::from_secs(80)));
    assert_eq!(e.ttl_remaining_secs(Instant::from_secs(60)), 20);
    assert_eq!(e.ttl_remaining_secs(Instant::from_secs(90)), 0);
    assert_eq!(AnswerSource::Cache.as_str(), "cache");
    assert_eq!(AnswerSource::Forward.as_str(), "forward");
}
