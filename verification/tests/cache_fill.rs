use conduit_core::clock::Instant;
use conduit_core::lookup::cache::entry::EntryKind;
use conduit_core::lookup::cache::inflight::{InFlightGate, InFlightRole};
use conduit_core::lookup::cache::key::{build_query_key, build_truncated_udp_key, CacheKey};
use conduit_core::lookup::cache::memory::{MemoryCacheBackend, MemoryCacheConfig};
use conduit_core::lookup::cache::reconcile::{
    plan_reconcile, CacheBackendKind, CacheInstanceSettings, LiveInstance, PreflightOpen,
};
use conduit_core::lookup::cache::registry::{
    fill_from_forward, lookup_cached, resume_after_wait, CachedLookup, FillOutcome, FillSettings, LookupSettings,
};
use conduit_core::lookup::cache::serve::SERVE_RAND_SEED;
use conduit_core::net::SockAddr;
use conduit_core::transaction::{ClientProtocol, Transaction};
use hickory_proto::op::{Message, MessageType, Query, ResponseCode};
use hickory_proto::rr::rdata::{A, NS};
use hickory_proto::rr::{Name, RData, Record, RecordType};
use hickory_proto::serialize::binary::{BinEncodable, BinEncoder};

/// One memory cache instance named "global" with its settings.
struct Instance {
    backend: MemoryCacheBackend,
    fill: FillSettings,
    lookup: LookupSettings,
    rng: u64,
}

impl Instance {
    fn new(covers_descendants: bool, truncated_udp_enabled: bool) -> Instance {
        Instance {
            backend: MemoryCacheBackend::from_config(&MemoryCacheConfig { shard_count: 4, max_entries: 1000 }),
            fill: FillSettings {
                negative_enabled: true,
                servfail_ttl_secs: 10,
                truncated_udp_enabled,
                truncated_udp_ttl_secs: 60,
            },
            lookup: LookupSettings {
                negative_enabled: true,
                nxdomain_covers_descendants: covers_descendants,
                truncated_udp_enabled,
                rotate_rrset_on_serve: false,
                skip_response_rules: false,
            },
            rng: SERVE_RAND_SEED,
        }
    }

    fn fill(&mut self, key: &CacheKey, wire: Vec<u8>, txn: &Transaction) -> FillOutcome {
        let mut gate = InFlightGate::new();
        assert_eq!(gate.register(txn.id, false), InFlightRole::Leader);
        fill_from_forward(&mut self.backend, &mut gate, &self.fill, false, key, wire, txn, Instant::now()).0
    }

    fn lookup(&mut self, txn: &Transaction) -> CachedLookup {
        lookup_cached(&self.backend, &self.lookup, false, txn, Instant::now(), &mut self.rng)
    }
}

fn encode(msg: &Message) -> Vec<u8> {
    let mut buf = Vec::new();
    let mut enc = BinEncoder::new(&mut buf);
    msg.emit(&mut enc).unwrap();
    buf
}

fn client_query(qname: &str) -> Vec<u8> {
    let mut msg = Message::new();
    msg.add_query(Query::query(Name::from_ascii(qname).unwrap(), RecordType::A));
    encode(&msg)
}

fn nxdomain_wire(qname: &str) -> Vec<u8> {
    let mut msg = Message::new();
    msg.set_message_type(MessageType::Response);
    msg.set_response_code(ResponseCode::NXDomain);
    msg.add_query(Query::query(Name::from_ascii(qname).unwrap(), RecordType::A));
    encode(&msg)
}

fn positive_a_wire(qname: &str) -> Vec<u8> {
    let name = Name::from_ascii(qname).unwrap();
    let mut msg = Message::new();
    msg.set_message_type(MessageType::Response);
    msg.set_response_code(ResponseCode::NoError);
    msg.add_query(Query::query(name.clone(), RecordType::A));
    msg.add_answer(Record::from_rdata(name, 300, RData::A(A::new(192, 0, 2, 10))));
    encode(&msg)
}

fn multi_section_positive_wire(qname: &str) -> Vec<u8> {
    let name = Name::from_ascii(qname).unwrap();
    let zone = Name::from_ascii("example.").unwrap();
    let ns = Name::from_ascii("ns.example.").unwrap();
    let mut msg = Message::new();
    msg.set_message_type(MessageType::Response);
    msg.set_response_code(ResponseCode::NoError);
    msg.add_query(Query::query(name.clone(), RecordType::A));
    msg.add_answer(Record::from_rdata(name, 300, RData::A(A::new(192, 0, 2, 10))));
    msg.add_name_server(Record::from_rdata(zone, 600, RData::NS(NS(ns.clone()))));
    msg.add_additional(Record::from_rdata(ns, 600, RData::A(A::new(192, 0, 2, 53))));
    encode(&msg)
}

fn truncated_positive_wire(qname: &str) -> Vec<u8> {
    let name = Name::from_ascii(qname).unwrap();
    let mut msg = Message::new();
    msg.set_message_type(MessageType::Response);
    msg.set_truncated(true);
    msg.add_query(Query::query(name.clone(), RecordType::A));
    msg.add_answer(Record::from_rdata(name, 120, RData::A(A::new(192, 0, 2, 1))));
    encode(&msg)
}

fn txn_for(qname: &str, id: u64) -> Transaction {
    txn_for_protocol(qname, id, ClientProtocol::Udp)
}

fn txn_for_protocol(qname: &str, id: u64, protocol: ClientProtocol) -> Transaction {
    let mut txn = Transaction::new(id, SockAddr::v4(127, 0, 0, 1, 53), protocol);
    txn.qname = Some(qname.into());
    txn.qtype = Some(1);
    txn.qclass = Some(1);
    txn.query_wire = client_query(qname);
    txn.dns_id = 0x1234;
    txn
}

fn hit_wire(outcome: CachedLookup) -> Option<Message> {
    match outcome {
        CachedLookup::Hit { wire, .. } => Some(Message::from_vec(&wire).unwrap()),
        _ => None,
    }
}

#[test]
fn fill_preserves_authority_and_additional_sections() {
    let mut inst = Instance::new(true, false);
    let qname = "sections.policy-lab.test.example.";
    let txn = txn_for(qname, 40);
    let key = build_query_key(&txn).unwrap();
    let filled = multi_section_positive_wire(qname);
    let filled_msg = Message::from_vec(&filled).unwrap();
    assert_eq!(filled_msg.name_servers().len(), 1);
    assert_eq!(filled_msg.additionals().len(), 1);
    inst.fill(&key, filled, &txn);

    let hit_txn = txn_for(qname, 41);
    let served = hit_wire(inst.lookup(&hit_txn)).expect("expected Hit, got non-Hit outcome");
    assert_eq!(served.answers().len(), 1, "answer section present");
    assert_eq!(served.name_servers().len(), 1, "authority NS must survive fill+serve");
    assert_eq!(served.additionals().len(), 1, "additional glue must survive fill+serve");
    assert_eq!(served.name_servers()[0].data(), filled_msg.name_servers()[0].data());
    assert_eq!(served.additionals()[0].data(), filled_msg.additionals()[0].data());

    let entry = inst.backend.get(&key, Instant::now()).expect("stored entry");
    let stored = Message::from_vec(&entry.wire).unwrap();
    assert_eq!(stored.name_servers().len(), 1);
    assert_eq!(stored.additionals().len(), 1);
}

#[test]
fn truncated_udp_stored_and_hit_when_policy_enabled() {
    let mut inst = Instance::new(true, true);
    let txn = txn_for("tc.policy-lab.test.example.", 10);
    let key = build_query_key(&txn).unwrap();
    assert_eq!(
        inst.fill(&key, truncated_positive_wire("tc.policy-lab.test.example."), &txn),
        FillOutcome::Stored { truncated: true }
    );
    assert!(matches!(inst.lookup(&txn), CachedLookup::Hit { .. }));
    let tc_key = build_truncated_udp_key(&txn).unwrap();
    let e = inst.backend.get(&tc_key, Instant::now()).unwrap();
    let remaining = e.ttl_remaining_secs(Instant::now());
    assert!(remaining == 59 || remaining == 60, "{remaining}");
}

#[test]
fn truncated_udp_wire_not_stored_when_policy_disabled() {
    let mut inst = Instance::new(true, false);
    let txn = txn_for("tc.policy-lab.test.example.", 10);
    let key = build_query_key(&txn).unwrap();
    assert_eq!(
        inst.fill(&key, truncated_positive_wire("tc.policy-lab.test.example."), &txn),
        FillOutcome::TruncatedNotStored
    );
    assert!(matches!(inst.lookup(&txn), CachedLookup::Miss { .. }));
}

#[test]
fn complete_answer_filled_over_udp_hits_for_tcp_client() {
    let mut inst = Instance::new(true, false);
    let udp_txn = txn_for("shared.policy-lab.test.example.", 20);
    let key = build_query_key(&udp_txn).unwrap();
    inst.fill(&key, nxdomain_wire("shared.policy-lab.test.example."), &udp_txn);
    let tcp_txn = txn_for_protocol("shared.policy-lab.test.example.", 21, ClientProtocol::Tcp);
    assert!(matches!(inst.lookup(&tcp_txn), CachedLookup::Hit { .. }));
}

#[test]
fn truncated_udp_entry_not_served_to_tcp_client() {
    let mut inst = Instance::new(true, true);
    let udp_txn = txn_for("tc.tcp-skip.policy-lab.test.example.", 30);
    let key = build_query_key(&udp_txn).unwrap();
    inst.fill(&key, truncated_positive_wire("tc.tcp-skip.policy-lab.test.example."), &udp_txn);
    assert!(matches!(inst.lookup(&udp_txn), CachedLookup::Hit { .. }));
    let tcp_txn = txn_for_protocol("tc.tcp-skip.policy-lab.test.example.", 31, ClientProtocol::Tcp);
    assert!(matches!(inst.lookup(&tcp_txn), CachedLookup::Miss { .. }));
}

#[test]
fn complete_fill_removes_truncated_udp_sibling() {
    let mut inst = Instance::new(true, true);
    let qname = "replace-tc.policy-lab.test.example.";
    let udp_txn = txn_for(qname, 40);
    let complete_key = build_query_key(&udp_txn).unwrap();
    let tc_key = build_truncated_udp_key(&udp_txn).unwrap();
    inst.fill(&complete_key, truncated_positive_wire(qname), &udp_txn);
    assert_eq!(inst.backend.entry_count(), 1);
    let msg = hit_wire(inst.lookup(&udp_txn)).expect("expected truncated UDP hit before complete fill");
    assert!(msg.truncated(), "precondition: UDP hit is the TC stub");

    let tcp_txn = txn_for_protocol(qname, 41, ClientProtocol::Tcp);
    inst.fill(&complete_key, positive_a_wire(qname), &tcp_txn);
    assert_eq!(
        inst.backend.entry_count(),
        1,
        "complete fill must replace the truncated sibling, not leave two entries"
    );
    assert!(inst.backend.get(&tc_key, Instant::now()).is_none(), "truncated UDP sibling key must be removed");
    let msg = hit_wire(inst.lookup(&udp_txn)).expect("expected complete cache hit for UDP after TCP fill");
    assert!(!msg.truncated(), "UDP should now be served the complete cached answer");
    assert_eq!(msg.answers().len(), 1);
}

#[test]
fn exact_hit_echoes_client_question_case_0x20() {
    let mut inst = Instance::new(true, false);
    let fill_txn = txn_for("www.0x20-echo.example.", 100);
    let key = build_query_key(&fill_txn).unwrap();
    inst.fill(&key, positive_a_wire("www.0x20-echo.example."), &fill_txn);
    let mut hit_txn = txn_for("WwW.0X20-eChO.eXaMpLe.", 101);
    hit_txn.dns_id = 0xbeef;
    let msg = hit_wire(inst.lookup(&hit_txn)).expect("expected exact cache hit, got unexpected outcome");
    assert_eq!(msg.id(), 0xbeef);
    assert_eq!(
        msg.queries()[0].name().to_utf8(),
        "WwW.0X20-eChO.eXaMpLe.",
        "cache hit must echo the client's 0x20 question encoding"
    );
    assert_eq!(msg.response_code(), ResponseCode::NoError);
    assert_eq!(msg.answers().len(), 1);
}

#[test]
fn truncated_udp_hit_echoes_client_question_case_0x20() {
    let mut inst = Instance::new(true, true);
    let fill_txn = txn_for("tc.0x20-echo.example.", 110);
    let key = build_query_key(&fill_txn).unwrap();
    inst.fill(&key, truncated_positive_wire("tc.0x20-echo.example."), &fill_txn);
    let hit_txn = txn_for("Tc.0X20-eChO.eXaMpLe.", 111);
    let msg = hit_wire(inst.lookup(&hit_txn)).expect("expected truncated UDP cache hit, got unexpected outcome");
    assert!(msg.truncated());
    assert_eq!(
        msg.queries()[0].name().to_utf8(),
        "Tc.0X20-eChO.eXaMpLe.",
        "truncated UDP cache hit must echo the client's 0x20 question encoding"
    );
}

#[test]
fn ancestor_nxdomain_echoes_descendant_question_case_0x20() {
    let mut inst = Instance::new(true, false);
    let parent_txn = txn_for("8020.0x20-echo.example.", 120);
    let parent_key = build_query_key(&parent_txn).unwrap();
    inst.fill(&parent_key, nxdomain_wire("8020.0x20-echo.example."), &parent_txn);
    let child_txn = txn_for("ChIlD.8020.0x20-eChO.eXaMpLe.", 121);
    let msg = hit_wire(inst.lookup(&child_txn)).expect("expected ancestor cache hit, got unexpected outcome");
    assert_eq!(msg.response_code(), ResponseCode::NXDomain);
    assert_eq!(
        msg.queries()[0].name().to_utf8(),
        "ChIlD.8020.0x20-eChO.eXaMpLe.",
        "ancestor NXDOMAIN hit must echo the descendant's 0x20 question encoding"
    );
}

#[test]
fn ancestor_nxdomain_covers_descendant_query() {
    let mut inst = Instance::new(true, false);
    let parent_txn = txn_for("8020.policy-lab.test.example.", 1);
    let parent_key = build_query_key(&parent_txn).unwrap();
    inst.fill(&parent_key, nxdomain_wire("8020.policy-lab.test.example."), &parent_txn);
    let child_txn = txn_for("child.8020.policy-lab.test.example.", 2);
    let msg = hit_wire(inst.lookup(&child_txn)).expect("expected ancestor cache hit, got unexpected outcome");
    assert_eq!(msg.response_code(), ResponseCode::NXDomain);
    assert_eq!(msg.queries()[0].name().to_utf8(), "child.8020.policy-lab.test.example.");
}

#[test]
fn ancestor_nxdomain_skipped_when_knob_off() {
    let mut inst = Instance::new(false, false);
    let parent_txn = txn_for("8020.policy-lab.test.example.", 3);
    let parent_key = build_query_key(&parent_txn).unwrap();
    inst.fill(&parent_key, nxdomain_wire("8020.policy-lab.test.example."), &parent_txn);
    let child_txn = txn_for("child.8020.policy-lab.test.example.", 4);
    match inst.lookup(&child_txn) {
        CachedLookup::Miss { .. } => {},
        _other => panic!("expected cache miss when knob off, got unexpected outcome"),
    }
}

#[test]
fn rebuilding_instance_skips_fill_and_lookup() {
    let txn = txn_for("www.example.", 7);
    let key = build_query_key(&txn).unwrap();
    let mut inst = Instance::new(true, true);
    let mut gate = InFlightGate::new();
    assert_eq!(gate.register(7, false), InFlightRole::Leader);
    assert_eq!(gate.register(8, true), InFlightRole::Follower);
    let (outcome, waiters) =
        fill_from_forward(&mut inst.backend, &mut gate, &inst.fill, true, &key, positive_a_wire("www.example."), &txn, Instant::now());
    assert_eq!(outcome, FillOutcome::SkippedRebuilding);
    assert_eq!(waiters, vec![8]);
    assert_eq!(inst.backend.entry_count(), 0);
    assert!(matches!(
        lookup_cached(&inst.backend, &inst.lookup, true, &txn, Instant::now(), &mut inst.rng),
        CachedLookup::Bypass
    ));
}

#[test]
fn uncacheable_wire_completes_without_store() {
    let txn = txn_for("www.example.", 7);
    let key = build_query_key(&txn).unwrap();
    let mut inst = Instance::new(true, true);
    let mut gate = InFlightGate::new();
    gate.register(7, false);
    let (outcome, _) = fill_from_forward(&mut inst.backend, &mut gate, &inst.fill, false, &key, vec![1, 2, 3], &txn, Instant::now());
    assert_eq!(outcome, FillOutcome::NotCacheable);
    assert_eq!(inst.backend.entry_count(), 0);
    assert!(!gate.has_result());
}

#[test]
fn stored_entry_kind_and_waiters_get_the_wire() {
    let txn = txn_for("www.example.", 7);
    let key = build_query_key(&txn).unwrap();
    let mut inst = Instance::new(true, true);
    let mut gate = InFlightGate::new();
    gate.register(7, false);
    let (outcome, _) =
        fill_from_forward(&mut inst.backend, &mut gate, &inst.fill, false, &key, positive_a_wire("www.example."), &txn, Instant::now());
    assert_eq!(outcome, FillOutcome::Stored { truncated: false });
    assert!(gate.has_result());
    assert_eq!(inst.backend.get(&key, Instant::now()).unwrap().kind, EntryKind::Positive);
}

#[test]
fn lookup_bypasses_ineligible_transactions() {
    let mut txn = txn_for("www.example.", 7);
    txn.cache_lookup_eligible = false;
    let mut inst = Instance::new(true, true);
    assert!(matches!(inst.lookup(&txn), CachedLookup::Bypass));
}

#[test]
fn coalesced_follower_served_after_leader_fill() {
    let txn = txn_for("www.example.", 7);
    let key = build_query_key(&txn).unwrap();
    let mut inst = Instance::new(true, true);
    let mut gate = InFlightGate::new();
    assert_eq!(gate.register(7, false), InFlightRole::Leader);
    assert_eq!(gate.register(8, false), InFlightRole::Follower);
    assert!(gate.leader_active());
    let mut follower = txn_for("www.example.", 8);
    follower.dns_id = 0x0808;
    let before = resume_after_wait(&inst.backend, &gate, &inst.lookup, &key, &follower, Instant::now(), &mut inst.rng);
    assert!(matches!(before, CachedLookup::Bypass));
    fill_from_forward(&mut inst.backend, &mut gate, &inst.fill, false, &key, positive_a_wire("www.example."), &txn, Instant::now());
    assert!(!gate.leader_active());
    let msg = hit_wire(resume_after_wait(&inst.backend, &gate, &inst.lookup, &key, &follower, Instant::now(), &mut inst.rng))
        .expect("follower hit");
    assert_eq!(msg.id(), 0x0808);
}

#[test]
fn coalesced_follower_gets_uncached_leader_wire() {
    let txn = txn_for("www.example.", 7);
    let key = build_query_key(&txn).unwrap();
    let mut inst = Instance::new(true, false);
    let mut gate = InFlightGate::new();
    gate.register(7, false);
    gate.register(8, false);
    gate.complete(Some(positive_a_wire("www.example.")));
    let follower = txn_for("www.example.", 8);
    assert_eq!(inst.backend.entry_count(), 0);
    assert!(matches!(
        resume_after_wait(&inst.backend, &gate, &inst.lookup, &key, &follower, Instant::now(), &mut inst.rng),
        CachedLookup::Hit { .. }
    ));
}

fn memory_settings(max_entries: u64) -> CacheInstanceSettings {
    CacheInstanceSettings { backend: CacheBackendKind::Memory, max_entries, lmdb: None }
}

#[test]
fn reconcile_lowers_max_entries_and_trims_existing_backend() {
    let mut global = Instance::new(true, false);
    global.backend.set_max_entries(0);
    for i in 0..5u64 {
        let qname = format!("reconcile-max-{i}.example.");
        let txn = txn_for(&qname, i + 1);
        let key = build_query_key(&txn).unwrap();
        global.fill(&key, nxdomain_wire(&qname), &txn);
    }
    assert_eq!(global.backend.entry_count(), 5);

    let prev = vec![("global".to_string(), memory_settings(0))];
    let new = vec![("global".to_string(), memory_settings(2))];
    let live = vec![("global".to_string(), LiveInstance { settings: memory_settings(0), lmdb: None })];
    let plan = plan_reconcile(&prev, &new, &live, 64);
    assert!(plan.opens.is_empty());
    assert_eq!(plan.hot.len(), 1);
    let new_max = plan.hot[0].max_entries.unwrap();
    global.backend.set_max_entries(new_max);

    assert_eq!(global.backend.max_entries(), 2);
    assert_eq!(global.backend.entry_count(), 2);
}

#[test]
fn reconcile_adds_new_instance_without_dropping_existing() {
    let mut global = Instance::new(true, false);
    let txn = txn_for("new-instance.example.", 1);
    let key = build_query_key(&txn).unwrap();
    global.fill(&key, nxdomain_wire("new-instance.example."), &txn);
    assert_eq!(global.backend.entry_count(), 1);

    let prev = vec![("global".to_string(), memory_settings(1000))];
    let new = vec![("global".to_string(), memory_settings(1000)), ("regional".to_string(), memory_settings(1000))];
    let live = vec![("global".to_string(), LiveInstance { settings: memory_settings(1000), lmdb: None })];
    let plan = plan_reconcile(&prev, &new, &live, 64);
    assert_eq!(plan.opens, vec![("regional".to_string(), PreflightOpen::Replace)]);
    assert!(plan.removals.is_empty());
    let regional = Instance::new(true, false);

    assert_eq!(global.backend.entry_count(), 1);
    assert_eq!(regional.backend.entry_count(), 0);
}
