use conduit_core::clock::Instant;
use conduit_core::lookup::cache::serve::{
    cache_age_secs, decayed_ttl, finish_encoding, next_serve_rand, prepare_served_arc, prepare_served_wire, rotate_rrsets,
    served_message,
    ServeError, SERVE_RAND_SEED,
};
use hickory_proto::op::{Message, Query};
use hickory_proto::rr::rdata::A;
use hickory_proto::rr::{Name, RData, Record, RecordType};
use hickory_proto::serialize::binary::{BinEncodable, BinEncoder};
use std::sync::Arc;

fn encode_response(answers: Vec<(u32, [u8; 4])>) -> Arc<[u8]> {
    let name = Name::from_utf8("example.com.").unwrap();
    let mut msg = Message::new();
    msg.add_query(Query::query(name.clone(), RecordType::A));
    for (ttl, addr) in answers {
        msg.add_answer(Record::from_rdata(name.clone(), ttl, RData::A(A::new(addr[0], addr[1], addr[2], addr[3]))));
    }
    let mut buf = Vec::new();
    let mut enc = BinEncoder::new(&mut buf);
    msg.emit(&mut enc).unwrap();
    buf.into()
}

fn two_a_records() -> Arc<[u8]> {
    encode_response(vec![
        (60, [1, 1, 1, 1]),
        (60, [2, 2, 2, 2]),
    ])
}

fn three_a_records() -> Arc<[u8]> {
    encode_response(vec![
        (60, [1, 1, 1, 1]),
        (60, [2, 2, 2, 2]),
        (60, [3, 3, 3, 3]),
    ])
}

#[test]
fn rotate_differs_from_plain() {
    let stored = two_a_records();
    let now = Instant::now();
    let mut rng = SERVE_RAND_SEED;
    let plain = prepare_served_wire(&stored, 42, false, now, now, None, &mut rng).unwrap();
    let mut saw_different = false;
    for i in 0..16 {
        let rotated = prepare_served_wire(&stored, i as u16, true, now, now, None, &mut rng).unwrap();
        if rotated != plain {
            saw_different = true;
            break;
        }
    }
    assert!(saw_different, "expected at least one rotated serve to differ from plain");
}

#[test]
fn rotate_varies_across_serves() {
    let stored = three_a_records();
    let now = Instant::now();
    let mut rng = SERVE_RAND_SEED;
    let mut prev: Option<Vec<u8>> = None;
    let mut all_same = true;
    for i in 0..24 {
        let out = prepare_served_wire(&stored, i as u16, true, now, now, None, &mut rng).unwrap();
        if let Some(p) = &prev {
            if p != &out {
                all_same = false;
                break;
            }
        }
        prev = Some(out);
    }
    assert!(!all_same, "expected RRset rotation to vary across repeated cache serves");
}

#[test]
fn rewrites_query_id() {
    let stored = two_a_records();
    let now = Instant::now();
    let mut rng = SERVE_RAND_SEED;
    let out = prepare_served_wire(&stored, 0xabcd, false, now, now, None, &mut rng).unwrap();
    let msg = Message::from_vec(&out).unwrap();
    assert_eq!(msg.id(), 0xabcd);
}

#[test]
fn decays_answer_ttl_by_cache_age() {
    let stored = encode_response(vec![(3600, [192, 0, 2, 50])]);
    let now = Instant::now();
    let filled_at = now.minus_secs(120);
    let mut rng = SERVE_RAND_SEED;
    let out = prepare_served_wire(&stored, 1, false, filled_at, now, None, &mut rng).unwrap();
    let msg = Message::from_vec(&out).unwrap();
    let ttl = msg.answers()[0].ttl();
    assert!(ttl <= 3480, "expected decayed TTL, got {ttl}");
    assert!(ttl >= 3478, "expected ~3480s remaining, got {ttl}");
}

#[test]
fn decays_each_rr_independently() {
    let stored = encode_response(vec![
        (300, [1, 1, 1, 1]),
        (60, [2, 2, 2, 2]),
    ]);
    let now = Instant::now();
    let filled_at = now.minus_secs(30);
    let mut rng = SERVE_RAND_SEED;
    let out = prepare_served_wire(&stored, 1, false, filled_at, now, None, &mut rng).unwrap();
    let msg = Message::from_vec(&out).unwrap();
    let answers = msg.answers();
    assert_eq!(answers[0].ttl(), 270);
    assert_eq!(answers[1].ttl(), 30);
}

#[test]
fn stored_wire_ttl_unchanged() {
    let stored = encode_response(vec![(3600, [192, 0, 2, 1])]);
    let now = Instant::now();
    let filled_at = now.minus_secs(60);
    let mut rng = SERVE_RAND_SEED;
    let _ = prepare_served_wire(&stored, 1, false, filled_at, now, None, &mut rng).unwrap();
    let msg = Message::from_vec(&stored).unwrap();
    assert_eq!(msg.answers()[0].ttl(), 3600);
}

#[test]
fn ttl_decay_stops_at_zero() {
    let stored = encode_response(vec![(10, [192, 0, 2, 1])]);
    let now = Instant::now();
    let mut rng = SERVE_RAND_SEED;
    let out = prepare_served_arc(&stored, 1, false, now.minus_secs(100), now, None, &mut rng).unwrap();
    let msg = Message::from_vec(&out).unwrap();
    assert_eq!(msg.answers()[0].ttl(), 0);
    assert_eq!(decayed_ttl(10, 100), 0);
    assert_eq!(decayed_ttl(300, 30), 270);
}

#[test]
fn cache_age_is_whole_seconds_and_zero_backwards() {
    let t = Instant::from_nanos(5_000_000_000);
    assert_eq!(cache_age_secs(t, Instant::from_nanos(7_999_999_999)), 2);
    assert_eq!(cache_age_secs(t, Instant::from_nanos(1_000)), 0);
    assert_eq!(cache_age_secs(Instant::from_nanos(0), Instant::from_nanos(u64::MAX)), u32::MAX);
}

#[test]
fn serve_rejects_undecodable_wire() {
    let now = Instant::now();
    let mut rng = SERVE_RAND_SEED;
    let r = prepare_served_wire(&[1u8, 2, 3], 1, true, now, now, None, &mut rng);
    assert_eq!(r, Err(ServeError::Malformed));
    assert_eq!(rng, SERVE_RAND_SEED);
}

#[test]
fn serve_replaces_question_with_client_query() {
    let stored = encode_response(vec![(60, [192, 0, 2, 1])]);
    let child = Name::from_ascii("ChIlD.example.com.").unwrap();
    let mut q = Message::new();
    q.add_query(Query::query(child, RecordType::A));
    let mut qwire = Vec::new();
    let mut enc = BinEncoder::new(&mut qwire);
    q.emit(&mut enc).unwrap();
    let now = Instant::now();
    let mut rng = SERVE_RAND_SEED;
    let out = prepare_served_wire(&stored, 9, false, now, now, Some(&qwire), &mut rng).unwrap();
    let msg = Message::from_vec(&out).unwrap();
    assert_eq!(msg.queries().len(), 1);
    assert_eq!(msg.queries()[0].name().to_ascii(), "ChIlD.example.com.");
    assert_eq!(prepare_served_wire(&stored, 9, false, now, now, Some(&[0u8]), &mut rng), Err(ServeError::Malformed));
}

#[test]
fn xorshift_step_matches_reference_values() {
    let mut s = SERVE_RAND_SEED;
    let a = next_serve_rand(&mut s);
    assert_eq!(a, s);
    let mut x = SERVE_RAND_SEED;
    x ^= x >> 12;
    x ^= x << 25;
    x ^= x >> 27;
    x = x.wrapping_mul(0x2545_F491_4F6C_DD1D);
    assert_eq!(a, x);
}

#[test]
fn rotation_keeps_rrsets_grouped_and_every_record() {
    let keys = vec![
        ("a.".to_string(), 1u16),
        ("b.".to_string(), 1u16),
        ("a.".to_string(), 1u16),
        ("a.".to_string(), 28u16),
        ("a.".to_string(), 1u16),
    ];
    let items = vec![0usize, 1, 2, 3, 4];
    let mut rng = SERVE_RAND_SEED;
    let out = rotate_rrsets(items, &keys, &mut rng);
    assert_eq!(out.len(), 5);
    let mut sorted = out.clone();
    sorted.sort();
    assert_eq!(sorted, vec![0, 1, 2, 3, 4]);
    // The ("a.", A) RRset comes first, rotated cyclically; then the others.
    let first: Vec<usize> = out[..3].to_vec();
    let cycles = [vec![0, 2, 4], vec![2, 4, 0], vec![4, 0, 2]];
    assert!(cycles.contains(&first), "got {first:?}");
    assert_eq!(&out[3..], &[1, 3]);
    assert_ne!(rng, SERVE_RAND_SEED);
}

#[test]
fn rotated_serve_decays_every_ttl_once() {
    let stored = encode_response(vec![
        (300, [1, 1, 1, 1]),
        (200, [2, 2, 2, 2]),
        (100, [3, 3, 3, 3]),
    ]);
    let filled = Instant::from_secs(1_000);
    let now = Instant::from_secs(1_050);
    let mut rng = SERVE_RAND_SEED;
    let wire = prepare_served_wire(&stored, 5, true, filled, now, None, &mut rng).unwrap();
    let parsed = Message::from_vec(&wire).unwrap();
    let mut ttls: Vec<u32> = parsed.answers().iter().map(|r| r.ttl()).collect();
    ttls.sort();
    assert_eq!(ttls, vec![50, 150, 250]);
    assert_ne!(rng, SERVE_RAND_SEED);
}

#[test]
fn encoder_result_decides_served_copy() {
    assert_eq!(finish_encoding(vec![1, 2, 3], true), Ok(vec![1, 2, 3]));
    assert_eq!(finish_encoding(vec![1, 2, 3], false), Err(ServeError::Encode));
}

#[test]
fn served_message_is_malformed_only_for_undecodable_wires() {
    let stored = two_a_records();
    let now = Instant::now();
    let mut rng = SERVE_RAND_SEED;
    assert!(served_message(&stored, 1, false, now, now, None, &mut rng).is_ok());
    assert!(matches!(served_message(&[1, 2, 3], 1, false, now, now, None, &mut rng), Err(ServeError::Malformed)));
    assert!(matches!(
        served_message(&stored, 1, false, now, now, Some(&[0u8; 5][..]), &mut rng),
        Err(ServeError::Malformed)
    ));
    assert_eq!(rng, SERVE_RAND_SEED);
}
