//! Per-query state carried through the pipeline phases.

use vstd::prelude::*;
use crate::clock::Instant;
use crate::lookup::outcome::{AnswerSource, LookupOutcome};
use crate::lookup::stage::LookupForwardStep;
use crate::net::SockAddr;
use crate::parse_reject::ParseRejectReason;
use crate::phase::Phase;
use crate::routing::AttemptRecord;
use crate::string_map::{entry_for, find_entry, put_entry, take_at, unique_keys};

verus! {

#[derive(Debug, Clone, Copy, PartialEq, Eq, Structural)]
pub enum ClientProtocol {
    Udp,
    Tcp,
}

/// Operator tags of a transaction: boolean flags and string tags, each
/// keyed by name with at most one value per name.
#[derive(Debug)]
pub struct TagSet {
    flags: Vec<(String, bool)>,
    strings: Vec<(String, String)>,
}

/// The map a list of `(name, flag)` pairs with unique names stands for.
pub open spec fn flag_map(t: Seq<(String, bool)>) -> Map<Seq<char>, bool> {
    Map::new(|k: Seq<char>| entry_for(t, k) is Some, |k: Seq<char>| entry_for(t, k)->0)
}

/// The map a list of `(name, value)` pairs with unique names stands for.
pub open spec fn string_tag_map(t: Seq<(String, String)>) -> Map<Seq<char>, Seq<char>> {
    Map::new(|k: Seq<char>| entry_for(t, k) is Some, |k: Seq<char>| (entry_for(t, k)->0)@)
}

impl View for TagSet {
    type V = (Map<Seq<char>, bool>, Map<Seq<char>, Seq<char>>);

    closed spec fn view(&self) -> (Map<Seq<char>, bool>, Map<Seq<char>, Seq<char>>) {
        (flag_map(self.flags@), string_tag_map(self.strings@))
    }
}

/// Whether `key` is set: a `true` flag or any string tag.
pub open spec fn spec_has_tag(tags: (Map<Seq<char>, bool>, Map<Seq<char>, Seq<char>>), key: Seq<char>) -> bool {
    (tags.0.contains_key(key) && tags.0[key]) || tags.1.contains_key(key)
}

/// Tag laws: a flag set true or a string tag set is present; a cleared
/// key is absent; a flag set false is present only as a string tag; other
/// keys are untouched by each of these writes.
pub proof fn lemma_tag_writes(tags: (Map<Seq<char>, bool>, Map<Seq<char>, Seq<char>>), k: Seq<char>, other: Seq<char>, v: Seq<char>)
    requires
        other != k,
    ensures
        spec_has_tag((tags.0.insert(k, true), tags.1), k),
        spec_has_tag((tags.0, tags.1.insert(k, v)), k),
        !spec_has_tag((tags.0.remove(k), tags.1.remove(k)), k),
        spec_has_tag((tags.0.insert(k, false), tags.1), k) == tags.1.contains_key(k),
        spec_has_tag((tags.0.insert(k, true), tags.1), other) == spec_has_tag(tags, other),
        spec_has_tag((tags.0, tags.1.insert(k, v)), other) == spec_has_tag(tags, other),
        spec_has_tag((tags.0.remove(k), tags.1.remove(k)), other) == spec_has_tag(tags, other),
{
}

impl Default for TagSet {
    fn default() -> (r: TagSet)
        ensures
            r@.0 == Map::<Seq<char>, bool>::empty(),
            r@.1 == Map::<Seq<char>, Seq<char>>::empty(),
    {
        let r = TagSet { flags: Vec::new(), strings: Vec::new() };
        proof {
            assert(r@.0 =~= Map::<Seq<char>, bool>::empty());
            assert(r@.1 =~= Map::<Seq<char>, Seq<char>>::empty());
        }
        r
    }
}

impl TagSet {
    /// Each name appears at most once per kind.
    #[verifier::type_invariant]
    closed spec fn wf(&self) -> bool {
        unique_keys(self.flags@) && unique_keys(self.strings@)
    }

    pub fn set_bool(&mut self, key: &str, value: bool)
        ensures
            final(self)@.0 == old(self)@.0.insert(key@, value),
            final(self)@.1 == old(self)@.1,
    {
        let mut cur = TagSet { flags: Vec::new(), strings: Vec::new() };
        std::mem::swap(self, &mut cur);
        proof {
            use_type_invariant(&cur);
        }
        let TagSet { mut flags, strings } = cur;
        put_entry(&mut flags, crate::text::owned(key), value);
        *self = TagSet { flags, strings };
        proof {
            assert(self@.0 =~= old(self)@.0.insert(key@, value));
            assert(self@.1 =~= old(self)@.1);
        }
    }

    pub fn set_string(&mut self, key: &str, value: &str)
        ensures
            final(self)@.0 == old(self)@.0,
            final(self)@.1 == old(self)@.1.insert(key@, value@),
    {
        let mut cur = TagSet { flags: Vec::new(), strings: Vec::new() };
        std::mem::swap(self, &mut cur);
        proof {
            use_type_invariant(&cur);
        }
        let TagSet { flags, mut strings } = cur;
        put_entry(&mut strings, crate::text::owned(key), crate::text::owned(value));
        *self = TagSet { flags, strings };
        proof {
            assert(self@.0 =~= old(self)@.0);
            assert(self@.1 =~= old(self)@.1.insert(key@, value@));
        }
    }

    /// Remove `key` from both the flags and the string tags.
    pub fn clear(&mut self, key: &str)
        ensures
            final(self)@.0 == old(self)@.0.remove(key@),
            final(self)@.1 == old(self)@.1.remove(key@),
    {
        let mut cur = TagSet { flags: Vec::new(), strings: Vec::new() };
        std::mem::swap(self, &mut cur);
        proof {
            use_type_invariant(&cur);
        }
        let TagSet { mut flags, mut strings } = cur;
        match find_entry(&flags, key) {
            Some(i) => {
                let _ = take_at(&mut flags, i);
            },
            None => {},
        }
        match find_entry(&strings, key) {
            Some(i) => {
                let _ = take_at(&mut strings, i);
            },
            None => {},
        }
        *self = TagSet { flags, strings };
        proof {
            assert(self@.0 =~= old(self)@.0.remove(key@));
            assert(self@.1 =~= old(self)@.1.remove(key@));
        }
    }

    /// A tag is present when its flag is `true` or a string tag of that name exists.
    pub fn has(&self, key: &str) -> (r: bool)
        ensures
            r == spec_has_tag(self@, key@),
    {
        proof {
            use_type_invariant(&*self);
        }
        let flag = match find_entry(&self.flags, key) {
            Some(i) => self.flags[i].1,
            None => false,
        };
        flag || find_entry(&self.strings, key).is_some()
    }

    /// The boolean flags, one pair per name.
    pub fn bool_flags(&self) -> (r: &Vec<(String, bool)>)
        ensures
            unique_keys(r@),
            flag_map(r@) == self@.0,
    {
        proof {
            use_type_invariant(&*self);
        }
        &self.flags
    }

    /// Tags exported for observations: the flags that are `true`, and
    /// every string tag.
    pub fn export_all_tags(&self) -> (r: (Vec<(String, bool)>, Vec<(String, String)>))
        ensures
            unique_keys(r.0@),
            unique_keys(r.1@),
            flag_map(r.0@) == self@.0.restrict(Set::new(|k: Seq<char>| self@.0.contains_key(k) && self@.0[k])),
            string_tag_map(r.1@) == self@.1,
    {
        proof {
            use_type_invariant(&*self);
        }
        let mut bools: Vec<(String, bool)> = Vec::new();
        let mut i: usize = 0;
        while i < self.flags.len()
            invariant
                unique_keys(self.flags@),
                unique_keys(self.strings@),
                i <= self.flags@.len(),
                unique_keys(bools@),
                forall|j: int| 0 <= j < bools@.len() ==> (#[trigger] bools@[j]).1,
                forall|k: Seq<char>| #[trigger]
                    entry_for(bools@, k) == if (exists|m: int|
                        0 <= m < i && #[trigger] self.flags@[m].0@ == k && self.flags@[m].1) {
                        Some(true)
                    } else {
                        None::<bool>
                    },
            decreases self.flags@.len() - i,
        {
            if self.flags[i].1 {
                let ghost before = bools@;
                let key = self.flags[i].0.clone();
                proof {
                    assert(key@ == self.flags@[i as int].0@);
                }
                put_entry(&mut bools, key, true);
                proof {
                    assert forall|j: int| 0 <= j < bools@.len() implies (#[trigger] bools@[j]).1 by {
                        if bools@[j].0@ != self.flags@[i as int].0@ {
                            assert(crate::string_map::holds_key(before, bools@[j].0@));
                            let m = choose|m: int|
                                0 <= m < before.len() && #[trigger] before[m].0@ == bools@[j].0@;
                            crate::string_map::lemma_entry_at(before, m);
                            crate::string_map::lemma_entry_at(bools@, j);
                        } else {
                            crate::string_map::lemma_entry_at(bools@, j);
                        }
                    }
                    assert forall|k: Seq<char>| #[trigger]
                        entry_for(bools@, k) == if (exists|m: int|
                            0 <= m < i + 1 && #[trigger] self.flags@[m].0@ == k && self.flags@[m].1) {
                            Some(true)
                        } else {
                            None::<bool>
                        } by {
                        if k == self.flags@[i as int].0@ {
                            assert(self.flags@[i as int].0@ == k && self.flags@[i as int].1);
                        } else {
                            if exists|m: int|
                                0 <= m < i + 1 && #[trigger] self.flags@[m].0@ == k && self.flags@[m].1 {
                                let m = choose|m: int|
                                    0 <= m < i + 1 && #[trigger] self.flags@[m].0@ == k
                                        && self.flags@[m].1;
                                assert(m < i);
                            }
                        }
                    }
                }
            }
            i += 1;
        }
        let mut strings: Vec<(String, String)> = Vec::new();
        let mut j: usize = 0;
        while j < self.strings.len()
            invariant
                unique_keys(self.flags@),
                unique_keys(self.strings@),
                j <= self.strings@.len(),
                unique_keys(strings@),
                forall|k: Seq<char>| #[trigger]
                    entry_for(strings@, k) == if (exists|m: int|
                        0 <= m < j && #[trigger] self.strings@[m].0@ == k) {
                        entry_for(self.strings@, k)
                    } else {
                        None::<String>
                    },
            decreases self.strings@.len() - j,
        {
            let key = self.strings[j].0.clone();
            let value = self.strings[j].1.clone();
            proof {
                assert(key@ == self.strings@[j as int].0@);
                crate::string_map::lemma_entry_at(self.strings@, j as int);
            }
            put_entry(&mut strings, key, value);
            proof {
                assert forall|k: Seq<char>| #[trigger]
                    entry_for(strings@, k) == if (exists|m: int|
                        0 <= m < j + 1 && #[trigger] self.strings@[m].0@ == k) {
                        entry_for(self.strings@, k)
                    } else {
                        None::<String>
                    } by {
                    if k == self.strings@[j as int].0@ {
                        assert(self.strings@[j as int].0@ == k);
                    } else {
                        if exists|m: int| 0 <= m < j + 1 && #[trigger] self.strings@[m].0@ == k {
                            let m = choose|m: int| 0 <= m < j + 1 && #[trigger] self.strings@[m].0@ == k;
                            assert(m < j);
                        }
                    }
                }
            }
            j += 1;
        }
        proof {
            let keep = Set::new(|k: Seq<char>| self@.0.contains_key(k) && self@.0[k]);
            assert forall|k: Seq<char>| #[trigger] flag_map(bools@).contains_key(k) == self@.0.restrict(
                keep,
            ).contains_key(k) by {
                if exists|m: int|
                    0 <= m < i && #[trigger] self.flags@[m].0@ == k && self.flags@[m].1 {
                    let m = choose|m: int| 0 <= m < i && #[trigger] self.flags@[m].0@ == k && self.flags@[m].1;
                    crate::string_map::lemma_entry_at(self.flags@, m);
                } else {
                    if self@.0.contains_key(k) && self@.0[k] {
                        let m = choose|m: int| 0 <= m < self.flags@.len() && #[trigger] self.flags@[m].0@ == k;
                        crate::string_map::lemma_entry_at(self.flags@, m);
                        assert(self.flags@[m].0@ == k && self.flags@[m].1);
                    }
                }
            }
            assert(flag_map(bools@) =~= self@.0.restrict(keep));
            assert forall|k: Seq<char>| #[trigger] string_tag_map(strings@).contains_key(k)
                == self@.1.contains_key(k) by {
                if entry_for(self.strings@, k) is Some {
                    let m = choose|m: int| 0 <= m < self.strings@.len() && #[trigger] self.strings@[m].0@ == k;
                    assert(self.strings@[m].0@ == k);
                }
            }
            assert(string_tag_map(strings@) =~= self@.1);
        }
        (bools, strings)
    }
}

/// Resume point after a cache single-flight wait.
#[derive(Debug, Clone)]
pub struct LookupCacheWait {
    pub cache_name: String,
    pub key: Vec<u8>,
}

/// Cache instance and key to fill when the forward returns an answer.
#[derive(Debug, Clone)]
pub struct LookupCacheFill {
    pub cache_name: String,
    pub key: Vec<u8>,
}

/// Per-query state.
pub struct Transaction {
    pub id: u64,
    pub global_query_index: u64,
    pub tags: TagSet,
    pub current_phase: Phase,
    pub query_wire: Vec<u8>,
    pub response_wire: Option<Vec<u8>>,
    pub dns_id: u16,
    pub qname: Option<String>,
    pub qtype: Option<u16>,
    pub qclass: Option<u16>,
    /// DNS opcode from the query header (0-15).
    pub opcode: Option<u8>,
    /// EDNS option codes present on the client query (empty when no OPT).
    pub edns_option_codes: Vec<u16>,
    pub client_addr: SockAddr,
    /// Set when the parse stage drops the query.
    pub parse_reject_reason: Option<ParseRejectReason>,
    /// Configured listener bind address (the `listener` metric label).
    pub listener_label: Option<String>,
    pub protocol: ClientProtocol,
    pub client_udp_payload_size: Option<u16>,
    /// Set when Send clips outbound UDP wire to the client payload size.
    pub udp_response_truncated_on_send: bool,
    pub selected_pool: Option<String>,
    pub selected_backend: Option<SockAddr>,
    /// Logical label for the selected backend: its configured name, else
    /// its address.
    pub selected_backend_label: Option<String>,
    pub attempts: Vec<AttemptRecord>,
    pub attempt_count: u32,
    pub retry_pool: Option<String>,
    pub started_at: Instant,
    /// Wall-clock time when the transaction was created.
    pub received_at: Instant,
    /// Upstream RTT in milliseconds of the most recent forward attempt.
    pub last_forward_ms: u64,
    /// Start of the in-flight forward attempt; cleared when its RTT is recorded.
    pub forward_started_at: Option<Instant>,
    pub snapshot_generation: u64,
    pub dropped: bool,
    /// Soft drop intent; resolved at the end of the current rule.
    pub soft_drop: bool,
    /// IPv4 egress source override (address bits).
    pub source_override_v4: Option<u32>,
    /// IPv6 egress source override (address bits).
    pub source_override_v6: Option<u128>,
    /// One-shot IPv4 egress for the next retry forward.
    pub retry_source_override_v4: Option<u32>,
    /// One-shot IPv6 egress for the next retry forward.
    pub retry_source_override_v6: Option<u128>,
    /// Ingress structural parse already populated the metadata.
    pub pre_parsed: bool,
    /// When the pipeline suspended for I/O.
    pub suspend_phase_started_at: Option<Instant>,
    /// Forward metrics were already recorded.
    pub forward_metrics_recorded: bool,
    /// Active lookup profile name (default when unset).
    pub lookup_profile: Option<String>,
    /// Outcome of the most recent lookup provider attempt.
    pub lookup_outcome: Option<LookupOutcome>,
    /// How the answer was produced.
    pub answer_source: Option<AnswerSource>,
    /// Named cache instance when the answer came from a cache.
    pub cache_instance: Option<String>,
    /// When false, the cache lookup provider bypasses.
    pub cache_lookup_eligible: bool,
    /// Resume point inside the forward provider after async upstream I/O.
    pub lookup_forward_step: Option<LookupForwardStep>,
    /// Pending cache single-flight coalesce.
    pub lookup_cache_wait: Option<LookupCacheWait>,
    /// Cache fill target after the forward completes.
    pub lookup_cache_fill: Option<LookupCacheFill>,
    /// Response code set by rules.
    pub rcode: Option<u16>,
}

/// Whole milliseconds from `started` to `now`, zero when `now` is not later.
pub open spec fn spec_elapsed_ms(started: Instant, now: Instant) -> u64 {
    if now.nanos <= started.nanos {
        0
    } else {
        ((now.nanos - started.nanos) / 1_000_000) as u64
    }
}

fn elapsed_ms(started: Instant, now: Instant) -> (r: u64)
    ensures
        r == spec_elapsed_ms(started, now),
{
    if now.nanos <= started.nanos {
        0
    } else {
        (now.nanos - started.nanos) / 1_000_000
    }
}

/// Nanoseconds from `started` to `now`, zero when `now` is not after it.
pub open spec fn spec_elapsed_ns(started: Instant, now: Instant) -> u64 {
    if now.nanos <= started.nanos {
        0
    } else {
        (now.nanos - started.nanos) as u64
    }
}

/// Nanoseconds since `started`, read from the clock now.
pub fn elapsed_ns_since(started: Instant) -> (r: u64)
    ensures
        exists|now: Instant| r == spec_elapsed_ns(started, now),
{
    let now = Instant::now();
    let r: u64 = if now.nanos <= started.nanos {
        0
    } else {
        now.nanos - started.nanos
    };
    assert(r == spec_elapsed_ns(started, now));
    r
}

/// Milliseconds since `started`, read from the clock now.
pub fn forward_elapsed_ms(started: Instant) -> (r: u64)
    ensures
        exists|now: Instant| r == spec_elapsed_ms(started, now),
{
    let now = Instant::now();
    elapsed_ms(started, now)
}

impl Transaction {
    /// A fresh transaction in the `Receive` phase.
    pub fn new(id: u64, client_addr: SockAddr, protocol: ClientProtocol) -> (r: Transaction)
        ensures
            r.id == id,
            r.client_addr == client_addr,
            r.protocol == protocol,
            r.current_phase == Phase::Receive,
            r.global_query_index == 0,
            r.tags@.0 == Map::<Seq<char>, bool>::empty(),
            r.tags@.1 == Map::<Seq<char>, Seq<char>>::empty(),
            r.query_wire@.len() == 0,
            r.attempts@.len() == 0,
            r.attempt_count == 0,
            r.selected_pool is None,
            r.selected_backend is None,
            r.retry_pool is None,
            r.last_forward_ms == 0,
            r.forward_started_at is None,
            !r.dropped,
            !r.soft_drop,
            r.source_override_v4 is None,
            r.source_override_v6 is None,
            r.retry_source_override_v4 is None,
            r.retry_source_override_v6 is None,
            r.cache_lookup_eligible,
            r.rcode is None,
    {
        let now = Instant::now();
        Transaction {
            id,
            global_query_index: 0,
            tags: TagSet::default(),
            current_phase: Phase::Receive,
            query_wire: Vec::new(),
            response_wire: None,
            dns_id: 0,
            qname: None,
            qtype: None,
            qclass: None,
            opcode: None,
            edns_option_codes: Vec::new(),
            client_addr,
            parse_reject_reason: None,
            listener_label: None,
            protocol,
            client_udp_payload_size: None,
            udp_response_truncated_on_send: false,
            selected_pool: None,
            selected_backend: None,
            selected_backend_label: None,
            attempts: Vec::new(),
            attempt_count: 0,
            retry_pool: None,
            started_at: now,
            received_at: now,
            last_forward_ms: 0,
            forward_started_at: None,
            snapshot_generation: 0,
            dropped: false,
            soft_drop: false,
            source_override_v4: None,
            source_override_v6: None,
            retry_source_override_v4: None,
            retry_source_override_v6: None,
            pre_parsed: false,
            suspend_phase_started_at: None,
            forward_metrics_recorded: false,
            lookup_profile: None,
            lookup_outcome: None,
            answer_source: None,
            cache_instance: None,
            cache_lookup_eligible: true,
            lookup_forward_step: None,
            lookup_cache_wait: None,
            lookup_cache_fill: None,
            rcode: None,
        }
    }

    /// Mark the start of an upstream forward attempt.
    pub fn mark_forward_started(&mut self, at: Instant)
        ensures
            *final(self) == (Transaction { forward_started_at: Some(at), ..*old(self) }),
    {
        self.forward_started_at = Some(at);
    }

    /// Record the RTT (in milliseconds, up to the current time) of the
    /// forward attempt started at `started`, and clear the start mark.
    pub fn complete_forward_rtt(&mut self, started: Instant)
        ensures
            *final(self) == (Transaction { forward_started_at: None, last_forward_ms: final(self).last_forward_ms, ..*old(self) }),
            exists|now: Instant| final(self).last_forward_ms == spec_elapsed_ms(started, now),
    {
        self.last_forward_ms = forward_elapsed_ms(started);
        self.forward_started_at = None;
    }

    /// Record the RTT from the start mark, when one is set.
    pub fn complete_forward_rtt_from_mark(&mut self)
        ensures
            *final(self) == (Transaction { forward_started_at: None, last_forward_ms: final(self).last_forward_ms, ..*old(self) }),
            old(self).forward_started_at is None ==> final(self).last_forward_ms == old(self).last_forward_ms,
            old(self).forward_started_at matches Some(s) ==> exists|now: Instant|
                final(self).last_forward_ms == spec_elapsed_ms(s, now),
    {
        match self.forward_started_at {
            Some(started) => {
                self.forward_started_at = None;
                self.last_forward_ms = forward_elapsed_ms(started);
            },
            None => {},
        }
    }

    pub fn last_forward_ms(&self) -> (r: u64)
        ensures
            r == self.last_forward_ms,
    {
        self.last_forward_ms
    }

    pub fn set_source_override_v4(&mut self, addr: u32)
        ensures
            *final(self) == (Transaction { source_override_v4: Some(addr), ..*old(self) }),
    {
        self.source_override_v4 = Some(addr);
    }

    pub fn set_source_override_v6(&mut self, addr: u128)
        ensures
            *final(self) == (Transaction { source_override_v6: Some(addr), ..*old(self) }),
    {
        self.source_override_v6 = Some(addr);
    }

    pub fn set_retry_source_override_v4(&mut self, addr: u32)
        ensures
            *final(self) == (Transaction { retry_source_override_v4: Some(addr), ..*old(self) }),
    {
        self.retry_source_override_v4 = Some(addr);
    }

    pub fn set_retry_source_override_v6(&mut self, addr: u128)
        ensures
            *final(self) == (Transaction { retry_source_override_v6: Some(addr), ..*old(self) }),
    {
        self.retry_source_override_v6 = Some(addr);
    }

    pub fn clear_retry_source_override_v4(&mut self)
        ensures
            *final(self) == (Transaction { retry_source_override_v4: None, ..*old(self) }),
    {
        self.retry_source_override_v4 = None;
    }

    pub fn clear_retry_source_override_v6(&mut self)
        ensures
            *final(self) == (Transaction { retry_source_override_v6: None, ..*old(self) }),
    {
        self.retry_source_override_v6 = None;
    }

    /// IPv4 egress at Forward: on a retry forward (`attempt_count > 1`) the
    /// one-shot retry override is consumed when set; otherwise the plain
    /// override applies.
    pub fn take_effective_source_override_v4(&mut self) -> (r: Option<u32>)
        ensures
            old(self).attempt_count > 1 && old(self).retry_source_override_v4 is Some ==> r
                == old(self).retry_source_override_v4 && final(self).retry_source_override_v4 is None,
            !(old(self).attempt_count > 1 && old(self).retry_source_override_v4 is Some) ==> r
                == old(self).source_override_v4 && final(self).retry_source_override_v4 == old(
                self,
            ).retry_source_override_v4,
            *final(self) == (Transaction { retry_source_override_v4: final(self).retry_source_override_v4, ..*old(self) }),
    {
        if self.attempt_count > 1 {
            if let Some(addr) = self.retry_source_override_v4 {
                self.retry_source_override_v4 = None;
                return Some(addr);
            }
        }
        self.source_override_v4
    }

    /// IPv6 egress at Forward; see `take_effective_source_override_v4`.
    pub fn take_effective_source_override_v6(&mut self) -> (r: Option<u128>)
        ensures
            old(self).attempt_count > 1 && old(self).retry_source_override_v6 is Some ==> r
                == old(self).retry_source_override_v6 && final(self).retry_source_override_v6 is None,
            !(old(self).attempt_count > 1 && old(self).retry_source_override_v6 is Some) ==> r
                == old(self).source_override_v6 && final(self).retry_source_override_v6 == old(
                self,
            ).retry_source_override_v6,
            *final(self) == (Transaction { retry_source_override_v6: final(self).retry_source_override_v6, ..*old(self) }),
    {
        if self.attempt_count > 1 {
            if let Some(addr) = self.retry_source_override_v6 {
                self.retry_source_override_v6 = None;
                return Some(addr);
            }
        }
        self.source_override_v6
    }

    pub fn with_query_wire(self, wire: Vec<u8>) -> (r: Transaction)
        ensures
            r == (Transaction { query_wire: wire, ..self }),
    {
        let mut t = self;
        t.query_wire = wire;
        t
    }

    pub fn with_listener_label(self, label: &str) -> (r: Transaction)
        ensures
            r.listener_label matches Some(l) && l@ == label@,
            r == (Transaction { listener_label: r.listener_label, ..self }),
    {
        let mut t = self;
        t.listener_label = Some(crate::text::owned(label));
        t
    }

    pub fn with_global_query_index(self, global_query_index: u64) -> (r: Transaction)
        ensures
            r == (Transaction { global_query_index, ..self }),
    {
        let mut t = self;
        t.global_query_index = global_query_index;
        t
    }

    pub fn set_rcode(&mut self, code: u16)
        ensures
            *final(self) == (Transaction { rcode: Some(code), ..*old(self) }),
    {
        self.rcode = Some(code);
    }

    pub fn rcode(&self) -> (r: Option<u16>)
        ensures
            r == self.rcode,
    {
        self.rcode
    }

    /// Record a forward attempt to `backend` in `pool`: the attempt count
    /// grows by one and the attempt becomes the selection.
    pub fn record_attempt(&mut self, pool: String, backend: SockAddr, backend_label: String)
        requires
            old(self).attempt_count < u32::MAX,
        ensures
            final(self).attempt_count == old(self).attempt_count + 1,
            final(self).attempts@.len() == old(self).attempts@.len() + 1,
            final(self).attempts@.drop_last() == old(self).attempts@,
            final(self).attempts@.last().pool@ == pool@,
            final(self).attempts@.last().backend == backend,
            final(self).attempts@.last().attempt == final(self).attempt_count,
            final(self).selected_pool matches Some(p) && p@ == pool@,
            final(self).selected_backend == Some(backend),
            final(self).selected_backend_label matches Some(l) && l@ == backend_label@,
            *final(self) == (Transaction {
                attempt_count: final(self).attempt_count,
                attempts: final(self).attempts,
                selected_pool: final(self).selected_pool,
                selected_backend: Some(backend),
                selected_backend_label: final(self).selected_backend_label,
                ..*old(self)
            }),
    {
        self.attempt_count = self.attempt_count + 1;
        let ghost before = self.attempts@;
        self.attempts.push(AttemptRecord { pool: pool.clone(), backend, attempt: self.attempt_count });
        proof {
            assert(self.attempts@.drop_last() =~= before);
        }
        self.selected_pool = Some(pool);
        self.selected_backend = Some(backend);
        self.selected_backend_label = Some(backend_label);
    }

    pub fn take_retry_pool(&mut self) -> (r: Option<String>)
        ensures
            r == old(self).retry_pool,
            *final(self) == (Transaction { retry_pool: None, ..*old(self) }),
    {
        self.retry_pool.take()
    }

    pub fn set_soft_drop(&mut self)
        ensures
            *final(self) == (Transaction { soft_drop: true, ..*old(self) }),
    {
        self.soft_drop = true;
    }

    pub fn clear_soft_drop(&mut self)
        ensures
            *final(self) == (Transaction { soft_drop: false, dropped: false, ..*old(self) }),
    {
        self.soft_drop = false;
        self.dropped = false;
    }

    pub fn clear_retry_pool(&mut self)
        ensures
            *final(self) == (Transaction { retry_pool: None, ..*old(self) }),
    {
        self.retry_pool = None;
    }

    pub fn clear_pool(&mut self)
        ensures
            *final(self) == (Transaction { selected_pool: None, ..*old(self) }),
    {
        self.selected_pool = None;
    }
}

} // verus!
