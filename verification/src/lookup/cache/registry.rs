//! Cache lookup decisions: RFC 8020 ancestor walks and the truncated-UDP
//! storage policy.

use vstd::prelude::*;
use vstd::string::StringExecFns;
use super::entry::{expires_at_from_ttl, spec_kind_from_rcode, CacheEntry, EntryKind};
use super::inflight::InFlightGate;
use super::key::{build_key_from_parts, build_query_key, build_truncated_udp_key, spec_key_from_parts, CacheKey, KeyError, TransportKey};
use super::memory::{entry_from_wire, spec_count16, spec_ttl_for, MemoryCacheBackend};
use super::response::{spec_response_summary, summarize_response};
use super::serve::{prepare_served_wire, spec_cache_age, spec_served_summary, spec_served_view, spec_served_wire_body, ServeError};
use crate::dns_message::{spec_encodes, spec_wire_header, spec_wire_tc, HeaderView};
use super::shard::fresh_at;
use crate::clock::{spec_plus_secs, Instant};
use crate::text::{owned, spec_trailing_count, split_once_char, str_eq, trim_end_char};
use crate::transaction::{ClientProtocol, Transaction};

verus! {

/// Outcome of a cache lookup attempt.
#[derive(Debug)]
pub enum CacheLookupOutcome {
    Hit { wire: Vec<u8>, cache_name: String, skip_response_rules: bool },
    /// A miss; the caller coalesces on the key's in-flight gate.
    Miss { key: CacheKey },
    WaitAsync { key: CacheKey },
    Bypass,
}

/// What follows the first `.` of `s`, if it has one.
pub open spec fn spec_after_first_dot(s: Seq<char>) -> Option<Seq<char>>
    decreases s.len(),
{
    if s.len() == 0 {
        None
    } else if s[0] == '.' {
        Some(s.drop_first())
    } else {
        spec_after_first_dot(s.drop_first())
    }
}

pub proof fn lemma_after_first_dot(s: Seq<char>)
    ensures
        spec_after_first_dot(s) matches Some(r) ==> r.len() < s.len(),
        spec_after_first_dot(s) is None <==> !(exists|i: int| 0 <= i < s.len() && s[i] == '.'),
        forall|i: int|
            0 <= i < s.len() && s[i] == '.' && (forall|j: int| 0 <= j < i ==> s[j] != '.') ==> spec_after_first_dot(s)
                == Some(s.subrange(i + 1, s.len() as int)),
    decreases s.len(),
{
    if s.len() > 0 {
        lemma_after_first_dot(s.drop_first());
        if s[0] != '.' {
            assert forall|i: int|
                0 <= i < s.len() && s[i] == '.' && (forall|j: int| 0 <= j < i ==> s[j] != '.') implies spec_after_first_dot(s)
                    == Some(s.subrange(i + 1, s.len() as int)) by {
                let t = s.drop_first();
                assert(t[i - 1] == '.');
                assert forall|j: int| 0 <= j < i - 1 implies t[j] != '.' by {
                    assert(s[j + 1] != '.');
                }
                assert(t.subrange(i, t.len() as int) =~= s.subrange(i + 1, s.len() as int));
            }
            if exists|i: int| 0 <= i < s.len() && s[i] == '.' {
                let i = choose|i: int| 0 <= i < s.len() && s[i] == '.';
                assert(s.drop_first()[i - 1] == '.');
            }
            if exists|i: int| 0 <= i < s.len() - 1 && s.drop_first()[i] == '.' {
                let i = choose|i: int| 0 <= i < s.len() - 1 && s.drop_first()[i] == '.';
                assert(s[i + 1] == '.');
            }
        } else {
            assert forall|i: int|
                0 <= i < s.len() && s[i] == '.' && (forall|j: int| 0 <= j < i ==> s[j] != '.') implies spec_after_first_dot(s)
                    == Some(s.subrange(i + 1, s.len() as int)) by {
                assert(i == 0);
                assert(s.drop_first() =~= s.subrange(1, s.len() as int));
            }
        }
    }
}

/// The proper ancestors of a dotted name, nearest first, each with a
/// trailing dot: `a.b.c` gives `b.c.` then `c.`.
pub open spec fn spec_ancestors(s: Seq<char>) -> Seq<Seq<char>>
    decreases s.len(),
{
    match spec_after_first_dot(s) {
        None => Seq::empty(),
        Some(rest) => {
            proof {
                lemma_after_first_dot(s);
            }
            seq![rest + "."@] + spec_ancestors(rest)
        },
    }
}

/// The view of each string.
pub open spec fn spec_views(v: Seq<String>) -> Seq<Seq<char>> {
    v.map_values(|x: String| x@)
}

pub proof fn lemma_trailing_stop(s: Seq<char>, c: char)
    ensures
        spec_trailing_count(s, c) < s.len() ==> s[s.len() - spec_trailing_count(s, c) - 1] != c,
    decreases s.len(),
{
    if s.len() > 0 && s.last() == c {
        lemma_trailing_stop(s.drop_last(), c);
    }
}

/// Parent names of `qname` for RFC 8020 walks (trailing dots trimmed, then
/// the leftmost label stripped repeatedly).
pub fn ancestor_qnames(qname: &str) -> (r: Vec<String>)
    ensures
        spec_views(r@) == spec_ancestors(qname@.subrange(0, qname@.len() - spec_trailing_count(qname@, '.'))),
{
    proof {
        super::key::lemma_trailing_count_le(qname@, '.');
        lemma_trailing_stop(qname@, '.');
    }
    let trimmed = trim_end_char(qname, '.');
    let mut out: Vec<String> = Vec::new();
    if trimmed.is_empty() || str_eq(trimmed, ".") {
        proof {
            if trimmed@.len() > 0 {
                reveal_strlit(".");
                assert(trimmed@[trimmed@.len() - 1] == "."@[0]);
                assert(false);
            }
            assert(spec_after_first_dot(trimmed@) is None);
            assert(spec_views(out@) =~= spec_ancestors(trimmed@));
        }
        return out;
    }
    let mut cur: &str = trimmed;
    proof {
        assert(spec_views(out@) + spec_ancestors(cur@) =~= spec_ancestors(trimmed@));
    }
    loop
        invariant
            trimmed@ == qname@.subrange(0, qname@.len() - spec_trailing_count(qname@, '.')),
            spec_views(out@) + spec_ancestors(cur@) == spec_ancestors(trimmed@),
        decreases cur@.len(),
    {
        proof {
            lemma_after_first_dot(cur@);
        }
        match split_once_char(cur, '.') {
            Some((_, rest)) => {
                proof {
                    let i = choose|i: int|
                        0 <= i < cur@.len() && cur@[i] == '.' && (forall|j: int| 0 <= j < i ==> cur@[j] != '.')
                            && rest@ == cur@.subrange(i + 1, cur@.len() as int);
                    assert(spec_after_first_dot(cur@) == Some(rest@));
                }
                let mut a = owned(rest);
                a.append(".");
                let ghost before = out@;
                out.push(a);
                proof {
                    assert(spec_views(out@) =~= spec_views(before).push(rest@ + "."@));
                    assert(spec_views(out@) + spec_ancestors(rest@) =~= spec_views(before) + spec_ancestors(cur@));
                }
                cur = rest;
            },
            None => {
                proof {
                    assert(spec_views(out@) + spec_ancestors(cur@) =~= spec_views(out@));
                }
                return out;
            },
        }
    }
}

/// The first ancestor in the walk whose key cannot be built, whose entry
/// is missing or stale, or whose fresh entry is NXDOMAIN ends it; only the
/// last case is a hit.
pub open spec fn spec_ancestor_walk(
    cache: Map<Seq<u8>, (EntryKind, Seq<u8>, Instant, Instant)>,
    ancestors: Seq<Seq<char>>,
    qtype: u16,
    qclass: u16,
    query_wire: Seq<u8>,
    now: Instant,
    i: int,
) -> Option<(EntryKind, Seq<u8>, Instant, Instant)>
    decreases ancestors.len() - i,
{
    if i < 0 || i >= ancestors.len() {
        None
    } else {
        match spec_key_from_parts(ancestors[i], qtype, qclass, query_wire, TransportKey::Complete) {
            Err(_) => None,
            Ok(k) => if cache.contains_key(k) && fresh_at(cache[k], now) {
                if cache[k].0 == EntryKind::NxDomain {
                    Some(cache[k])
                } else {
                    spec_ancestor_walk(cache, ancestors, qtype, qclass, query_wire, now, i + 1)
                }
            } else {
                None
            },
        }
    }
}

/// An ancestor walk only ever answers with a fresh NXDOMAIN entry cached
/// under the key of one of the ancestor names it walks: a positive or
/// NODATA entry of an ancestor never answers a descendant.
pub proof fn lemma_ancestor_hit_is_nxdomain(
    cache: Map<Seq<u8>, (EntryKind, Seq<u8>, Instant, Instant)>,
    ancestors: Seq<Seq<char>>,
    qtype: u16,
    qclass: u16,
    query_wire: Seq<u8>,
    now: Instant,
    i: int,
)
    ensures
        spec_ancestor_walk(cache, ancestors, qtype, qclass, query_wire, now, i) matches Some(e) ==> {
            &&& e.0 == EntryKind::NxDomain
            &&& fresh_at(e, now)
            &&& exists|j: int| #![trigger ancestors[j]]
                0 <= i <= j < ancestors.len()
                && (spec_key_from_parts(ancestors[j], qtype, qclass, query_wire, TransportKey::Complete) matches Ok(k)
                && cache.contains_key(k) && cache[k] == e)
        },
    decreases ancestors.len() - i,
{
    if 0 <= i < ancestors.len() {
        match spec_key_from_parts(ancestors[i], qtype, qclass, query_wire, TransportKey::Complete) {
            Err(_) => {},
            Ok(k) => {
                if cache.contains_key(k) && fresh_at(cache[k], now) && cache[k].0 != EntryKind::NxDomain {
                    lemma_ancestor_hit_is_nxdomain(cache, ancestors, qtype, qclass, query_wire, now, i + 1);
                } else if cache.contains_key(k) && fresh_at(cache[k], now) {
                    assert(ancestors[i] == ancestors[i]);
                }
            },
        }
    }
}

/// RFC 8020: an NXDOMAIN cached for an ancestor of the query name answers
/// the query, when negative caching covers descendants.
pub fn try_ancestor_nxdomain_hit(
    backend: &MemoryCacheBackend,
    negative_enabled: bool,
    nxdomain_covers_descendants: bool,
    txn: &Transaction,
    now: Instant,
) -> (r: Option<CacheEntry>)
    requires
        backend.wf(),
    ensures
        !negative_enabled || !nxdomain_covers_descendants ==> r is None,
        negative_enabled && nxdomain_covers_descendants ==> ({
            let q = match txn.qname { Some(q) => q@, None => "."@ };
            let hit = spec_ancestor_walk(
                backend@,
                spec_ancestors(q.subrange(0, q.len() - spec_trailing_count(q, '.'))),
                match txn.qtype { Some(t) => t, None => 0 },
                match txn.qclass { Some(c) => c, None => 1 },
                txn.query_wire@,
                now,
                0,
            );
            match r {
                Some(e) => hit == Some(e@),
                None => hit is None,
            }
        }),
        r matches Some(e) ==> e.kind == EntryKind::NxDomain && fresh_at(e@, now),
{
    if !negative_enabled || !nxdomain_covers_descendants {
        return None;
    }
    let qname: &str = match &txn.qname {
        Some(q) => q.as_str(),
        None => ".",
    };
    let qtype: u16 = match txn.qtype {
        Some(t) => t,
        None => 0,
    };
    let qclass: u16 = match txn.qclass {
        Some(c) => c,
        None => 1,
    };
    let ancestors = ancestor_qnames(qname);
    proof {
        assert(spec_views(ancestors@).len() == ancestors@.len());
    }
    let ghost anc = spec_ancestors(qname@.subrange(0, qname@.len() - spec_trailing_count(qname@, '.')));
    let mut i: usize = 0;
    while i < ancestors.len()
        invariant
            backend.wf(),
            negative_enabled && nxdomain_covers_descendants,
            qname@ == match txn.qname { Some(q) => q@, None => "."@ },
            qtype == match txn.qtype { Some(t) => t, None => 0 },
            qclass == match txn.qclass { Some(c) => c, None => 1 },
            anc == spec_ancestors(qname@.subrange(0, qname@.len() - spec_trailing_count(qname@, '.'))),
            ancestors@.len() == anc.len(),
            spec_views(ancestors@) == anc,
            i <= ancestors@.len(),
            spec_ancestor_walk(backend@, anc, qtype, qclass, txn.query_wire@, now, 0) == spec_ancestor_walk(
                backend@,
                anc,
                qtype,
                qclass,
                txn.query_wire@,
                now,
                i as int,
            ),
        decreases ancestors@.len() - i,
    {
        proof {
            assert(spec_views(ancestors@)[i as int] == ancestors@[i as int]@);
        }
        let key = match build_key_from_parts(ancestors[i].as_str(), qtype, qclass, txn.query_wire.as_slice(), TransportKey::Complete) {
            Ok(k) => k,
            Err(_) => {
                proof {
                    assert(spec_key_from_parts(anc[i as int], qtype, qclass, txn.query_wire@, TransportKey::Complete) is Err);
                    assert(spec_ancestor_walk(backend@, anc, qtype, qclass, txn.query_wire@, now, i as int) is None);
                }
                return None;
            },
        };
        let entry = match backend.get(&key, now) {
            Some(e) => e,
            None => {
                proof {
                    assert(spec_key_from_parts(anc[i as int], qtype, qclass, txn.query_wire@, TransportKey::Complete) == Ok::<Seq<u8>, super::key::KeyError>(key@));
                    assert(spec_ancestor_walk(backend@, anc, qtype, qclass, txn.query_wire@, now, i as int) is None);
                }
                return None;
            },
        };
        if entry.kind == EntryKind::NxDomain {
            return Some(entry);
        }
        i += 1;
    }
    None
}

/// A response is stored as a truncated-UDP stub when the policy is on, the
/// client is on UDP, and the response decodes with its TC bit set.
pub open spec fn spec_store_truncated(enabled: bool, wire: Seq<u8>, protocol: ClientProtocol) -> bool {
    enabled && protocol == ClientProtocol::Udp && (spec_response_summary(wire) matches Some(s) && s.3)
}

pub fn is_truncated_udp_wire(wire: &[u8], protocol: ClientProtocol) -> (r: bool)
    ensures
        r == (protocol == ClientProtocol::Udp && (spec_response_summary(wire@) matches Some(s) && s.3)),
{
    if protocol != ClientProtocol::Udp {
        return false;
    }
    match summarize_response(wire) {
        Some(s) => s.truncated,
        None => false,
    }
}

pub fn should_store_truncated(enabled: bool, wire: &[u8], protocol: ClientProtocol) -> (r: bool)
    ensures
        r == spec_store_truncated(enabled, wire@, protocol),
{
    if !enabled {
        return false;
    }
    is_truncated_udp_wire(wire, protocol)
}

/// The cache key of a transaction's question for `transport`.
pub open spec fn spec_txn_key(txn: Transaction, transport: TransportKey) -> Result<Seq<u8>, KeyError> {
    spec_key_from_parts(
        match txn.qname {
            Some(q) => q@,
            None => "."@,
        },
        match txn.qtype {
            Some(t) => t,
            None => 0,
        },
        match txn.qclass {
            Some(c) => c,
            None => 1,
        },
        txn.query_wire@,
        transport,
    )
}

/// The fill settings of a cache instance.
#[derive(Debug, Clone, Copy, PartialEq, Eq, Structural)]
pub struct FillSettings {
    pub negative_enabled: bool,
    pub servfail_ttl_secs: u32,
    pub truncated_udp_enabled: bool,
    pub truncated_udp_ttl_secs: u32,
}

/// What a fill did.
#[derive(Debug, Clone, Copy, PartialEq, Eq, Structural)]
pub enum FillOutcome {
    /// The instance is rebuilding (map shrink); nothing stored.
    SkippedRebuilding,
    /// A truncated UDP response the policy does not store.
    TruncatedNotStored,
    /// The response is not cacheable (does not decode, or no TTL applies).
    NotCacheable,
    /// The response was stored: under the truncated-UDP key when `truncated`.
    Stored { truncated: bool },
}

/// The entry a fill stores for `wire`: its kind, the wire, filled now, and
/// expiring after the truncated-UDP TTL (`tc_ttl`) or the response's own.
pub open spec fn spec_fill_entry(wire: Seq<u8>, s: FillSettings, now: Instant, tc_ttl: Option<u32>) -> Option<(EntryKind, Seq<u8>, Instant, Instant)> {
    match spec_response_summary(wire) {
        None => None,
        Some((rcode, n, ttls, _)) => match spec_ttl_for(rcode, n, ttls, s.negative_enabled, s.servfail_ttl_secs) {
            None => None,
            Some(ttl) => Some((
                spec_kind_from_rcode(rcode, spec_count16(n)),
                wire,
                now,
                spec_plus_secs(now, match tc_ttl {
                    Some(t) => t as u64,
                    None => ttl as u64,
                }),
            )),
        },
    }
}

/// Store a forwarded response for `key` and complete the key's in-flight
/// gate, handing back the waiters to wake.
///
/// A rebuilding instance stores nothing. A truncated UDP response is stored
/// under the truncated-UDP key with that policy's TTL when the policy is on,
/// and otherwise not at all. An uncacheable response stores nothing. A
/// complete response is stored under `key`, and then the entry under its
/// truncated-UDP key is dropped. Transactions waiting on the key receive the
/// stored wire through its in-flight gate.
pub fn fill_from_forward(
    backend: &mut MemoryCacheBackend,
    gate: &mut InFlightGate,
    settings: &FillSettings,
    rebuilding: bool,
    key: &CacheKey,
    wire: Vec<u8>,
    txn: &Transaction,
    now: Instant,
) -> (r: (FillOutcome, Vec<u64>))
    requires
        old(backend).wf(),
    ensures
        final(backend).wf(),
        r.1@ == old(gate).spec_waiters(),
        !final(gate).spec_leader_active(),
        final(gate).spec_waiters() == Seq::<u64>::empty(),
        final(gate).spec_result() == (if r.0 is Stored {
            Some(wire@)
        } else {
            None::<Seq<u8>>
        }),
        !(r.0 is Stored) ==> final(backend)@ == old(backend)@,
        rebuilding ==> r.0 == FillOutcome::SkippedRebuilding,
        !rebuilding ==> {
            let tc_store = spec_store_truncated(settings.truncated_udp_enabled, wire@, txn.protocol)
                && spec_txn_key(*txn, TransportKey::UdpTruncated) is Ok;
            let tc_ttl = if tc_store { Some(settings.truncated_udp_ttl_secs) } else { None };
            let insert_key = if tc_store { spec_txn_key(*txn, TransportKey::UdpTruncated)->Ok_0 } else { key@ };
            &&& (!tc_store && (txn.protocol == ClientProtocol::Udp && (spec_response_summary(wire@) matches Some(s) && s.3)))
                ==> r.0 == FillOutcome::TruncatedNotStored
            &&& !(!tc_store && (txn.protocol == ClientProtocol::Udp && (spec_response_summary(wire@) matches Some(s) && s.3)))
                ==> match spec_fill_entry(wire@, *settings, now, tc_ttl) {
                    None => r.0 == FillOutcome::NotCacheable,
                    Some(e) => {
                        &&& r.0 == FillOutcome::Stored { truncated: tc_store }
                        &&& tc_store ==> final(backend)@.contains_key(insert_key) && final(backend)@[insert_key] == e
                        &&& !tc_store ==> (spec_txn_key(*txn, TransportKey::UdpTruncated) matches Ok(tk)
                            ==> !final(backend)@.contains_key(tk))
                        &&& !tc_store && (spec_txn_key(*txn, TransportKey::UdpTruncated) matches Ok(tk) ==> tk != key@)
                            ==> final(backend)@.contains_key(key@) && final(backend)@[key@] == e
                    },
                }
        },
{
    if rebuilding {
        let waiters = gate.complete(None);
        return (FillOutcome::SkippedRebuilding, waiters);
    }
    let store_key: Option<CacheKey> = if should_store_truncated(settings.truncated_udp_enabled, wire.as_slice(), txn.protocol) {
        match build_truncated_udp_key(txn) {
            Ok(k) => Some(k),
            Err(_) => None,
        }
    } else {
        None
    };
    if store_key.is_none() && is_truncated_udp_wire(wire.as_slice(), txn.protocol) {
        let waiters = gate.complete(None);
        return (FillOutcome::TruncatedNotStored, waiters);
    }
    let storing_truncated = store_key.is_some();
    let mut entry = match entry_from_wire(wire.clone(), settings.negative_enabled, settings.servfail_ttl_secs, now) {
        Some(e) => e,
        None => {
            let waiters = gate.complete(None);
            return (FillOutcome::NotCacheable, waiters);
        },
    };
    let insert_key = match store_key {
        Some(k) => {
            entry.expires_at = expires_at_from_ttl(now, settings.truncated_udp_ttl_secs);
            k
        },
        None => key.duplicate(),
    };
    backend.insert(insert_key, entry, now);
    if !storing_truncated {
        match build_truncated_udp_key(txn) {
            Ok(tc_key) => {
                backend.remove(&tc_key);
            },
            Err(_) => {},
        }
    }
    let waiters = gate.complete(Some(wire));
    (FillOutcome::Stored { truncated: storing_truncated }, waiters)
}

/// The lookup settings of a cache instance.
#[derive(Debug, Clone, Copy, PartialEq, Eq, Structural)]
pub struct LookupSettings {
    pub negative_enabled: bool,
    /// RFC 8020: a cached ancestor NXDOMAIN answers descendant names.
    pub nxdomain_covers_descendants: bool,
    pub truncated_udp_enabled: bool,
    pub rotate_rrset_on_serve: bool,
    /// Cache hits skip the response rules.
    pub skip_response_rules: bool,
}

/// Where a cache lookup's answer comes from.
pub enum LookupSource {
    Bypass,
    /// Nothing cached: the caller coalesces on this key.
    Miss(Seq<u8>),
    /// This fresh entry answers.
    Serve((EntryKind, Seq<u8>, Instant, Instant)),
}

/// The lookup order: the complete key's fresh entry; else (when enabled) a
/// cached ancestor NXDOMAIN; else (when enabled, for a UDP client) the
/// truncated-UDP key's fresh entry; else a miss on the complete key. A
/// rebuilding instance, a transaction not eligible for the cache, or a key
/// that cannot be built bypasses the cache.
pub open spec fn spec_lookup_source(
    cache: Map<Seq<u8>, (EntryKind, Seq<u8>, Instant, Instant)>,
    s: LookupSettings,
    rebuilding: bool,
    txn: Transaction,
    now: Instant,
) -> LookupSource {
    if rebuilding || !txn.cache_lookup_eligible {
        LookupSource::Bypass
    } else {
        match spec_txn_key(txn, TransportKey::Complete) {
            Err(_) => LookupSource::Bypass,
            Ok(k) => if cache.contains_key(k) && fresh_at(cache[k], now) {
                LookupSource::Serve(cache[k])
            } else {
                let q = match txn.qname {
                    Some(q) => q@,
                    None => "."@,
                };
                let ancestor = if s.negative_enabled && s.nxdomain_covers_descendants {
                    spec_ancestor_walk(
                        cache,
                        spec_ancestors(q.subrange(0, q.len() - spec_trailing_count(q, '.'))),
                        match txn.qtype {
                            Some(t) => t,
                            None => 0,
                        },
                        match txn.qclass {
                            Some(c) => c,
                            None => 1,
                        },
                        txn.query_wire@,
                        now,
                        0,
                    )
                } else {
                    None
                };
                match ancestor {
                    Some(e) => LookupSource::Serve(e),
                    None => if s.truncated_udp_enabled && txn.protocol == ClientProtocol::Udp && (spec_txn_key(
                        txn,
                        TransportKey::UdpTruncated,
                    ) matches Ok(tk) && cache.contains_key(tk) && fresh_at(cache[tk], now)) {
                        LookupSource::Serve(cache[spec_txn_key(txn, TransportKey::UdpTruncated)->Ok_0])
                    } else {
                        LookupSource::Miss(k)
                    },
                }
            },
        }
    }
}

/// What a cache lookup returns before any in-flight coalescing.
#[derive(Debug)]
pub enum CachedLookup {
    /// The served wire (response id, aged TTLs, client question).
    Hit { wire: Vec<u8>, skip_response_rules: bool },
    Miss { key: CacheKey },
    Bypass,
}

/// Whether a copy of `stored` served to the client query `query` with
/// response id `id` after `age` seconds is had: both wires decode and the
/// served message (`spec_served_view`) encodes.
pub open spec fn spec_serves(stored: Seq<u8>, query: Seq<u8>, id: u16, age: int, rotate: bool, rng: u64) -> bool {
    &&& spec_response_summary(stored) is Some
    &&& spec_response_summary(query) is Some
    &&& spec_encodes(spec_served_view(stored, id, rotate, age as u32, Some(query), rng))
}

/// A wire served from `stored` to the client query `query` with response id
/// `id` after `age` seconds: the stored header with the new id, and, when it
/// carries no TC, the stored records with their TTLs lowered by `age` (see
/// `spec_served_summary`) under the client's questions and EDNS section
/// (see `spec_served_body`).
pub open spec fn spec_served_copy(stored: Seq<u8>, query: Seq<u8>, served: Seq<u8>, id: u16, age: int, rotate: bool) -> bool {
    &&& spec_wire_header(served) == Some(HeaderView { id, ..spec_wire_header(stored)->0 })
    &&& !spec_wire_tc(served) ==> spec_served_summary(
        spec_response_summary(stored),
        spec_response_summary(served),
        age as u32,
        rotate,
    )
    &&& !spec_wire_tc(served) ==> spec_served_wire_body(stored, Some(query), served)
}

/// Serve a cached entry to the transaction: its id, the entry's age, the
/// client's question; `None` when the wire cannot be prepared.
fn serve_entry(entry: &CacheEntry, s: &LookupSettings, txn: &Transaction, now: Instant, rng: &mut u64) -> (r: Option<Vec<u8>>)
    ensures
        spec_response_summary(entry.wire@) is None ==> r is None,
        spec_response_summary(txn.query_wire@) is None ==> r is None,
        r matches Some(w) ==> spec_served_copy(entry.wire@, txn.query_wire@, w@, txn.dns_id,
            spec_cache_age(entry.filled_at, now), s.rotate_rrset_on_serve),
        r is Some <==> spec_serves(entry.wire@, txn.query_wire@, txn.dns_id, spec_cache_age(entry.filled_at, now),
            s.rotate_rrset_on_serve, *old(rng)),
{
    match prepare_served_wire(
        entry.wire.as_slice(),
        txn.dns_id,
        s.rotate_rrset_on_serve,
        entry.filled_at,
        now,
        Some(txn.query_wire.as_slice()),
        rng,
    ) {
        Ok(w) => Some(w),
        Err(_) => None,
    }
}

/// Look a transaction up in a memory cache instance, in the order of
/// `spec_lookup_source`. A served entry whose wire cannot be prepared
/// bypasses the cache.
pub fn lookup_cached(
    backend: &MemoryCacheBackend,
    s: &LookupSettings,
    rebuilding: bool,
    txn: &Transaction,
    now: Instant,
    rng: &mut u64,
) -> (r: CachedLookup)
    requires
        backend.wf(),
    ensures
        match spec_lookup_source(backend@, *s, rebuilding, *txn, now) {
            LookupSource::Bypass => r is Bypass,
            LookupSource::Miss(k) => r matches CachedLookup::Miss { key } && key@ == k,
            LookupSource::Serve(e) => (r is Hit || r is Bypass)
                && (r matches CachedLookup::Hit { skip_response_rules, .. } ==> skip_response_rules == s.skip_response_rules)
                && (spec_response_summary(e.1) is None ==> r is Bypass)
                && (r matches CachedLookup::Hit { wire, .. } ==> spec_served_copy(e.1, txn.query_wire@, wire@, txn.dns_id,
                    spec_cache_age(e.2, now), s.rotate_rrset_on_serve))
                && (r is Hit <==> spec_serves(e.1, txn.query_wire@, txn.dns_id, spec_cache_age(e.2, now),
                    s.rotate_rrset_on_serve, *old(rng))),
        },
{
    if rebuilding || !txn.cache_lookup_eligible {
        return CachedLookup::Bypass;
    }
    let key = match build_query_key(txn) {
        Ok(k) => k,
        Err(_) => return CachedLookup::Bypass,
    };
    let entry = match backend.get(&key, now) {
        Some(e) => Some(e),
        None => match try_ancestor_nxdomain_hit(backend, s.negative_enabled, s.nxdomain_covers_descendants, txn, now) {
            Some(e) => Some(e),
            None => {
                if s.truncated_udp_enabled && txn.protocol == ClientProtocol::Udp {
                    match build_truncated_udp_key(txn) {
                        Ok(tk) => backend.get(&tk, now),
                        Err(_) => None,
                    }
                } else {
                    None
                }
            },
        },
    };
    match entry {
        Some(e) => match serve_entry(&e, s, txn, now, rng) {
            Some(wire) => CachedLookup::Hit { wire, skip_response_rules: s.skip_response_rules },
            None => CachedLookup::Bypass,
        },
        None => CachedLookup::Miss { key },
    }
}

/// Serve a coalesced transaction after its leader's flight: the entry the
/// fill stored under `key` when it is fresh, else the leader's wire as is
/// (zero age, when the fill stored nothing), else bypass.
pub fn resume_after_wait(
    backend: &MemoryCacheBackend,
    gate: &InFlightGate,
    s: &LookupSettings,
    key: &CacheKey,
    txn: &Transaction,
    now: Instant,
    rng: &mut u64,
) -> (r: CachedLookup)
    requires
        backend.wf(),
    ensures
        !(r is Miss),
        r matches CachedLookup::Hit { skip_response_rules, .. } ==> skip_response_rules == s.skip_response_rules,
        !(backend@.contains_key(key@) && fresh_at(backend@[key@], now)) && gate.spec_result() is None ==> r is Bypass,
        backend@.contains_key(key@) && fresh_at(backend@[key@], now) && spec_response_summary(backend@[key@].1) is None
            ==> r is Bypass,
        !(backend@.contains_key(key@) && fresh_at(backend@[key@], now)) && (gate.spec_result() matches Some(w)
            && spec_response_summary(w) is None) ==> r is Bypass,
        spec_response_summary(txn.query_wire@) is None ==> r is Bypass,
        backend@.contains_key(key@) && fresh_at(backend@[key@], now) ==> (r is Hit <==> spec_serves(
            backend@[key@].1, txn.query_wire@, txn.dns_id, spec_cache_age(backend@[key@].2, now),
            s.rotate_rrset_on_serve, *old(rng))),
        !(backend@.contains_key(key@) && fresh_at(backend@[key@], now)) ==> (r is Hit <==> (gate.spec_result() matches Some(w0)
            && spec_serves(w0, txn.query_wire@, txn.dns_id, spec_cache_age(now, now), s.rotate_rrset_on_serve, *old(rng)))),
        backend@.contains_key(key@) && fresh_at(backend@[key@], now) ==> (r matches CachedLookup::Hit { wire, .. }
            ==> spec_served_copy(backend@[key@].1, txn.query_wire@, wire@, txn.dns_id, spec_cache_age(backend@[key@].2, now),
                s.rotate_rrset_on_serve)),
        !(backend@.contains_key(key@) && fresh_at(backend@[key@], now)) ==> (gate.spec_result() matches Some(w0)
            ==> (r matches CachedLookup::Hit { wire, .. } ==> spec_served_copy(w0, txn.query_wire@, wire@, txn.dns_id,
                spec_cache_age(now, now), s.rotate_rrset_on_serve))),
{
    match backend.get(key, now) {
        Some(entry) => match serve_entry(&entry, s, txn, now, rng) {
            Some(wire) => CachedLookup::Hit { wire, skip_response_rules: s.skip_response_rules },
            None => CachedLookup::Bypass,
        },
        None => match gate.result() {
            Some(stored) => match prepare_served_wire(
                stored.as_slice(),
                txn.dns_id,
                s.rotate_rrset_on_serve,
                now,
                now,
                Some(txn.query_wire.as_slice()),
                rng,
            ) {
                Ok(wire) => CachedLookup::Hit { wire, skip_response_rules: s.skip_response_rules },
                Err(_) => CachedLookup::Bypass,
            },
            None => CachedLookup::Bypass,
        },
    }
}

} // verus!
