//! Typed edits of the desired configuration: the overlay-hot primitives an
//! operator submits (backend weights and membership, orchestrator and Rhai
//! limits, data sources, event sink filters and emission, cache sizing and
//! cache policy). Each edit either applies in full or is refused with the
//! configuration left as it was.
//!
//! The sections a primitive replaces wholesale (a data source's definition,
//! the data source limits, an event sink's filters, the cache policy blocks)
//! are carried as the payload types of a [`ConfigPayloads`] family.

use vstd::prelude::*;
use vstd::string::StringExecFns;
use crate::pool_edit::{add_backend, remove_backend, set_backend_weight, spec_backend_index, spec_identity_exists,
    spec_pool_replaced, PoolEditError};
use crate::routing::{spec_find_pool, RouteBackend, RoutePool};
use crate::text::{owned, str_eq};

verus! {

/// The payload types of the configuration sections an edit replaces as a
/// whole.
pub trait ConfigPayloads {
    /// A data source's definition besides its name.
    type DataSource;
    /// The global data source limits.
    type DataSourceLimits;
    /// An event sink's filters.
    type SinkFilters;
    /// A cache's negative caching block.
    type NegativeCache;
    /// A cache's on-hit block.
    type OnHit;
    /// A cache's truncated-UDP block.
    type TruncatedUdp;
}

/// The orchestrator section; an absent section reads as all zero.
#[derive(Debug, Clone, Copy, PartialEq, Eq, Structural)]
pub struct OrchestratorSection {
    pub max_attempts: u32,
    pub max_txn_duration_ms: u32,
}

/// The Rhai limits section; an absent section reads as all zero.
#[derive(Debug, Clone, Copy, PartialEq, Eq, Structural)]
pub struct RhaiSection {
    pub max_operations: u64,
    pub max_call_depth: u32,
    pub hook_timeout_ms: u32,
}

/// A named data source.
pub struct DataSourceEntry<P: ConfigPayloads> {
    pub name: String,
    pub definition: P::DataSource,
}

/// The first index of `s` whose element satisfies `p`.
pub open spec fn spec_first_where<T>(s: Seq<T>, p: spec_fn(T) -> bool) -> Option<int> {
    if exists|i: int| 0 <= i < s.len() && p(s[i]) {
        Some(choose|i: int| 0 <= i < s.len() && p(s[i]) && forall|j: int| 0 <= j < i ==> !p(s[j]))
    } else {
        None
    }
}

/// The first index where `p` holds, when it holds somewhere.
pub proof fn lemma_first_where<T>(s: Seq<T>, p: spec_fn(T) -> bool)
    ensures
        spec_first_where(s, p) matches Some(i) ==> 0 <= i < s.len() && p(s[i]) && forall|j: int| 0 <= j < i ==> !p(s[j]),
        spec_first_where(s, p) is None ==> forall|j: int| 0 <= j < s.len() ==> !p(#[trigger] s[j]),
{
    if exists|i: int| 0 <= i < s.len() && p(s[i]) {
        let w = lemma_first_witness(s, p);
    }
}

proof fn lemma_first_witness<T>(s: Seq<T>, p: spec_fn(T) -> bool) -> (w: int)
    requires
        exists|i: int| 0 <= i < s.len() && p(s[i]),
    ensures
        0 <= w < s.len() && p(s[w]) && forall|j: int| 0 <= j < w ==> !p(s[j]),
    decreases s.len(),
{
    let init = s.drop_last();
    if exists|i: int| 0 <= i < init.len() && p(init[i]) {
        let w = lemma_first_witness(init, p);
        assert forall|j: int| 0 <= j < w implies !p(s[j]) by {
            assert(s[j] == init[j]);
        }
        assert(s[w] == init[w]);
        w
    } else {
        let w = s.len() - 1;
        assert forall|j: int| 0 <= j < w implies !p(s[j]) by {
            assert(s[j] == init[j]);
        }
        let k = choose|i: int| 0 <= i < s.len() && p(s[i]);
        if k < w {
            assert(s[k] == init[k]);
        }
        w
    }
}

/// An exec index as a spec index.
pub open spec fn spec_index_of(r: Option<usize>) -> Option<int> {
    match r {
        Some(i) => Some(i as int),
        None => None,
    }
}

/// The first data source named `name`.
pub open spec fn spec_source_index<P: ConfigPayloads>(sources: Seq<DataSourceEntry<P>>, name: Seq<char>) -> Option<int> {
    spec_first_where(sources, |s: DataSourceEntry<P>| s.name@ == name)
}

fn find_source<P: ConfigPayloads>(sources: &Vec<DataSourceEntry<P>>, name: &str) -> (r: Option<usize>)
    ensures
        spec_index_of(r) == spec_source_index(sources@, name@),
        r matches Some(i) ==> i < sources@.len(),
{
    let mut i: usize = 0;
    while i < sources.len()
        invariant
            i <= sources@.len(),
            forall|j: int| 0 <= j < i ==> (#[trigger] sources@[j]).name@ != name@,
        decreases sources@.len() - i,
    {
        if str_eq(sources[i].name.as_str(), name) {
            proof {
                let p = |s: DataSourceEntry<P>| s.name@ == name@;
                assert(p(sources@[i as int]));
                let c = choose|k: int| 0 <= k < sources@.len() && p(sources@[k]) && forall|j: int| 0 <= j < k ==> !p(sources@[j]);
                assert(0 <= c < sources@.len() && p(sources@[c]) && forall|j: int| 0 <= j < c ==> !p(sources@[j]));
                if c > i {
                    assert(!p(sources@[i as int]));
                }
            }
            return Some(i);
        }
        i = i + 1;
    }
    None
}

/// `sources` without the data sources named `name`.
pub open spec fn spec_without_source<P: ConfigPayloads>(sources: Seq<DataSourceEntry<P>>, name: Seq<char>) -> Seq<DataSourceEntry<P>>
    decreases sources.len(),
{
    if sources.len() == 0 {
        Seq::empty()
    } else {
        let rest = spec_without_source(sources.drop_last(), name);
        if sources.last().name@ == name {
            rest
        } else {
            rest.push(sources.last())
        }
    }
}

proof fn lemma_without_source_len<P: ConfigPayloads>(sources: Seq<DataSourceEntry<P>>, name: Seq<char>)
    ensures
        spec_without_source(sources, name).len() <= sources.len(),
        spec_without_source(sources, name).len() == sources.len()
            <==> forall|j: int| 0 <= j < sources.len() ==> (#[trigger] sources[j]).name@ != name,
    decreases sources.len(),
{
    if sources.len() > 0 {
        let init = sources.drop_last();
        lemma_without_source_len(init, name);
        if spec_without_source(sources, name).len() == sources.len() {
            assert forall|j: int| 0 <= j < sources.len() implies (#[trigger] sources[j]).name@ != name by {
                if j < sources.len() - 1 {
                    assert(sources[j] == init[j]);
                }
            }
        } else {
            if forall|j: int| 0 <= j < sources.len() ==> (#[trigger] sources[j]).name@ != name {
                assert forall|j: int| 0 <= j < init.len() implies (#[trigger] init[j]).name@ != name by {
                    assert(init[j] == sources[j]);
                }
                assert(sources[sources.len() - 1].name@ != name);
            }
        }
    }
}

proof fn lemma_without_source_none<P: ConfigPayloads>(sources: Seq<DataSourceEntry<P>>, name: Seq<char>)
    requires
        forall|j: int| 0 <= j < sources.len() ==> (#[trigger] sources[j]).name@ != name,
    ensures
        spec_without_source(sources, name) == sources,
    decreases sources.len(),
{
    if sources.len() > 0 {
        let init = sources.drop_last();
        assert forall|j: int| 0 <= j < init.len() implies (#[trigger] init[j]).name@ != name by {
            assert(init[j] == sources[j]);
        }
        lemma_without_source_none(init, name);
        assert(sources[sources.len() - 1].name@ != name);
        assert(init.push(sources.last()) =~= sources);
    }
}

/// Insert `source`, or replace the first data source with its name.
fn upsert_source<P: ConfigPayloads>(sources: &mut Vec<DataSourceEntry<P>>, source: DataSourceEntry<P>)
    ensures
        final(sources)@ == match spec_source_index(old(sources)@, source.name@) {
            Some(i) => old(sources)@.update(i, source),
            None => old(sources)@.push(source),
        },
{
    match find_source(sources, source.name.as_str()) {
        Some(i) => {
            let ghost before = sources@;
            sources.remove(i);
            sources.insert(i, source);
            proof {
                assert(sources@ =~= before.update(i as int, source));
            }
        },
        None => {
            sources.push(source);
        },
    }
}

/// Drop every data source named `name`.
fn remove_sources<P: ConfigPayloads>(sources: &mut Vec<DataSourceEntry<P>>, name: &str)
    ensures
        final(sources)@ == spec_without_source(old(sources)@, name@),
{
    let ghost before = sources@;
    let mut kept: Vec<DataSourceEntry<P>> = Vec::new();
    let mut rest: Vec<DataSourceEntry<P>> = Vec::new();
    std::mem::swap(&mut rest, sources);
    let ghost mut i: int = 0;
    while rest.len() > 0
        invariant
            0 <= i <= before.len(),
            rest@ == before.subrange(i, before.len() as int),
            kept@ == spec_without_source(before.subrange(0, i), name@),
        decreases rest@.len(),
    {
        let e = rest.remove(0);
        proof {
            assert(before.subrange(0, i + 1).drop_last() =~= before.subrange(0, i));
            assert(before.subrange(0, i + 1).last() == e);
            i = i + 1;
            assert(rest@ =~= before.subrange(i, before.len() as int));
        }
        if !str_eq(e.name.as_str(), name) {
            kept.push(e);
        }
    }
    proof {
        assert(before.subrange(0, i) =~= before);
    }
    *sources = kept;
}

/// An event sink of the events section.
pub struct EventSinkEntry<P: ConfigPayloads> {
    pub name: Option<String>,
    pub export_id: String,
    pub filters: Option<P::SinkFilters>,
    pub emit: Vec<String>,
    pub extra_fields: Vec<String>,
    pub extra_tags: Vec<String>,
}

/// The name a sink answers to: its non-empty name, else its non-empty
/// export id, else the empty name.
pub open spec fn spec_sink_name<P: ConfigPayloads>(s: EventSinkEntry<P>) -> Seq<char> {
    match s.name {
        Some(n) if n@.len() > 0 => n@,
        _ => if s.export_id@.len() > 0 { s.export_id@ } else { Seq::empty() },
    }
}

fn sink_name<P: ConfigPayloads>(s: &EventSinkEntry<P>) -> (r: &str)
    ensures
        r@ == spec_sink_name(*s),
{
    match &s.name {
        Some(n) => {
            if n.as_str().unicode_len() > 0 {
                return n.as_str();
            }
        },
        None => {},
    }
    if s.export_id.as_str().unicode_len() > 0 {
        s.export_id.as_str()
    } else {
        proof {
            reveal_strlit("");
        }
        ""
    }
}

/// The first sink answering to `name`.
pub open spec fn spec_sink_index<P: ConfigPayloads>(sinks: Seq<EventSinkEntry<P>>, name: Seq<char>) -> Option<int> {
    spec_first_where(sinks, |s: EventSinkEntry<P>| spec_sink_name(s) == name)
}

fn find_sink<P: ConfigPayloads>(sinks: &Vec<EventSinkEntry<P>>, name: &str) -> (r: Option<usize>)
    ensures
        spec_index_of(r) == spec_sink_index(sinks@, name@),
        r matches Some(i) ==> i < sinks@.len(),
{
    let mut i: usize = 0;
    while i < sinks.len()
        invariant
            i <= sinks@.len(),
            forall|j: int| 0 <= j < i ==> spec_sink_name(#[trigger] sinks@[j]) != name@,
        decreases sinks@.len() - i,
    {
        if str_eq(sink_name(&sinks[i]), name) {
            proof {
                let p = |s: EventSinkEntry<P>| spec_sink_name(s) == name@;
                assert(p(sinks@[i as int]));
                let c = choose|k: int| 0 <= k < sinks@.len() && p(sinks@[k]) && forall|j: int| 0 <= j < k ==> !p(sinks@[j]);
                assert(0 <= c < sinks@.len() && p(sinks@[c]) && forall|j: int| 0 <= j < c ==> !p(sinks@[j]));
                if c > i {
                    assert(!p(sinks@[i as int]));
                }
            }
            return Some(i);
        }
        i = i + 1;
    }
    None
}

/// The hot fields of a cache's LMDB section; an absent section reads as
/// all unset with a zero map size.
#[derive(Debug, Clone)]
pub struct LmdbHotSection {
    pub when_full: Option<String>,
    pub sample_size: Option<u32>,
    pub sync: Option<String>,
    pub sync_interval: Option<String>,
    pub map_size_bytes: u64,
}

/// A configured cache instance.
pub struct CacheEntry<P: ConfigPayloads> {
    pub name: String,
    /// The backend type text (`memory`, `lmdb`).
    pub kind: String,
    pub max_entries: Option<u64>,
    pub lmdb: Option<LmdbHotSection>,
    pub negative_cache: Option<P::NegativeCache>,
    pub on_hit: Option<P::OnHit>,
    pub truncated_udp: Option<P::TruncatedUdp>,
    pub rotate_rrset_on_serve: Option<bool>,
}

/// The first cache named `name`.
pub open spec fn spec_cache_index<P: ConfigPayloads>(caches: Seq<CacheEntry<P>>, name: Seq<char>) -> Option<int> {
    spec_first_where(caches, |c: CacheEntry<P>| c.name@ == name)
}

fn find_cache<P: ConfigPayloads>(caches: &Vec<CacheEntry<P>>, name: &str) -> (r: Option<usize>)
    ensures
        spec_index_of(r) == spec_cache_index(caches@, name@),
        r matches Some(i) ==> i < caches@.len(),
{
    let mut i: usize = 0;
    while i < caches.len()
        invariant
            i <= caches@.len(),
            forall|j: int| 0 <= j < i ==> (#[trigger] caches@[j]).name@ != name@,
        decreases caches@.len() - i,
    {
        if str_eq(caches[i].name.as_str(), name) {
            proof {
                let p = |c: CacheEntry<P>| c.name@ == name@;
                assert(p(caches@[i as int]));
                let c = choose|k: int| 0 <= k < caches@.len() && p(caches@[k]) && forall|j: int| 0 <= j < k ==> !p(caches@[j]);
                assert(0 <= c < caches@.len() && p(caches@[c]) && forall|j: int| 0 <= j < c ==> !p(caches@[j]));
                if c > i {
                    assert(!p(caches@[i as int]));
                }
            }
            return Some(i);
        }
        i = i + 1;
    }
    None
}

/// The desired configuration, as far as the typed edits read and write it.
pub struct DesiredConfig<P: ConfigPayloads> {
    pub pools: Vec<RoutePool>,
    pub orchestrator: Option<OrchestratorSection>,
    pub data_sources: Vec<DataSourceEntry<P>>,
    pub data_source_limits: Option<P::DataSourceLimits>,
    /// The sinks of the events section, when the section is present.
    pub events: Option<Vec<EventSinkEntry<P>>>,
    pub rhai: Option<RhaiSection>,
    pub caches: Vec<CacheEntry<P>>,
}

/// Every section of a desired configuration but its pools.
#[verifier::ext_equal]
pub struct SectionsView<P: ConfigPayloads> {
    pub orchestrator: Option<OrchestratorSection>,
    pub data_sources: Seq<DataSourceEntry<P>>,
    pub data_source_limits: Option<P::DataSourceLimits>,
    pub events: Option<Seq<EventSinkEntry<P>>>,
    pub rhai: Option<RhaiSection>,
    pub caches: Seq<CacheEntry<P>>,
}

impl<P: ConfigPayloads> DesiredConfig<P> {
    pub open spec fn sections(&self) -> SectionsView<P> {
        SectionsView {
            orchestrator: self.orchestrator,
            data_sources: self.data_sources@,
            data_source_limits: self.data_source_limits,
            events: match self.events {
                Some(v) => Some(v@),
                None => None,
            },
            rhai: self.rhai,
            caches: self.caches@,
        }
    }
}

/// A typed overlay-hot edit of the desired configuration.
pub enum ConfigPrimitive<P: ConfigPayloads> {
    SetBackendWeight {
        pool: String,
        /// The backend's configured name, or else its address text.
        backend: String,
        weight: u32,
    },
    RemoveBackend {
        pool: String,
        backend: String,
    },
    AddBackend {
        pool: String,
        backend: RouteBackend,
    },
    SetOrchestratorLimits {
        max_attempts: Option<u32>,
        max_txn_duration_ms: Option<u32>,
    },
    UpsertDataSource {
        source: DataSourceEntry<P>,
    },
    RemoveDataSource {
        name: String,
    },
    SetDataSourceLimits {
        limits: P::DataSourceLimits,
    },
    SetEventSinkFilters {
        name: String,
        filters: P::SinkFilters,
    },
    SetEventSinkEmit {
        name: String,
        emit: Vec<String>,
        extra_fields: Vec<String>,
        extra_tags: Vec<String>,
        extra_fields_set: bool,
        extra_tags_set: bool,
    },
    SetRhaiLimits {
        max_operations: Option<u64>,
        max_call_depth: Option<u32>,
        hook_timeout_ms: Option<u32>,
    },
    SetCacheMaxEntries {
        name: String,
        max_entries: u64,
    },
    SetCacheLmdbHot {
        name: String,
        when_full: Option<String>,
        sample_size: Option<u32>,
        sync: Option<String>,
        sync_interval: Option<String>,
        map_size_bytes: Option<u64>,
    },
    SetCachePolicyHot {
        name: String,
        negative_cache: Option<P::NegativeCache>,
        on_hit: Option<P::OnHit>,
        truncated_udp: Option<P::TruncatedUdp>,
        rotate_rrset_on_serve: Option<bool>,
    },
}

/// Why a typed edit was refused.
#[derive(Debug, Clone, Copy, PartialEq, Eq, Structural)]
pub enum PrimitiveError {
    /// A pool edit was refused.
    Pool(PoolEditError),
    /// Orchestrator limits with neither limit given.
    OrchestratorLimitsEmpty,
    /// A data source edit with an empty name.
    DataSourceNameRequired,
    /// No data source has the given name.
    UnknownDataSource,
    /// An event sink edit with an empty name.
    EventSinkNameRequired,
    /// The configuration has no events section.
    NoEventsSection,
    /// No event sink answers to the given name.
    UnknownEventSink,
    /// Rhai limits with no limit given.
    RhaiLimitsEmpty,
    /// A cache edit with an empty name.
    CacheNameRequired,
    /// No cache has the given name.
    UnknownCache,
    /// An LMDB hot edit with no field given.
    LmdbHotEmpty,
    /// An LMDB hot edit of a cache whose type is not `lmdb`.
    NotLmdb,
    /// A cache policy edit with no field given.
    CachePolicyEmpty,
}

impl PrimitiveError {
    /// The operator-facing message. `subject` is the pool, data source,
    /// event sink or cache the edit names; `detail` is the backend the edit
    /// names, or for [`PrimitiveError::NotLmdb`] the cache's type.
    pub fn message(&self, subject: &str, detail: &str) -> (r: String)
        ensures
            *self matches PrimitiveError::Pool(e) ==> r@ == (match e {
                PoolEditError::UnknownPool => "unknown pool '"@ + subject@ + "'"@,
                PoolEditError::UnknownBackend => "pool '"@ + subject@ + "' has no backend named or addressed '"@
                    + detail@ + "'"@,
                PoolEditError::DuplicateBackend => "pool '"@ + subject@
                    + "' already has a backend matching the add identity"@,
                PoolEditError::EmptyAddress => "add backend requires a non-empty address"@,
            }),
            *self == PrimitiveError::OrchestratorLimitsEmpty ==> r@
                == "SetOrchestratorLimits requires max_attempts and/or max_txn_duration_ms"@,
            *self == PrimitiveError::DataSourceNameRequired ==> r@ == "data source name is required"@,
            *self == PrimitiveError::UnknownDataSource ==> r@ == "unknown data source '"@ + subject@ + "'"@,
            *self == PrimitiveError::EventSinkNameRequired ==> r@ == "event sink name is required"@,
            *self == PrimitiveError::NoEventsSection ==> r@ == "no events section in effective config"@,
            *self == PrimitiveError::UnknownEventSink ==> r@ == "unknown event sink '"@ + subject@ + "'"@,
            *self == PrimitiveError::RhaiLimitsEmpty ==> r@
                == "SetRhaiLimits requires at least one of max_operations, max_call_depth, hook_timeout_ms"@,
            *self == PrimitiveError::CacheNameRequired ==> r@ == "cache name is required"@,
            *self == PrimitiveError::UnknownCache ==> r@ == "unknown cache '"@ + subject@ + "'"@,
            *self == PrimitiveError::LmdbHotEmpty ==> r@ == "SetCacheLmdbHot requires at least one LMDB hot field"@,
            *self == PrimitiveError::NotLmdb ==> r@ == "cache '"@ + subject@ + "' type is '"@ + detail@
                + "' (SetCacheLmdbHot requires lmdb)"@,
            *self == PrimitiveError::CachePolicyEmpty ==> r@ == "SetCachePolicyHot requires at least one policy field"@,
    {
        match self {
            PrimitiveError::Pool(e) => e.message(subject, detail),
            PrimitiveError::OrchestratorLimitsEmpty => owned(
                "SetOrchestratorLimits requires max_attempts and/or max_txn_duration_ms",
            ),
            PrimitiveError::DataSourceNameRequired => owned("data source name is required"),
            PrimitiveError::UnknownDataSource => {
                let mut s = owned("unknown data source '");
                s.append(subject);
                s.append("'");
                s
            },
            PrimitiveError::EventSinkNameRequired => owned("event sink name is required"),
            PrimitiveError::NoEventsSection => owned("no events section in effective config"),
            PrimitiveError::UnknownEventSink => {
                let mut s = owned("unknown event sink '");
                s.append(subject);
                s.append("'");
                s
            },
            PrimitiveError::RhaiLimitsEmpty => owned(
                "SetRhaiLimits requires at least one of max_operations, max_call_depth, hook_timeout_ms",
            ),
            PrimitiveError::CacheNameRequired => owned("cache name is required"),
            PrimitiveError::UnknownCache => {
                let mut s = owned("unknown cache '");
                s.append(subject);
                s.append("'");
                s
            },
            PrimitiveError::LmdbHotEmpty => owned("SetCacheLmdbHot requires at least one LMDB hot field"),
            PrimitiveError::NotLmdb => {
                let mut s = owned("cache '");
                s.append(subject);
                s.append("' type is '");
                s.append(detail);
                s.append("' (SetCacheLmdbHot requires lmdb)");
                s
            },
            PrimitiveError::CachePolicyEmpty => owned("SetCachePolicyHot requires at least one policy field"),
        }
    }
}

/// `o`'s value, or `d` when absent.
pub open spec fn spec_or<T>(o: Option<T>, d: T) -> T {
    match o {
        Some(x) => x,
        None => d,
    }
}

/// `o` when given, else `prev`.
pub open spec fn spec_given<T>(o: Option<T>, prev: Option<T>) -> Option<T> {
    match o {
        Some(_) => o,
        None => prev,
    }
}

/// The sink an event sink edit naming `name` changes.
pub open spec fn spec_sink_lookup<P: ConfigPayloads>(events: Option<Seq<EventSinkEntry<P>>>, name: Seq<char>) -> Result<int, PrimitiveError> {
    if name.len() == 0 {
        Err(PrimitiveError::EventSinkNameRequired)
    } else {
        match events {
            None => Err(PrimitiveError::NoEventsSection),
            Some(sinks) => match spec_sink_index(sinks, name) {
                None => Err(PrimitiveError::UnknownEventSink),
                Some(i) => Ok(i),
            },
        }
    }
}

/// The cache a cache edit naming `name` changes.
pub open spec fn spec_cache_lookup<P: ConfigPayloads>(caches: Seq<CacheEntry<P>>, name: Seq<char>) -> Result<int, PrimitiveError> {
    if name.len() == 0 {
        Err(PrimitiveError::CacheNameRequired)
    } else {
        match spec_cache_index(caches, name) {
            None => Err(PrimitiveError::UnknownCache),
            Some(i) => Ok(i),
        }
    }
}

pub open spec fn spec_with_sink<P: ConfigPayloads>(v: SectionsView<P>, i: int, s: EventSinkEntry<P>) -> SectionsView<P> {
    SectionsView { events: Some(v.events.unwrap().update(i, s)), ..v }
}

pub open spec fn spec_with_cache<P: ConfigPayloads>(v: SectionsView<P>, i: int, c: CacheEntry<P>) -> SectionsView<P> {
    SectionsView { caches: v.caches.update(i, c), ..v }
}

/// An absent LMDB section's hot fields.
pub open spec fn spec_default_lmdb() -> LmdbHotSection {
    LmdbHotSection { when_full: None, sample_size: None, sync: None, sync_interval: None, map_size_bytes: 0 }
}

pub open spec fn spec_set_orchestrator<P: ConfigPayloads>(v: SectionsView<P>, max_attempts: Option<u32>, max_txn_duration_ms: Option<u32>) -> Result<SectionsView<P>, PrimitiveError> {
    if max_attempts is None && max_txn_duration_ms is None {
        Err(PrimitiveError::OrchestratorLimitsEmpty)
    } else {
        let o = spec_or(v.orchestrator, OrchestratorSection { max_attempts: 0, max_txn_duration_ms: 0 });
        Ok(SectionsView {
            orchestrator: Some(OrchestratorSection {
                max_attempts: spec_or(max_attempts, o.max_attempts),
                max_txn_duration_ms: spec_or(max_txn_duration_ms, o.max_txn_duration_ms),
            }),
            ..v
        })
    }
}

pub open spec fn spec_upsert_source<P: ConfigPayloads>(v: SectionsView<P>, source: DataSourceEntry<P>) -> Result<SectionsView<P>, PrimitiveError> {
    if source.name@.len() == 0 {
        Err(PrimitiveError::DataSourceNameRequired)
    } else {
        Ok(SectionsView {
            data_sources: match spec_source_index(v.data_sources, source.name@) {
                Some(i) => v.data_sources.update(i, source),
                None => v.data_sources.push(source),
            },
            ..v
        })
    }
}

pub open spec fn spec_remove_source<P: ConfigPayloads>(v: SectionsView<P>, name: Seq<char>) -> Result<SectionsView<P>, PrimitiveError> {
    if name.len() == 0 {
        Err(PrimitiveError::DataSourceNameRequired)
    } else {
        let kept = spec_without_source(v.data_sources, name);
        if kept.len() == v.data_sources.len() {
            Err(PrimitiveError::UnknownDataSource)
        } else {
            Ok(SectionsView { data_sources: kept, ..v })
        }
    }
}

pub open spec fn spec_set_sink_filters<P: ConfigPayloads>(v: SectionsView<P>, name: Seq<char>, filters: P::SinkFilters) -> Result<SectionsView<P>, PrimitiveError> {
    match spec_sink_lookup(v.events, name) {
        Err(e) => Err(e),
        Ok(i) => Ok(spec_with_sink(v, i, EventSinkEntry { filters: Some(filters), ..v.events.unwrap()[i] })),
    }
}

pub open spec fn spec_set_sink_emit<P: ConfigPayloads>(
    v: SectionsView<P>,
    name: Seq<char>,
    emit: Vec<String>,
    extra_fields: Vec<String>,
    extra_tags: Vec<String>,
    extra_fields_set: bool,
    extra_tags_set: bool,
) -> Result<SectionsView<P>, PrimitiveError> {
    match spec_sink_lookup(v.events, name) {
        Err(e) => Err(e),
        Ok(i) => {
            let s = v.events.unwrap()[i];
            Ok(spec_with_sink(v, i, EventSinkEntry {
                emit,
                extra_fields: if extra_fields_set { extra_fields } else { s.extra_fields },
                extra_tags: if extra_tags_set { extra_tags } else { s.extra_tags },
                ..s
            }))
        },
    }
}

pub open spec fn spec_set_rhai<P: ConfigPayloads>(
    v: SectionsView<P>,
    max_operations: Option<u64>,
    max_call_depth: Option<u32>,
    hook_timeout_ms: Option<u32>,
) -> Result<SectionsView<P>, PrimitiveError> {
    if max_operations is None && max_call_depth is None && hook_timeout_ms is None {
        Err(PrimitiveError::RhaiLimitsEmpty)
    } else {
        let r = spec_or(v.rhai, RhaiSection { max_operations: 0, max_call_depth: 0, hook_timeout_ms: 0 });
        Ok(SectionsView {
            rhai: Some(RhaiSection {
                max_operations: spec_or(max_operations, r.max_operations),
                max_call_depth: spec_or(max_call_depth, r.max_call_depth),
                hook_timeout_ms: spec_or(hook_timeout_ms, r.hook_timeout_ms),
            }),
            ..v
        })
    }
}

pub open spec fn spec_set_cache_max_entries<P: ConfigPayloads>(v: SectionsView<P>, name: Seq<char>, max_entries: u64) -> Result<SectionsView<P>, PrimitiveError> {
    match spec_cache_lookup(v.caches, name) {
        Err(e) => Err(e),
        Ok(i) => Ok(spec_with_cache(v, i, CacheEntry { max_entries: Some(max_entries), ..v.caches[i] })),
    }
}

pub open spec fn spec_set_cache_lmdb_hot<P: ConfigPayloads>(
    v: SectionsView<P>,
    name: Seq<char>,
    when_full: Option<String>,
    sample_size: Option<u32>,
    sync: Option<String>,
    sync_interval: Option<String>,
    map_size_bytes: Option<u64>,
) -> Result<SectionsView<P>, PrimitiveError> {
    if when_full is None && sample_size is None && sync is None && sync_interval is None && map_size_bytes is None {
        Err(PrimitiveError::LmdbHotEmpty)
    } else {
        match spec_cache_lookup(v.caches, name) {
            Err(e) => Err(e),
            Ok(i) => {
                let c = v.caches[i];
                if c.kind@ != "lmdb"@ {
                    Err(PrimitiveError::NotLmdb)
                } else {
                    let l = spec_or(c.lmdb, spec_default_lmdb());
                    Ok(spec_with_cache(v, i, CacheEntry {
                        lmdb: Some(LmdbHotSection {
                            when_full: spec_given(when_full, l.when_full),
                            sample_size: spec_given(sample_size, l.sample_size),
                            sync: spec_given(sync, l.sync),
                            sync_interval: spec_given(sync_interval, l.sync_interval),
                            map_size_bytes: spec_or(map_size_bytes, l.map_size_bytes),
                        }),
                        ..c
                    }))
                }
            },
        }
    }
}

pub open spec fn spec_set_cache_policy<P: ConfigPayloads>(
    v: SectionsView<P>,
    name: Seq<char>,
    negative_cache: Option<P::NegativeCache>,
    on_hit: Option<P::OnHit>,
    truncated_udp: Option<P::TruncatedUdp>,
    rotate_rrset_on_serve: Option<bool>,
) -> Result<SectionsView<P>, PrimitiveError> {
    if negative_cache is None && on_hit is None && truncated_udp is None && rotate_rrset_on_serve is None {
        Err(PrimitiveError::CachePolicyEmpty)
    } else {
        match spec_cache_lookup(v.caches, name) {
            Err(e) => Err(e),
            Ok(i) => {
                let c = v.caches[i];
                Ok(spec_with_cache(v, i, CacheEntry {
                    negative_cache: spec_given(negative_cache, c.negative_cache),
                    on_hit: spec_given(on_hit, c.on_hit),
                    truncated_udp: spec_given(truncated_udp, c.truncated_udp),
                    rotate_rrset_on_serve: spec_given(rotate_rrset_on_serve, c.rotate_rrset_on_serve),
                    ..c
                }))
            },
        }
    }
}

/// What an edit other than a pool edit makes of the sections: the new
/// sections, or the refusal.
pub open spec fn spec_edit_sections<P: ConfigPayloads>(v: SectionsView<P>, p: ConfigPrimitive<P>) -> Result<SectionsView<P>, PrimitiveError> {
    match p {
        ConfigPrimitive::SetOrchestratorLimits { max_attempts, max_txn_duration_ms } =>
            spec_set_orchestrator(v, max_attempts, max_txn_duration_ms),
        ConfigPrimitive::UpsertDataSource { source } => spec_upsert_source(v, source),
        ConfigPrimitive::RemoveDataSource { name } => spec_remove_source(v, name@),
        ConfigPrimitive::SetDataSourceLimits { limits } => Ok(SectionsView { data_source_limits: Some(limits), ..v }),
        ConfigPrimitive::SetEventSinkFilters { name, filters } => spec_set_sink_filters(v, name@, filters),
        ConfigPrimitive::SetEventSinkEmit { name, emit, extra_fields, extra_tags, extra_fields_set, extra_tags_set } =>
            spec_set_sink_emit(v, name@, emit, extra_fields, extra_tags, extra_fields_set, extra_tags_set),
        ConfigPrimitive::SetRhaiLimits { max_operations, max_call_depth, hook_timeout_ms } =>
            spec_set_rhai(v, max_operations, max_call_depth, hook_timeout_ms),
        ConfigPrimitive::SetCacheMaxEntries { name, max_entries } => spec_set_cache_max_entries(v, name@, max_entries),
        ConfigPrimitive::SetCacheLmdbHot { name, when_full, sample_size, sync, sync_interval, map_size_bytes } =>
            spec_set_cache_lmdb_hot(v, name@, when_full, sample_size, sync, sync_interval, map_size_bytes),
        ConfigPrimitive::SetCachePolicyHot { name, negative_cache, on_hit, truncated_udp, rotate_rrset_on_serve } =>
            spec_set_cache_policy(v, name@, negative_cache, on_hit, truncated_udp, rotate_rrset_on_serve),
        _ => Ok(v),
    }
}

fn edit_orchestrator<P: ConfigPayloads>(d: &mut DesiredConfig<P>, max_attempts: Option<u32>, max_txn_duration_ms: Option<u32>) -> (r: Result<(), PrimitiveError>)
    ensures
        final(d).pools@ == old(d).pools@,
        match spec_set_orchestrator(old(d).sections(), max_attempts, max_txn_duration_ms) {
            Ok(v) => r is Ok && final(d).sections() == v,
            Err(e) => r == Err::<(), PrimitiveError>(e) && final(d).sections() == old(d).sections(),
        },
{
    if max_attempts.is_none() && max_txn_duration_ms.is_none() {
        return Err(PrimitiveError::OrchestratorLimitsEmpty);
    }
    let mut o = match d.orchestrator {
        Some(o) => o,
        None => OrchestratorSection { max_attempts: 0, max_txn_duration_ms: 0 },
    };
    if let Some(v) = max_attempts {
        o.max_attempts = v;
    }
    if let Some(v) = max_txn_duration_ms {
        o.max_txn_duration_ms = v;
    }
    d.orchestrator = Some(o);
    Ok(())
}

fn edit_rhai<P: ConfigPayloads>(d: &mut DesiredConfig<P>, max_operations: Option<u64>, max_call_depth: Option<u32>, hook_timeout_ms: Option<u32>) -> (r: Result<(), PrimitiveError>)
    ensures
        final(d).pools@ == old(d).pools@,
        match spec_set_rhai(old(d).sections(), max_operations, max_call_depth, hook_timeout_ms) {
            Ok(v) => r is Ok && final(d).sections() == v,
            Err(e) => r == Err::<(), PrimitiveError>(e) && final(d).sections() == old(d).sections(),
        },
{
    if max_operations.is_none() && max_call_depth.is_none() && hook_timeout_ms.is_none() {
        return Err(PrimitiveError::RhaiLimitsEmpty);
    }
    let mut l = match d.rhai {
        Some(l) => l,
        None => RhaiSection { max_operations: 0, max_call_depth: 0, hook_timeout_ms: 0 },
    };
    if let Some(v) = max_operations {
        l.max_operations = v;
    }
    if let Some(v) = max_call_depth {
        l.max_call_depth = v;
    }
    if let Some(v) = hook_timeout_ms {
        l.hook_timeout_ms = v;
    }
    d.rhai = Some(l);
    Ok(())
}

fn edit_upsert_source<P: ConfigPayloads>(d: &mut DesiredConfig<P>, source: DataSourceEntry<P>) -> (r: Result<(), PrimitiveError>)
    ensures
        final(d).pools@ == old(d).pools@,
        match spec_upsert_source(old(d).sections(), source) {
            Ok(v) => r is Ok && final(d).sections() == v,
            Err(e) => r == Err::<(), PrimitiveError>(e) && final(d).sections() == old(d).sections(),
        },
{
    if source.name.as_str().unicode_len() == 0 {
        return Err(PrimitiveError::DataSourceNameRequired);
    }
    upsert_source(&mut d.data_sources, source);
    Ok(())
}

fn edit_remove_source<P: ConfigPayloads>(d: &mut DesiredConfig<P>, name: String) -> (r: Result<(), PrimitiveError>)
    ensures
        final(d).pools@ == old(d).pools@,
        match spec_remove_source(old(d).sections(), name@) {
            Ok(v) => r is Ok && final(d).sections() == v,
            Err(e) => r == Err::<(), PrimitiveError>(e) && final(d).sections() == old(d).sections(),
        },
{
    if name.as_str().unicode_len() == 0 {
        return Err(PrimitiveError::DataSourceNameRequired);
    }
    let before = d.data_sources.len();
    proof {
        lemma_without_source_len(d.data_sources@, name@);
    }
    let ghost old_sources = d.data_sources@;
    remove_sources(&mut d.data_sources, name.as_str());
    if d.data_sources.len() == before {
        proof {
            lemma_without_source_none(old_sources, name@);
        }
        return Err(PrimitiveError::UnknownDataSource);
    }
    Ok(())
}

fn sink_position<P: ConfigPayloads>(events: &Option<Vec<EventSinkEntry<P>>>, name: &str) -> (r: Result<usize, PrimitiveError>)
    ensures
        match spec_sink_lookup(
            match *events {
                Some(v) => Some(v@),
                None => None,
            },
            name@,
        ) {
            Ok(i) => r matches Ok(j) && j as int == i && events is Some && j < events.unwrap()@.len(),
            Err(e) => r == Err::<usize, PrimitiveError>(e),
        },
{
    if name.unicode_len() == 0 {
        return Err(PrimitiveError::EventSinkNameRequired);
    }
    match events {
        None => Err(PrimitiveError::NoEventsSection),
        Some(sinks) => match find_sink(sinks, name) {
            None => Err(PrimitiveError::UnknownEventSink),
            Some(i) => Ok(i),
        },
    }
}

fn cache_position<P: ConfigPayloads>(caches: &Vec<CacheEntry<P>>, name: &str) -> (r: Result<usize, PrimitiveError>)
    ensures
        match spec_cache_lookup(caches@, name@) {
            Ok(i) => r matches Ok(j) && j as int == i && j < caches@.len(),
            Err(e) => r == Err::<usize, PrimitiveError>(e),
        },
{
    if name.unicode_len() == 0 {
        return Err(PrimitiveError::CacheNameRequired);
    }
    match find_cache(caches, name) {
        None => Err(PrimitiveError::UnknownCache),
        Some(i) => Ok(i),
    }
}

fn edit_sink_filters<P: ConfigPayloads>(d: &mut DesiredConfig<P>, name: String, filters: P::SinkFilters) -> (r: Result<(), PrimitiveError>)
    ensures
        final(d).pools@ == old(d).pools@,
        match spec_set_sink_filters(old(d).sections(), name@, filters) {
            Ok(v) => r is Ok && final(d).sections() == v,
            Err(e) => r == Err::<(), PrimitiveError>(e) && final(d).sections() == old(d).sections(),
        },
{
    let i = match sink_position(&d.events, name.as_str()) {
        Ok(i) => i,
        Err(e) => return Err(e),
    };
    let ghost before = d.events.unwrap()@;
    let mut sinks = d.events.take().unwrap();
    let mut s = sinks.remove(i);
    s.filters = Some(filters);
    sinks.insert(i, s);
    proof {
        assert(sinks@ =~= before.update(i as int, EventSinkEntry { filters: Some(filters), ..before[i as int] }));
    }
    d.events = Some(sinks);
    Ok(())
}

fn edit_sink_emit<P: ConfigPayloads>(
    d: &mut DesiredConfig<P>,
    name: String,
    emit: Vec<String>,
    extra_fields: Vec<String>,
    extra_tags: Vec<String>,
    extra_fields_set: bool,
    extra_tags_set: bool,
) -> (r: Result<(), PrimitiveError>)
    ensures
        final(d).pools@ == old(d).pools@,
        match spec_set_sink_emit(old(d).sections(), name@, emit, extra_fields, extra_tags, extra_fields_set, extra_tags_set) {
            Ok(v) => r is Ok && final(d).sections() == v,
            Err(e) => r == Err::<(), PrimitiveError>(e) && final(d).sections() == old(d).sections(),
        },
{
    let i = match sink_position(&d.events, name.as_str()) {
        Ok(i) => i,
        Err(e) => return Err(e),
    };
    let ghost v0 = d.sections();
    let ghost before = d.events.unwrap()@;
    let ghost o = before[i as int];
    let ghost want = EventSinkEntry {
        emit,
        extra_fields: if extra_fields_set { extra_fields } else { o.extra_fields },
        extra_tags: if extra_tags_set { extra_tags } else { o.extra_tags },
        ..o
    };
    let mut sinks = d.events.take().unwrap();
    let mut s = sinks.remove(i);
    s.emit = emit;
    if extra_fields_set {
        s.extra_fields = extra_fields;
    }
    if extra_tags_set {
        s.extra_tags = extra_tags;
    }
    assert(s == want);
    sinks.insert(i, s);
    proof {
        assert(sinks@ =~= before.update(i as int, want));
    }
    d.events = Some(sinks);
    proof {
        assert(d.sections() =~= spec_with_sink(v0, i as int, want));
    }
    Ok(())
}

fn edit_cache_max_entries<P: ConfigPayloads>(d: &mut DesiredConfig<P>, name: String, max_entries: u64) -> (r: Result<(), PrimitiveError>)
    ensures
        final(d).pools@ == old(d).pools@,
        match spec_set_cache_max_entries(old(d).sections(), name@, max_entries) {
            Ok(v) => r is Ok && final(d).sections() == v,
            Err(e) => r == Err::<(), PrimitiveError>(e) && final(d).sections() == old(d).sections(),
        },
{
    let i = match cache_position(&d.caches, name.as_str()) {
        Ok(i) => i,
        Err(e) => return Err(e),
    };
    let ghost v0 = d.sections();
    let mut caches: Vec<CacheEntry<P>> = Vec::new();
    std::mem::swap(&mut caches, &mut d.caches);
    let mut c = caches.remove(i);
    c.max_entries = Some(max_entries);
    caches.insert(i, c);
    proof {
        assert(caches@ =~= v0.caches.update(i as int, CacheEntry { max_entries: Some(max_entries), ..v0.caches[i as int] }));
    }
    d.caches = caches;
    proof {
        assert(d.sections() =~= spec_with_cache(v0, i as int, CacheEntry { max_entries: Some(max_entries), ..v0.caches[i as int] }));
        assert(spec_cache_lookup(v0.caches, name@) == Ok::<int, PrimitiveError>(i as int));
        assert(spec_set_cache_max_entries(v0, name@, max_entries) == Ok::<SectionsView<P>, PrimitiveError>(spec_with_cache(v0, i as int, CacheEntry { max_entries: Some(max_entries), ..v0.caches[i as int] })));
    }
    Ok(())
}

fn edit_cache_lmdb_hot<P: ConfigPayloads>(
    d: &mut DesiredConfig<P>,
    name: String,
    when_full: Option<String>,
    sample_size: Option<u32>,
    sync: Option<String>,
    sync_interval: Option<String>,
    map_size_bytes: Option<u64>,
) -> (r: Result<(), PrimitiveError>)
    ensures
        final(d).pools@ == old(d).pools@,
        match spec_set_cache_lmdb_hot(old(d).sections(), name@, when_full, sample_size, sync, sync_interval, map_size_bytes) {
            Ok(v) => r is Ok && final(d).sections() == v,
            Err(e) => r == Err::<(), PrimitiveError>(e) && final(d).sections() == old(d).sections(),
        },
{
    if when_full.is_none() && sample_size.is_none() && sync.is_none() && sync_interval.is_none()
        && map_size_bytes.is_none() {
        return Err(PrimitiveError::LmdbHotEmpty);
    }
    let i = match cache_position(&d.caches, name.as_str()) {
        Ok(i) => i,
        Err(e) => return Err(e),
    };
    if !str_eq(d.caches[i].kind.as_str(), "lmdb") {
        return Err(PrimitiveError::NotLmdb);
    }
    let ghost v0 = d.sections();
    let ghost c0 = v0.caches[i as int];
    let ghost l0 = spec_or(c0.lmdb, spec_default_lmdb());
    let ghost want = CacheEntry {
        lmdb: Some(LmdbHotSection {
            when_full: spec_given(when_full, l0.when_full),
            sample_size: spec_given(sample_size, l0.sample_size),
            sync: spec_given(sync, l0.sync),
            sync_interval: spec_given(sync_interval, l0.sync_interval),
            map_size_bytes: spec_or(map_size_bytes, l0.map_size_bytes),
        }),
        ..c0
    };
    let mut caches: Vec<CacheEntry<P>> = Vec::new();
    std::mem::swap(&mut caches, &mut d.caches);
    let mut c = caches.remove(i);
    let mut l = match c.lmdb.take() {
        Some(l) => l,
        None => LmdbHotSection { when_full: None, sample_size: None, sync: None, sync_interval: None, map_size_bytes: 0 },
    };
    match when_full {
        Some(w) => {
            l.when_full = Some(w);
        },
        None => {},
    }
    match sample_size {
        Some(n) => {
            l.sample_size = Some(n);
        },
        None => {},
    }
    match sync {
        Some(m) => {
            l.sync = Some(m);
        },
        None => {},
    }
    match sync_interval {
        Some(t) => {
            l.sync_interval = Some(t);
        },
        None => {},
    }
    match map_size_bytes {
        Some(b) => {
            l.map_size_bytes = b;
        },
        None => {},
    }
    c.lmdb = Some(l);
    assert(c == want);
    caches.insert(i, c);
    proof {
        assert(caches@ =~= v0.caches.update(i as int, want));
    }
    d.caches = caches;
    proof {
        assert(d.sections() =~= spec_with_cache(v0, i as int, want));
    }
    Ok(())
}

fn edit_cache_policy<P: ConfigPayloads>(
    d: &mut DesiredConfig<P>,
    name: String,
    negative_cache: Option<P::NegativeCache>,
    on_hit: Option<P::OnHit>,
    truncated_udp: Option<P::TruncatedUdp>,
    rotate_rrset_on_serve: Option<bool>,
) -> (r: Result<(), PrimitiveError>)
    ensures
        final(d).pools@ == old(d).pools@,
        match spec_set_cache_policy(old(d).sections(), name@, negative_cache, on_hit, truncated_udp, rotate_rrset_on_serve) {
            Ok(v) => r is Ok && final(d).sections() == v,
            Err(e) => r == Err::<(), PrimitiveError>(e) && final(d).sections() == old(d).sections(),
        },
{
    if negative_cache.is_none() && on_hit.is_none() && truncated_udp.is_none() && rotate_rrset_on_serve.is_none() {
        return Err(PrimitiveError::CachePolicyEmpty);
    }
    let i = match cache_position(&d.caches, name.as_str()) {
        Ok(i) => i,
        Err(e) => return Err(e),
    };
    let ghost v0 = d.sections();
    let ghost c0 = v0.caches[i as int];
    let ghost want = CacheEntry {
        negative_cache: spec_given(negative_cache, c0.negative_cache),
        on_hit: spec_given(on_hit, c0.on_hit),
        truncated_udp: spec_given(truncated_udp, c0.truncated_udp),
        rotate_rrset_on_serve: spec_given(rotate_rrset_on_serve, c0.rotate_rrset_on_serve),
        ..c0
    };
    let mut caches: Vec<CacheEntry<P>> = Vec::new();
    std::mem::swap(&mut caches, &mut d.caches);
    let mut c = caches.remove(i);
    match negative_cache {
        Some(x) => {
            c.negative_cache = Some(x);
        },
        None => {},
    }
    match on_hit {
        Some(x) => {
            c.on_hit = Some(x);
        },
        None => {},
    }
    match truncated_udp {
        Some(x) => {
            c.truncated_udp = Some(x);
        },
        None => {},
    }
    match rotate_rrset_on_serve {
        Some(x) => {
            c.rotate_rrset_on_serve = Some(x);
        },
        None => {},
    }
    assert(c == want);
    caches.insert(i, c);
    proof {
        assert(caches@ =~= v0.caches.update(i as int, want));
    }
    d.caches = caches;
    proof {
        assert(d.sections() =~= spec_with_cache(v0, i as int, want));
    }
    Ok(())
}

fn pool_result(r: Result<(), PoolEditError>) -> (out: Result<(), PrimitiveError>)
    ensures
        match r {
            Ok(()) => out is Ok,
            Err(e) => out == Err::<(), PrimitiveError>(PrimitiveError::Pool(e)),
        },
{
    match r {
        Ok(()) => Ok(()),
        Err(e) => Err(PrimitiveError::Pool(e)),
    }
}

/// Apply a typed edit to the desired configuration. A pool edit changes
/// only the pools; any other edit changes only the section it names. A
/// refused edit leaves the configuration as it was.
pub fn mutate_desired<P: ConfigPayloads>(d: &mut DesiredConfig<P>, primitive: ConfigPrimitive<P>) -> (r: Result<(), PrimitiveError>)
    ensures
        match primitive {
            ConfigPrimitive::SetBackendWeight { pool, backend, weight } => {
                &&& final(d).sections() == old(d).sections()
                &&& match spec_find_pool(old(d).pools@, pool@) {
                    None => r == Err::<(), PrimitiveError>(PrimitiveError::Pool(PoolEditError::UnknownPool))
                        && final(d).pools@ == old(d).pools@,
                    Some(i) => match spec_backend_index(old(d).pools@[i].backends@, backend@) {
                        None => r == Err::<(), PrimitiveError>(PrimitiveError::Pool(PoolEditError::UnknownBackend))
                            && final(d).pools@ == old(d).pools@,
                        Some(b) => r is Ok && spec_pool_replaced(
                            old(d).pools@,
                            final(d).pools@,
                            i,
                            old(d).pools@[i].backends@.update(b, RouteBackend { weight, ..old(d).pools@[i].backends@[b] }),
                        ),
                    },
                }
            },
            ConfigPrimitive::RemoveBackend { pool, backend } => {
                &&& final(d).sections() == old(d).sections()
                &&& match spec_find_pool(old(d).pools@, pool@) {
                    None => r == Err::<(), PrimitiveError>(PrimitiveError::Pool(PoolEditError::UnknownPool))
                        && final(d).pools@ == old(d).pools@,
                    Some(i) => match spec_backend_index(old(d).pools@[i].backends@, backend@) {
                        None => r == Err::<(), PrimitiveError>(PrimitiveError::Pool(PoolEditError::UnknownBackend))
                            && final(d).pools@ == old(d).pools@,
                        Some(b) => r is Ok && spec_pool_replaced(
                            old(d).pools@,
                            final(d).pools@,
                            i,
                            old(d).pools@[i].backends@.remove(b),
                        ),
                    },
                }
            },
            ConfigPrimitive::AddBackend { pool, backend } => {
                &&& final(d).sections() == old(d).sections()
                &&& match spec_find_pool(old(d).pools@, pool@) {
                    None => r == Err::<(), PrimitiveError>(PrimitiveError::Pool(PoolEditError::UnknownPool))
                        && final(d).pools@ == old(d).pools@,
                    Some(i) => if spec_identity_exists(old(d).pools@[i].backends@, backend) {
                        r == Err::<(), PrimitiveError>(PrimitiveError::Pool(PoolEditError::DuplicateBackend))
                            && final(d).pools@ == old(d).pools@
                    } else if backend.address_text@.len() == 0 {
                        r == Err::<(), PrimitiveError>(PrimitiveError::Pool(PoolEditError::EmptyAddress))
                            && final(d).pools@ == old(d).pools@
                    } else {
                        r is Ok && spec_pool_replaced(old(d).pools@, final(d).pools@, i, old(d).pools@[i].backends@.push(backend))
                    },
                }
            },
            _ => {
                &&& final(d).pools@ == old(d).pools@
                &&& match spec_edit_sections(old(d).sections(), primitive) {
                    Ok(v) => r is Ok && final(d).sections() == v,
                    Err(e) => r == Err::<(), PrimitiveError>(e) && final(d).sections() == old(d).sections(),
                }
            },
        },
{
    match primitive {
        ConfigPrimitive::SetBackendWeight { pool, backend, weight } => {
            let res = set_backend_weight(&mut d.pools, pool.as_str(), backend.as_str(), weight);
            pool_result(res)
        },
        ConfigPrimitive::RemoveBackend { pool, backend } => {
            let res = remove_backend(&mut d.pools, pool.as_str(), backend.as_str());
            pool_result(res)
        },
        ConfigPrimitive::AddBackend { pool, backend } => {
            let res = add_backend(&mut d.pools, pool.as_str(), backend);
            pool_result(res)
        },
        ConfigPrimitive::SetOrchestratorLimits { max_attempts, max_txn_duration_ms } =>
            edit_orchestrator(d, max_attempts, max_txn_duration_ms),
        ConfigPrimitive::UpsertDataSource { source } => edit_upsert_source(d, source),
        ConfigPrimitive::RemoveDataSource { name } => edit_remove_source(d, name),
        ConfigPrimitive::SetDataSourceLimits { limits } => {
            d.data_source_limits = Some(limits);
            Ok(())
        },
        ConfigPrimitive::SetEventSinkFilters { name, filters } => edit_sink_filters(d, name, filters),
        ConfigPrimitive::SetEventSinkEmit { name, emit, extra_fields, extra_tags, extra_fields_set, extra_tags_set } =>
            edit_sink_emit(d, name, emit, extra_fields, extra_tags, extra_fields_set, extra_tags_set),
        ConfigPrimitive::SetRhaiLimits { max_operations, max_call_depth, hook_timeout_ms } =>
            edit_rhai(d, max_operations, max_call_depth, hook_timeout_ms),
        ConfigPrimitive::SetCacheMaxEntries { name, max_entries } => edit_cache_max_entries(d, name, max_entries),
        ConfigPrimitive::SetCacheLmdbHot { name, when_full, sample_size, sync, sync_interval, map_size_bytes } =>
            edit_cache_lmdb_hot(d, name, when_full, sample_size, sync, sync_interval, map_size_bytes),
        ConfigPrimitive::SetCachePolicyHot { name, negative_cache, on_hit, truncated_udp, rotate_rrset_on_serve } =>
            edit_cache_policy(d, name, negative_cache, on_hit, truncated_udp, rotate_rrset_on_serve),
    }
}

proof fn lemma_without_source_excludes<P: ConfigPayloads>(sources: Seq<DataSourceEntry<P>>, name: Seq<char>)
    ensures
        forall|j: int| 0 <= j < spec_without_source(sources, name).len()
            ==> (#[trigger] spec_without_source(sources, name)[j]).name@ != name,
    decreases sources.len(),
{
    if sources.len() > 0 {
        let init = sources.drop_last();
        lemma_without_source_excludes(init, name);
        let rest = spec_without_source(init, name);
        if sources.last().name@ != name {
            assert forall|j: int| 0 <= j < rest.len() + 1 implies (#[trigger] rest.push(sources.last())[j]).name@ != name by {
                if j < rest.len() {
                    assert(rest.push(sources.last())[j] == rest[j]);
                }
            }
        }
    }
}

/// After an accepted upsert, the first data source with the upserted name
/// is the upserted one.
pub proof fn lemma_upsert_then_lookup<P: ConfigPayloads>(v: SectionsView<P>, source: DataSourceEntry<P>)
    requires
        spec_upsert_source(v, source) is Ok,
    ensures
        ({
            let after = spec_upsert_source(v, source).unwrap().data_sources;
            spec_source_index(after, source.name@) matches Some(i) && after[i] == source
        }),
{
    let after = spec_upsert_source(v, source).unwrap().data_sources;
    let n = source.name@;
    let p = |s: DataSourceEntry<P>| s.name@ == n;
    lemma_first_where(v.data_sources, p);
    match spec_source_index(v.data_sources, n) {
        Some(i) => {
            assert(0 <= i < v.data_sources.len() && p(v.data_sources[i]) && forall|j: int| 0 <= j < i ==> !p(v.data_sources[j]));
            assert(after == v.data_sources.update(i, source));
            assert(p(after[i]));
            assert forall|j: int| 0 <= j < i implies !p(after[j]) by {
                assert(after[j] == v.data_sources[j]);
            }
            let c = choose|k: int| 0 <= k < after.len() && p(after[k]) && forall|j: int| 0 <= j < k ==> !p(after[j]);
            if c < i {
                assert(!p(after[c]));
            } else if c > i {
                assert(!p(after[i]));
            }
        },
        None => {
            assert(!(exists|k: int| 0 <= k < v.data_sources.len() && p(v.data_sources[k])));
            assert(after == v.data_sources.push(source));
            let i = v.data_sources.len() as int;
            assert(p(after[i]));
            assert forall|j: int| 0 <= j < i implies !p(after[j]) by {
                assert(after[j] == v.data_sources[j]);
            }
            let c = choose|k: int| 0 <= k < after.len() && p(after[k]) && forall|j: int| 0 <= j < k ==> !p(after[j]);
            if c < i {
                assert(!p(after[c]));
            }
        },
    }
}

/// After an accepted removal, no data source has the removed name; the
/// removal is refused exactly when none had it.
pub proof fn lemma_remove_source_leaves_none<P: ConfigPayloads>(v: SectionsView<P>, name: Seq<char>)
    requires
        name.len() > 0,
    ensures
        spec_remove_source(v, name) is Err <==> forall|j: int| 0 <= j < v.data_sources.len() ==> (#[trigger] v.data_sources[j]).name@ != name,
        spec_remove_source(v, name) matches Ok(after) ==> forall|j: int| 0 <= j < after.data_sources.len()
            ==> (#[trigger] after.data_sources[j]).name@ != name,
{
    lemma_without_source_len(v.data_sources, name);
    lemma_without_source_excludes(v.data_sources, name);
}

} // verus!
