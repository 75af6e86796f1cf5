//! DNS cache key construction (full-key equality; the hash only routes to a shard).

use vstd::prelude::*;
use vstd::string::StringExecFns;
use hickory_proto::rr::rdata::opt::{EdnsCode, EdnsOption};
use hickory_proto::serialize::binary::BinEncodable;
use crate::text::{
    ascii_lowercase, owned, spec_ascii_lower, spec_trailing_count, str_eq, trim_end_char,
};
use crate::transaction::Transaction;

verus! {

/// Key format version, the first byte of every key.
pub const KEY_VERSION: u8 = 1;

/// Answer-shape dimension in the cache key (not client transport).
///
/// Complete answers are shared across UDP and TCP clients. Truncated UDP
/// stubs use a distinct key and are never served to TCP.
#[derive(Debug, Clone, Copy, PartialEq, Eq, Structural)]
pub enum TransportKey {
    /// Complete (TC=0) answer, shared by UDP and TCP clients (byte `0`).
    Complete,
    /// Stored TC=1 UDP answers (byte `2`; `1` is never used so leftover
    /// transport keys are not mistaken for truncated stubs).
    UdpTruncated,
}

impl TransportKey {
    pub open spec fn spec_byte(self) -> u8 {
        match self {
            TransportKey::Complete => 0,
            TransportKey::UdpTruncated => 2,
        }
    }

    pub fn as_byte(self) -> (r: u8)
        ensures
            r == self.spec_byte(),
    {
        match self {
            TransportKey::Complete => 0,
            TransportKey::UdpTruncated => 2,
        }
    }
}

/// Canonical cache key bytes (variable length).
#[derive(Debug, Clone, PartialEq, Eq, Hash)]
pub struct CacheKey(pub Vec<u8>);

impl View for CacheKey {
    type V = Seq<u8>;

    open spec fn view(&self) -> Seq<u8> {
        self.0@
    }
}

impl CacheKey {
    pub fn as_bytes(&self) -> (r: &[u8])
        ensures
            r@ == self.0@,
    {
        self.0.as_slice()
    }

    /// Byte-wise key equality.
    /// An owned copy of the key.
    pub fn duplicate(&self) -> (r: CacheKey)
        ensures
            r@ == self@,
    {
        let bytes = self.0.clone();
        proof {
            assert(bytes@ =~= self.0@);
        }
        CacheKey(bytes)
    }

    pub fn same_as(&self, other: &CacheKey) -> (r: bool)
        ensures
            r == (self@ == other@),
    {
        let r = self.0 == other.0;
        proof {
            if r {
                assert(self.0@ =~= other.0@);
            }
        }
        r
    }
}

/// Why a cache key could not be built.
#[derive(Debug, Clone, Copy, PartialEq, Eq, Structural)]
pub enum KeyError {
    /// The query wire does not decode (or its client-subnet option does not
    /// encode).
    InvalidQuery,
    /// The query name is not a valid DNS name.
    InvalidName,
}

/// The CD and DO bits of a query wire as hickory-proto decodes it.
pub uninterp spec fn spec_dnssec_flags(wire: Seq<u8>) -> Option<(bool, bool)>;

/// The encoded EDNS client-subnet option of a query wire (empty without
/// EDNS or without the option), as hickory-proto decodes and re-encodes it.
pub uninterp spec fn spec_ecs_option_bytes(wire: Seq<u8>) -> Option<Seq<u8>>;

/// The wire encoding of a DNS name parsed from text by hickory-proto.
pub uninterp spec fn spec_name_wire(name: Seq<char>) -> Option<Seq<u8>>;

/// Decodes `query_wire` with `hickory_proto::op::Message::from_vec` and
/// reads `checking_disabled()` and the `dnssec_ok()` of its EDNS section
/// (`false` without one). Trusted: the result is the named function of the
/// bytes; `None` exactly when decoding fails.
#[verifier::external_body]
fn dnssec_flags(query_wire: &[u8]) -> (r: Option<(bool, bool)>)
    ensures
        r == spec_dnssec_flags(query_wire@),
{
    match hickory_proto::op::Message::from_vec(query_wire) {
        Ok(msg) => Some((msg.checking_disabled(), msg.extensions().as_ref().map(|e| e.dnssec_ok()).unwrap_or(false))),
        Err(_) => None,
    }
}

/// Decodes `query_wire` with `hickory_proto::op::Message::from_vec`, takes
/// the EDNS client-subnet option (`Edns::option(EdnsCode::Subnet)`) and
/// encodes it with `Vec::<u8>::try_from`; empty without EDNS or without the
/// option. Trusted: the result is the named function of the bytes; `None`
/// exactly when decoding or encoding fails.
#[verifier::external_body]
fn ecs_option_bytes(query_wire: &[u8]) -> (r: Option<Vec<u8>>)
    ensures
        r is None <==> spec_ecs_option_bytes(query_wire@) is None,
        r matches Some(b) ==> spec_ecs_option_bytes(query_wire@) == Some(b@),
{
    let msg = match hickory_proto::op::Message::from_vec(query_wire) {
        Ok(m) => m,
        Err(_) => return None,
    };
    match msg.extensions().as_ref().and_then(|edns| edns.option(EdnsCode::Subnet)) {
        Some(EdnsOption::Subnet(subnet)) => Vec::try_from(subnet).ok(),
        _ => Some(Vec::new()),
    }
}

/// Parses `name` with `hickory_proto::rr::Name::from_utf8` and encodes it
/// with `BinEncodable::emit`. Trusted: the result is the named function of
/// the text; `None` exactly when parsing or encoding fails; an encoded name
/// is at most 255 bytes (`Name::emit_as_canonical` fails on a longer one).
#[verifier::external_body]
fn name_wire(name: &str) -> (r: Option<Vec<u8>>)
    ensures
        r is None <==> spec_name_wire(name@) is None,
        r matches Some(b) ==> spec_name_wire(name@) == Some(b@),
        r matches Some(b) ==> b@.len() <= 255,
{
    let parsed = match hickory_proto::rr::Name::from_utf8(name) {
        Ok(n) => n,
        Err(_) => return None,
    };
    let mut buf = Vec::new();
    let mut enc = hickory_proto::serialize::binary::BinEncoder::new(&mut buf);
    match parsed.emit(&mut enc) {
        Ok(()) => Some(buf),
        Err(_) => None,
    }
}

/// `s` with every character mapped by `spec_ascii_lower`.
pub open spec fn spec_lower(s: Seq<char>) -> Seq<char> {
    Seq::new(s.len(), |i: int| spec_ascii_lower(s[i]))
}

/// The fully-qualified, lower-cased form of a query name: trailing dots
/// are trimmed and the rest lower-cased; an empty result is the root `.`,
/// and a name that ended with a dot keeps one.
pub open spec fn spec_fqdn(qname: Seq<char>) -> Seq<char> {
    let n = spec_trailing_count(qname, '.');
    let lower = spec_lower(qname.subrange(0, qname.len() - n));
    if lower.len() == 0 {
        "."@
    } else if n > 0 {
        lower + "."@
    } else {
        lower
    }
}

/// `v` as two big-endian bytes.
pub open spec fn spec_be16(v: u16) -> Seq<u8> {
    seq![(v / 256) as u8, (v % 256) as u8]
}

/// The key bytes: version, name length (16-bit, big-endian), name wire,
/// qtype, qclass, flags (`CD << 1 | DO`), transport byte, ECS length (one
/// byte) and ECS option bytes.
pub open spec fn spec_key_bytes(
    name: Seq<u8>,
    qtype: u16,
    qclass: u16,
    cd: bool,
    do_bit: bool,
    transport: TransportKey,
    ecs: Seq<u8>,
) -> Seq<u8> {
    seq![KEY_VERSION] + spec_be16((name.len() % 0x10000) as u16) + name + spec_be16(qtype) + spec_be16(qclass)
        + seq![((if cd { 2u8 } else { 0u8 }) + (if do_bit { 1u8 } else { 0u8 })) as u8, transport.spec_byte(), (ecs.len() % 0x100) as u8]
        + ecs
}

/// The key built from query parts, or why it could not be built.
pub open spec fn spec_key_from_parts(
    qname: Seq<char>,
    qtype: u16,
    qclass: u16,
    query_wire: Seq<u8>,
    transport: TransportKey,
) -> Result<Seq<u8>, KeyError> {
    match spec_dnssec_flags(query_wire) {
        None => Err(KeyError::InvalidQuery),
        Some((cd, do_bit)) => match spec_ecs_option_bytes(query_wire) {
            None => Err(KeyError::InvalidQuery),
            Some(ecs) => match spec_name_wire(spec_fqdn(qname)) {
                None => Err(KeyError::InvalidName),
                Some(name) => Ok(spec_key_bytes(name, qtype, qclass, cd, do_bit, transport, ecs)),
            },
        },
    }
}

fn push_be16(out: &mut Vec<u8>, v: u16)
    ensures
        final(out)@ == old(out)@ + spec_be16(v),
{
    out.push((v / 256) as u8);
    out.push((v % 256) as u8);
    proof {
        assert(final(out)@ =~= old(out)@ + spec_be16(v));
    }
}

fn extend_bytes(out: &mut Vec<u8>, bytes: &Vec<u8>)
    ensures
        final(out)@ == old(out)@ + bytes@,
{
    let mut i: usize = 0;
    while i < bytes.len()
        invariant
            i <= bytes@.len(),
            out@ == old(out)@ + bytes@.subrange(0, i as int),
        decreases bytes@.len() - i,
    {
        out.push(bytes[i]);
        i += 1;
        proof {
            assert(out@ =~= old(out)@ + bytes@.subrange(0, i as int));
        }
    }
    proof {
        assert(bytes@.subrange(0, i as int) =~= bytes@);
    }
}

pub proof fn lemma_trailing_count_le(s: Seq<char>, c: char)
    ensures
        spec_trailing_count(s, c) <= s.len(),
    decreases s.len(),
{
    if s.len() > 0 && s.last() == c {
        lemma_trailing_count_le(s.drop_last(), c);
    }
}

/// The name wire of the normalized query name.
fn normalize_qname(qname: &str) -> (r: Result<Vec<u8>, KeyError>)
    ensures
        match r {
            Ok(b) => spec_name_wire(spec_fqdn(qname@)) == Some(b@),
            Err(e) => e == KeyError::InvalidName && spec_name_wire(spec_fqdn(qname@)) is None,
        },
{
    proof {
        lemma_trailing_count_le(qname@, '.');
    }
    let trimmed = trim_end_char(qname, '.');
    let lower = ascii_lowercase(trimmed);
    proof {
        assert(lower@ =~= spec_lower(qname@.subrange(0, qname@.len() - spec_trailing_count(qname@, '.'))));
        if spec_trailing_count(qname@, '.') == 0 {
            assert(trimmed@ =~= qname@);
        }
    }
    let fqdn: String = if lower.as_str().is_empty() {
        owned(".")
    } else if !str_eq(trimmed, qname) {
        let mut f = lower;
        f.append(".");
        f
    } else {
        lower
    };
    match name_wire(fqdn.as_str()) {
        Some(b) => Ok(b),
        None => Err(KeyError::InvalidName),
    }
}

/// Build a cache key from normalized query parts.
pub fn build_key_from_parts(
    qname: &str,
    qtype: u16,
    qclass: u16,
    query_wire: &[u8],
    transport: TransportKey,
) -> (r: Result<CacheKey, KeyError>)
    ensures
        match r {
            Ok(k) => spec_key_from_parts(qname@, qtype, qclass, query_wire@, transport) == Ok::<Seq<u8>, KeyError>(k@),
            Err(e) => spec_key_from_parts(qname@, qtype, qclass, query_wire@, transport) == Err::<Seq<u8>, KeyError>(e),
        },
{
    let (cd, do_bit) = match dnssec_flags(query_wire) {
        Some(f) => f,
        None => return Err(KeyError::InvalidQuery),
    };
    let ecs = match ecs_option_bytes(query_wire) {
        Some(e) => e,
        None => return Err(KeyError::InvalidQuery),
    };
    let normalized = match normalize_qname(qname) {
        Ok(n) => n,
        Err(e) => return Err(e),
    };
    let mut out: Vec<u8> = Vec::new();
    out.push(KEY_VERSION);
    let n = normalized.len();
    #[verifier::truncate]
    let name_len = n as u16;
    proof {
        assert((n as u16) == ((n % 0x10000) as u16)) by (bit_vector);
    }
    push_be16(&mut out, name_len);
    extend_bytes(&mut out, &normalized);
    push_be16(&mut out, qtype);
    push_be16(&mut out, qclass);
    let flags: u8 = (if cd { 2u8 } else { 0u8 }) + (if do_bit { 1u8 } else { 0u8 });
    out.push(flags);
    out.push(transport.as_byte());
    let m = ecs.len();
    #[verifier::truncate]
    let ecs_len = m as u8;
    proof {
        assert((m as u8) == ((m % 0x100) as u8)) by (bit_vector);
    }
    out.push(ecs_len);
    extend_bytes(&mut out, &ecs);
    proof {
        assert(out@ =~= spec_key_bytes(normalized@, qtype, qclass, cd, do_bit, transport, ecs@));
    }
    Ok(CacheKey(out))
}

/// The key of a complete (non-truncated) cached answer for a transaction;
/// UDP and TCP clients share it.
pub fn build_query_key(txn: &Transaction) -> (r: Result<CacheKey, KeyError>)
    ensures
        match r {
            Ok(k) => spec_key_from_parts(
                match txn.qname { Some(q) => q@, None => "."@ },
                match txn.qtype { Some(t) => t, None => 0 },
                match txn.qclass { Some(c) => c, None => 1 },
                txn.query_wire@,
                TransportKey::Complete,
            ) == Ok::<Seq<u8>, KeyError>(k@),
            Err(e) => spec_key_from_parts(
                match txn.qname { Some(q) => q@, None => "."@ },
                match txn.qtype { Some(t) => t, None => 0 },
                match txn.qclass { Some(c) => c, None => 1 },
                txn.query_wire@,
                TransportKey::Complete,
            ) == Err::<Seq<u8>, KeyError>(e),
        },
{
    let qname: &str = match &txn.qname {
        Some(q) => q.as_str(),
        None => ".",
    };
    let qtype: u16 = match txn.qtype {
        Some(t) => t,
        None => 0,
    };
    let qclass: u16 = match txn.qclass {
        Some(c) => c,
        None => 1,
    };
    build_key_from_parts(qname, qtype, qclass, txn.query_wire.as_slice(), TransportKey::Complete)
}

/// The key for storing a truncated UDP answer for a transaction.
pub fn build_truncated_udp_key(txn: &Transaction) -> (r: Result<CacheKey, KeyError>)
    ensures
        match r {
            Ok(k) => spec_key_from_parts(
                match txn.qname { Some(q) => q@, None => "."@ },
                match txn.qtype { Some(t) => t, None => 0 },
                match txn.qclass { Some(c) => c, None => 1 },
                txn.query_wire@,
                TransportKey::UdpTruncated,
            ) == Ok::<Seq<u8>, KeyError>(k@),
            Err(e) => spec_key_from_parts(
                match txn.qname { Some(q) => q@, None => "."@ },
                match txn.qtype { Some(t) => t, None => 0 },
                match txn.qclass { Some(c) => c, None => 1 },
                txn.query_wire@,
                TransportKey::UdpTruncated,
            ) == Err::<Seq<u8>, KeyError>(e),
        },
{
    let qname: &str = match &txn.qname {
        Some(q) => q.as_str(),
        None => ".",
    };
    let qtype: u16 = match txn.qtype {
        Some(t) => t,
        None => 0,
    };
    let qclass: u16 = match txn.qclass {
        Some(c) => c,
        None => 1,
    };
    build_key_from_parts(qname, qtype, qclass, txn.query_wire.as_slice(), TransportKey::UdpTruncated)
}

pub proof fn lemma_trailing_dots_lower(q: Seq<char>)
    ensures
        spec_trailing_count(spec_lower(q), '.') == spec_trailing_count(q, '.'),
    decreases q.len(),
{
    if q.len() > 0 {
        assert(spec_lower(q).drop_last() =~= spec_lower(q.drop_last()));
        lemma_trailing_dots_lower(q.drop_last());
    }
}

/// Cache-key normalization: two query names with the same lower-cased form
/// give the same key under either transport, and a query that has a key
/// gets a different one for a complete and for a truncated UDP answer.
pub proof fn lemma_key_normalization(
    q1: Seq<char>,
    q2: Seq<char>,
    qtype: u16,
    qclass: u16,
    query_wire: Seq<u8>,
)
    requires
        spec_lower(q1) == spec_lower(q2),
        spec_key_from_parts(q1, qtype, qclass, query_wire, TransportKey::Complete) is Ok,
    ensures
        spec_key_from_parts(q1, qtype, qclass, query_wire, TransportKey::Complete)
            == spec_key_from_parts(q2, qtype, qclass, query_wire, TransportKey::Complete),
        spec_key_from_parts(q1, qtype, qclass, query_wire, TransportKey::UdpTruncated)
            == spec_key_from_parts(q2, qtype, qclass, query_wire, TransportKey::UdpTruncated),
        spec_key_from_parts(q1, qtype, qclass, query_wire, TransportKey::Complete)
            != spec_key_from_parts(q2, qtype, qclass, query_wire, TransportKey::UdpTruncated),
{
    lemma_key_case_insensitive(q1, q2, qtype, qclass, query_wire, TransportKey::Complete);
    lemma_key_case_insensitive(q1, q2, qtype, qclass, query_wire, TransportKey::UdpTruncated);
    lemma_transport_keys_differ(q1, qtype, qclass, query_wire);
}

/// Query names that differ only in ASCII letter case give the same key.
pub proof fn lemma_key_case_insensitive(
    q1: Seq<char>,
    q2: Seq<char>,
    qtype: u16,
    qclass: u16,
    query_wire: Seq<u8>,
    transport: TransportKey,
)
    requires
        spec_lower(q1) == spec_lower(q2),
    ensures
        spec_key_from_parts(q1, qtype, qclass, query_wire, transport) == spec_key_from_parts(
            q2,
            qtype,
            qclass,
            query_wire,
            transport,
        ),
{
    lemma_trailing_dots_lower(q1);
    lemma_trailing_dots_lower(q2);
    lemma_trailing_count_le(q1, '.');
    lemma_trailing_count_le(q2, '.');
    let n = spec_trailing_count(q1, '.');
    assert(q1.len() == spec_lower(q1).len());
    assert(q2.len() == spec_lower(q2).len());
    assert(spec_lower(q1.subrange(0, q1.len() - n)) =~= spec_lower(q2.subrange(0, q2.len() - n))) by {
        assert forall|i: int| 0 <= i < q1.len() - n implies spec_ascii_lower(q1[i]) == spec_ascii_lower(q2[i]) by {
            assert(spec_lower(q1)[i] == spec_ascii_lower(q1[i]));
            assert(spec_lower(q2)[i] == spec_ascii_lower(q2[i]));
            assert(spec_lower(q1)[i] == spec_lower(q2)[i]);
        }
    }
    assert(spec_fqdn(q1) == spec_fqdn(q2));
}

/// Position of the transport byte in a key.
pub open spec fn spec_transport_pos(name: Seq<u8>) -> int {
    1 + 2 + name.len() as int + 2 + 2 + 1
}

/// A truncated-UDP key never equals the complete-answer key of the same
/// query: they differ in the transport byte.
pub proof fn lemma_transport_keys_differ(
    qname: Seq<char>,
    qtype: u16,
    qclass: u16,
    query_wire: Seq<u8>,
)
    requires
        spec_key_from_parts(qname, qtype, qclass, query_wire, TransportKey::Complete) is Ok,
    ensures
        spec_key_from_parts(qname, qtype, qclass, query_wire, TransportKey::UdpTruncated) is Ok,
        spec_key_from_parts(qname, qtype, qclass, query_wire, TransportKey::Complete) != spec_key_from_parts(
            qname,
            qtype,
            qclass,
            query_wire,
            TransportKey::UdpTruncated,
        ),
{
    let (cd, do_bit) = spec_dnssec_flags(query_wire)->0;
    let ecs = spec_ecs_option_bytes(query_wire)->0;
    let name = spec_name_wire(spec_fqdn(qname))->0;
    let a = spec_key_bytes(name, qtype, qclass, cd, do_bit, TransportKey::Complete, ecs);
    let b = spec_key_bytes(name, qtype, qclass, cd, do_bit, TransportKey::UdpTruncated, ecs);
    let p = spec_transport_pos(name);
    assert(a[p] == 0);
    assert(b[p] == 2);
}

/// The CD and DO bits of the query each change the key.
pub proof fn lemma_dnssec_bits_in_key(
    name: Seq<u8>,
    qtype: u16,
    qclass: u16,
    cd1: bool,
    do1: bool,
    cd2: bool,
    do2: bool,
    transport: TransportKey,
    ecs: Seq<u8>,
)
    requires
        cd1 != cd2 || do1 != do2,
    ensures
        spec_key_bytes(name, qtype, qclass, cd1, do1, transport, ecs) != spec_key_bytes(
            name,
            qtype,
            qclass,
            cd2,
            do2,
            transport,
            ecs,
        ),
{
    let p = spec_transport_pos(name) - 1;
    let a = spec_key_bytes(name, qtype, qclass, cd1, do1, transport, ecs);
    let b = spec_key_bytes(name, qtype, qclass, cd2, do2, transport, ecs);
    assert(a[p] != b[p]);
}

/// Keys record the query name's wire form whole: two keys built alike
/// from different name wire forms (each under 64 KiB) differ.
pub proof fn lemma_key_bytes_name_injective(
    n1: Seq<u8>,
    n2: Seq<u8>,
    qtype: u16,
    qclass: u16,
    cd: bool,
    do_bit: bool,
    transport: TransportKey,
    ecs: Seq<u8>,
)
    requires
        n1.len() < 0x10000,
        n2.len() < 0x10000,
        n1 != n2,
    ensures
        spec_key_bytes(n1, qtype, qclass, cd, do_bit, transport, ecs) != spec_key_bytes(
            n2,
            qtype,
            qclass,
            cd,
            do_bit,
            transport,
            ecs,
        ),
{
    let a = spec_key_bytes(n1, qtype, qclass, cd, do_bit, transport, ecs);
    let b = spec_key_bytes(n2, qtype, qclass, cd, do_bit, transport, ecs);
    if a == b {
        let l1 = (n1.len() % 0x10000) as u16;
        let l2 = (n2.len() % 0x10000) as u16;
        assert(a[1] == (l1 / 256) as u8 && a[2] == (l1 % 256) as u8);
        assert(b[1] == (l2 / 256) as u8 && b[2] == (l2 % 256) as u8);
        assert(l1 == l2);
        assert(n1.len() == n2.len());
        assert forall|i: int| 0 <= i < n1.len() implies n1[i] == n2[i] by {
            assert(a[3 + i] == n1[i]);
            assert(b[3 + i] == n2[i]);
        }
        assert(n1 =~= n2);
    }
}

/// Query names whose name wire forms differ get different keys.
pub proof fn lemma_distinct_names_distinct_keys(
    q1: Seq<char>,
    q3: Seq<char>,
    qtype: u16,
    qclass: u16,
    query_wire: Seq<u8>,
    transport: TransportKey,
)
    requires
        spec_key_from_parts(q1, qtype, qclass, query_wire, transport) is Ok,
        spec_key_from_parts(q3, qtype, qclass, query_wire, transport) is Ok,
        spec_name_wire(spec_fqdn(q1))->0.len() < 0x10000,
        spec_name_wire(spec_fqdn(q3))->0.len() < 0x10000,
        spec_name_wire(spec_fqdn(q1)) != spec_name_wire(spec_fqdn(q3)),
    ensures
        spec_key_from_parts(q1, qtype, qclass, query_wire, transport) != spec_key_from_parts(
            q3,
            qtype,
            qclass,
            query_wire,
            transport,
        ),
{
    let (cd, do_bit) = spec_dnssec_flags(query_wire)->0;
    let ecs = spec_ecs_option_bytes(query_wire)->0;
    lemma_key_bytes_name_injective(
        spec_name_wire(spec_fqdn(q1))->0,
        spec_name_wire(spec_fqdn(q3))->0,
        qtype,
        qclass,
        cd,
        do_bit,
        transport,
        ecs,
    );
}

} // verus!
