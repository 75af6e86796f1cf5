//! Durable answer-cache layout: how entries are encoded as stored values,
//! how keys route to shards, and how the map-size and entry budgets split
//! across shards.

use vstd::prelude::*;
use super::entry::{CacheEntry, EntryKind, spec_ttl_remaining};
use super::key::CacheKey;
use crate::clock::{Instant, NANOS_PER_SEC, spec_secs_between, spec_plus_secs};
use crate::text::{decimal, owned, path_join, spec_decimal, spec_path_join};
use vstd::string::StringExecFns;

verus! {

/// On-disk format magic (`CDCL`).
pub const FORMAT_MAGIC: [u8; 4] = [0x43, 0x44, 0x43, 0x4C];
/// Bump when the on-disk value layout changes; mismatched envs fail closed.
pub const FORMAT_VERSION: u32 = 1;
/// Value header: filled_at_unix(8) + expires_at_unix(8) + kind(1) + wire_len(4).
pub const VALUE_HEADER_LEN: usize = 21;
/// Map sizes are multiples of this page size.
pub const PAGE_SIZE: usize = 4096;

/// What an operator path holds before open.
#[derive(Debug, Clone, Copy, PartialEq, Eq, Structural)]
pub enum OnDiskLayout {
    Empty,
    Legacy,
    Sharded { n: u32 },
}

/// Why a stored format header or value was rejected.
#[derive(Debug, Clone, PartialEq, Eq)]
pub enum LayoutError {
    /// The format record does not start with the magic.
    FormatMagic,
    /// The format record carries another version.
    FormatMismatch { found: u32, expected: u32 },
    /// A stored value is shorter than its header.
    ValueTooShort(usize),
    /// A stored value names an unknown entry kind.
    UnknownKind(u8),
    /// A stored value is shorter than its header says.
    WireTruncated,
}

pub open spec fn spec_clamp(v: u32, lo: u32, hi: u32) -> u32 {
    if v < lo { lo } else if v > hi { hi } else { v }
}

/// Effective shard count: an explicit count wins, else the on-disk layout,
/// else twice the lookup thread count; always clamped to `[1, max]`.
pub open spec fn spec_effective_shard_count(explicit: Option<u32>, on_disk: OnDiskLayout, threads: u32, max: u32) -> u32 {
    match explicit {
        Some(n) => spec_clamp(n, 1, max),
        None => match on_disk {
            OnDiskLayout::Sharded { n } => spec_clamp(n, 1, max),
            OnDiskLayout::Legacy => 1,
            OnDiskLayout::Empty => {
                let t = if threads == 0 { 1u32 } else { threads };
                let d = if t as int * 2 > u32::MAX { u32::MAX } else { (t * 2) as u32 };
                spec_clamp(d, 1, max)
            },
        },
    }
}

fn clamp_u32(v: u32, lo: u32, hi: u32) -> (r: u32)
    requires
        lo <= hi,
    ensures
        r == spec_clamp(v, lo, hi),
{
    if v < lo {
        lo
    } else if v > hi {
        hi
    } else {
        v
    }
}

/// Resolve the effective shard count at open. `max_shard_count` is the
/// configured ceiling (at least 1).
pub fn resolve_effective_shard_count(
    explicit: Option<u32>,
    on_disk: OnDiskLayout,
    lookup_thread_count: u32,
    max_shard_count: u32,
) -> (r: Result<u32, LayoutError>)
    requires
        max_shard_count >= 1,
    ensures
        r == Ok::<u32, LayoutError>(spec_effective_shard_count(explicit, on_disk, lookup_thread_count, max_shard_count)),
{
    if let Some(n) = explicit {
        return Ok(clamp_u32(n, 1, max_shard_count));
    }
    match on_disk {
        OnDiskLayout::Sharded { n } => Ok(clamp_u32(n, 1, max_shard_count)),
        OnDiskLayout::Legacy => Ok(1),
        OnDiskLayout::Empty => {
            let threads: u32 = if lookup_thread_count == 0 { 1 } else { lookup_thread_count };
            let doubled: u32 = if threads > u32::MAX / 2 { u32::MAX } else { threads * 2 };
            Ok(clamp_u32(doubled, 1, max_shard_count))
        },
    }
}

pub open spec fn spec_on_disk_shard_count(on_disk: OnDiskLayout) -> Option<u32> {
    match on_disk {
        OnDiskLayout::Empty => None,
        OnDiskLayout::Legacy => Some(1),
        OnDiskLayout::Sharded { n } => Some(n),
    }
}

/// Shard count recognizable on disk: none for an empty path, one for a legacy env.
pub fn on_disk_shard_count(on_disk: OnDiskLayout) -> (r: Option<u32>)
    ensures
        r == spec_on_disk_shard_count(on_disk),
{
    match on_disk {
        OnDiskLayout::Empty => None,
        OnDiskLayout::Legacy => Some(1),
        OnDiskLayout::Sharded { n } => Some(n),
    }
}

/// True when an explicit `shard_count` (clamped) differs from a recognizable
/// on-disk shard count: the old layout must be abandoned.
pub fn explicit_requires_abandon(explicit: Option<u32>, on_disk: OnDiskLayout, max_shard_count: u32) -> (r: bool)
    requires
        max_shard_count >= 1,
    ensures
        r == (explicit is Some && spec_on_disk_shard_count(on_disk) is Some && spec_on_disk_shard_count(on_disk).unwrap()
            != spec_clamp(explicit.unwrap(), 1, max_shard_count)),
{
    let n = match explicit {
        Some(n) => n,
        None => return false,
    };
    let want = clamp_u32(n, 1, max_shard_count);
    match on_disk_shard_count(on_disk) {
        Some(disk) => disk != want,
        None => false,
    }
}

/// `bytes` rounded up to a whole number of pages, and at least one page.
pub open spec fn spec_align_map_size(bytes: u64) -> int {
    let n = if bytes < PAGE_SIZE { PAGE_SIZE as int } else { bytes as int };
    ((n + PAGE_SIZE - 1) / (PAGE_SIZE as int)) * PAGE_SIZE
}

proof fn lemma_page_round(n: int)
    requires
        n >= 4096,
    ensures
        ({
            let q = (n + 4095) / 4096;
            &&& q * 4096 >= n
            &&& q * 4096 < n + 4096
            &&& q >= 1
            &&& (q * 4096) % 4096 == 0
        }),
{
    let q = (n + 4095) / 4096;
    assert(q * 4096 <= n + 4095 && q * 4096 > n + 4095 - 4096) by (nonlinear_arith)
        requires
            q == (n + 4095) / 4096,
    ;
    assert((q * 4096) % 4096 == 0) by (nonlinear_arith);
}

/// LMDB requires the map size to be a multiple of the page size.
pub fn align_map_size(bytes: u64) -> (r: usize)
    requires
        bytes as int + PAGE_SIZE <= usize::MAX,
    ensures
        r == spec_align_map_size(bytes),
        r % PAGE_SIZE == 0,
        r >= PAGE_SIZE,
        r >= bytes,
        r < bytes + PAGE_SIZE || bytes < PAGE_SIZE,
{
    let page: usize = PAGE_SIZE;
    let n: usize = if (bytes as usize) < page { page } else { bytes as usize };
    let pages = (n + page - 1) / page;
    proof {
        lemma_page_round(n as int);
    }
    pages * page
}


/// Sum of a sequence of sizes.
pub open spec fn spec_sum(s: Seq<usize>) -> int
    decreases s.len(),
{
    if s.len() == 0 {
        0
    } else {
        spec_sum(s.drop_last()) + s.last()
    }
}

pub open spec fn spec_sum_u64(s: Seq<u64>) -> int
    decreases s.len(),
{
    if s.len() == 0 {
        0
    } else {
        spec_sum_u64(s.drop_last()) + s.last()
    }
}

/// Per-shard map ceilings: each shard gets the page-rounded share
/// `total / n` (at least one page) and the first shard takes the remainder
/// of the aligned total. When the total cannot give every shard a page,
/// every shard keeps one page.
pub open spec fn spec_per_shard_map_sizes(total_bytes: u64, n: int) -> Seq<usize> {
    let total = spec_align_map_size(total_bytes);
    let base0 = (total / n) / (PAGE_SIZE as int) * (PAGE_SIZE as int);
    let base = if base0 < PAGE_SIZE { PAGE_SIZE as int } else { base0 };
    let sum = base * n;
    Seq::new(n as nat, |i: int| if i == 0 && sum < total { (base + (total - sum)) as usize } else { base as usize })
}

proof fn lemma_sum_const(base: usize, n: int)
    requires
        n >= 0,
    ensures
        spec_sum(Seq::new(n as nat, |i: int| base)) == base * n,
    decreases n,
{
    if n > 0 {
        lemma_sum_const(base, n - 1);
        let s = Seq::new(n as nat, |i: int| base);
        assert(s.drop_last() =~= Seq::new((n - 1) as nat, |i: int| base));
        assert(s.last() == base);
        assert(spec_sum(s) == spec_sum(s.drop_last()) + s.last());
        assert(base * n == base * (n - 1) + base) by (nonlinear_arith);
    } else {
        assert(base * n == 0) by (nonlinear_arith)
            requires
                n == 0,
        ;
    }
}

proof fn lemma_sum_update_first(s: Seq<usize>, v: usize)
    requires
        s.len() > 0,
    ensures
        spec_sum(s.update(0, v)) == spec_sum(s) - s[0] + v,
    decreases s.len(),
{
    if s.len() > 1 {
        lemma_sum_update_first(s.drop_last(), v);
        assert(s.update(0, v).drop_last() =~= s.drop_last().update(0, v));
    } else {
        assert(s.update(0, v).drop_last() =~= s.drop_last());
    }
}

/// Per-shard map ceilings that sum to the aligned total budget when it gives
/// every shard at least a page; every ceiling is a positive multiple of a page.
pub fn per_shard_map_sizes(total_bytes: u64, n: usize) -> (r: Vec<usize>)
    requires
        n > 0,
        total_bytes as int + PAGE_SIZE <= usize::MAX,
        n * PAGE_SIZE <= usize::MAX,
    ensures
        r@ == spec_per_shard_map_sizes(total_bytes, n as int),
        r@.len() == n,
        forall|i: int| 0 <= i < n ==> #[trigger] r@[i] % PAGE_SIZE == 0 && r@[i] >= PAGE_SIZE,
        spec_align_map_size(total_bytes) >= n * PAGE_SIZE ==> spec_sum(r@) == spec_align_map_size(total_bytes),
{
    let total = align_map_size(total_bytes);
    let page: usize = PAGE_SIZE;
    let base0 = (total / n) / page * page;
    let base: usize = if base0 < page { page } else { base0 };
    proof {
        assert(base0 <= total / n) by (nonlinear_arith)
            requires
                base0 == (total / n) / page * page,
                page > 0,
        ;
        assert((total / n) * n <= total) by (nonlinear_arith)
            requires
                n > 0,
        ;
        assert(base0 * n <= total) by (nonlinear_arith)
            requires
                base0 <= total / n,
                (total / n) * n <= total,
                n > 0,
        ;
        assert(base0 % page == 0) by (nonlinear_arith)
            requires
                base0 == (total / n) / page * page,
                page > 0,
        ;
        assert(page * n <= usize::MAX);
        assert(base * n <= usize::MAX) by (nonlinear_arith)
            requires
                base == page || base * n <= total,
                page * n <= usize::MAX,
                total <= usize::MAX,
        ;
    }
    let mut sizes: Vec<usize> = Vec::new();
    let mut k: usize = 0;
    while k < n
        invariant
            0 <= k <= n,
            sizes@ == Seq::new(k as nat, |i: int| base),
        decreases n - k,
    {
        sizes.push(base);
        proof {
            assert(sizes@ =~= Seq::new((k + 1) as nat, |i: int| base));
        }
        k += 1;
    }
    let sum: usize = base * n;
    proof {
        lemma_sum_const(base, n as int);
        assert(base % page == 0);
        assert(sum >= base) by (nonlinear_arith)
            requires
                sum == base * n,
                n >= 1,
                base >= 0,
        ;
        lemma_mul_multiple(base as int, n as int, page as int);
    }
    let ghost flat = sizes@;
    if sum < total {
        let first = sizes[0] + (total - sum);
        sizes.set(0, first);
        proof {
            lemma_sum_update_first(flat, first);
            lemma_sub_multiple(total as int, sum as int, page as int);
        }
    } else if sum > total {
        let overflow = sum - total;
        if sizes[0] > page + overflow {
            let first = sizes[0] - overflow;
            sizes.set(0, first);
        }
        proof {
            assert(base == page) by (nonlinear_arith)
                requires
                    base0 * n <= total,
                    base == page || base == base0,
                    base * n > total,
            ;
        }
    }
    proof {
        assert(sizes@ =~= spec_per_shard_map_sizes(total_bytes, n as int));
        if total >= n * page {
            assert(base0 >= page) by (nonlinear_arith)
                requires
                    total >= n * page,
                    base0 == (total / n) / page * page,
                    n > 0,
                    page > 0,
            ;
            assert(base * n <= total);
        }
        assert forall|i: int| 0 <= i < n implies #[trigger] sizes@[i] % PAGE_SIZE == 0 && sizes@[i] >= PAGE_SIZE by {
            assert(base % page == 0);
        }
    }
    sizes
}

/// Per-shard entry caps: `0` (unlimited) everywhere, or `max_entries / n`
/// each with the first `max_entries % n` shards taking one more.
pub open spec fn spec_per_shard_max_entries(max_entries: u64, n: int) -> Seq<u64> {
    if max_entries == 0 {
        Seq::new(n as nat, |i: int| 0u64)
    } else {
        Seq::new(
            n as nat,
            |i: int| if i < max_entries % (n as u64) { (max_entries / (n as u64) + 1) as u64 } else { (max_entries / (n as u64)) as u64 },
        )
    }
}

proof fn lemma_share_prefix_sum(s: Seq<u64>, base: int, rem: int, k: int)
    requires
        0 <= k <= s.len(),
        0 <= rem,
        forall|i: int| 0 <= i < s.len() ==> #[trigger] s[i] == if i < rem { base + 1 } else { base },
    ensures
        spec_sum_u64(s.take(k)) == k * base + (if k < rem { k } else { rem }),
    decreases k,
{
    if k > 0 {
        lemma_share_prefix_sum(s, base, rem, k - 1);
        let t = s.take(k);
        assert(t.drop_last() =~= s.take(k - 1));
        assert(t.last() == s[k - 1]);
        assert(spec_sum_u64(t) == spec_sum_u64(t.drop_last()) + t.last());
        assert(k * base == (k - 1) * base + base) by (nonlinear_arith);
    } else {
        assert(k * base == 0) by (nonlinear_arith)
            requires
                k == 0,
        ;
    }
}

proof fn lemma_multiple_of(x: int, m: int)
    requires
        m > 0,
        x % m == 0,
    ensures
        x == (x / m) * m,
{
    vstd::arithmetic::div_mod::lemma_fundamental_div_mod(x, m);
    assert(m * (x / m) == (x / m) * m) by (nonlinear_arith);
}

proof fn lemma_mul_multiple(base: int, n: int, m: int)
    requires
        m > 0,
        base % m == 0,
    ensures
        (base * n) % m == 0,
{
    lemma_multiple_of(base, m);
    let q = base / m;
    assert(base * n == (q * n) * m) by (nonlinear_arith)
        requires
            base == q * m,
    ;
    vstd::arithmetic::div_mod::lemma_mod_multiples_basic(q * n, m);
}

proof fn lemma_sub_multiple(a: int, b: int, m: int)
    requires
        m > 0,
        a % m == 0,
        b % m == 0,
    ensures
        (a - b) % m == 0,
{
    lemma_multiple_of(a, m);
    lemma_multiple_of(b, m);
    let qa = a / m;
    let qb = b / m;
    assert(a - b == (qa - qb) * m) by (nonlinear_arith)
        requires
            a == qa * m,
            b == qb * m,
    ;
    vstd::arithmetic::div_mod::lemma_mod_multiples_basic(qa - qb, m);
}

/// Per-shard entry caps that sum to `max_entries` (`0` = unlimited on each shard).
pub fn per_shard_max_entries(max_entries: u64, n: usize) -> (r: Vec<u64>)
    requires
        n > 0,
    ensures
        r@ == spec_per_shard_max_entries(max_entries, n as int),
        spec_sum_u64(r@) == max_entries,
        forall|i: int, j: int| 0 <= i < n && 0 <= j < n ==> #[trigger] r@[i] <= #[trigger] r@[j] + 1,
{
    let mut out: Vec<u64> = Vec::new();
    if max_entries == 0 {
        let mut k: usize = 0;
        while k < n
            invariant
                0 <= k <= n,
                out@ == Seq::new(k as nat, |i: int| 0u64),
            decreases n - k,
        {
            out.push(0);
            proof {
                assert(out@ =~= Seq::new((k + 1) as nat, |i: int| 0u64));
            }
            k += 1;
        }
        proof {
            lemma_share_prefix_sum(out@, 0, 0, n as int);
            assert(out@.take(n as int) =~= out@);
        }
        return out;
    }
    let nn = n as u64;
    let base = max_entries / nn;
    let rem = max_entries % nn;
    let mut k: usize = 0;
    while k < n
        invariant
            0 <= k <= n,
            nn == n,
            base == max_entries / nn,
            rem == max_entries % nn,
            out@ == Seq::new(k as nat, |i: int| if i < rem { (base + 1) as u64 } else { base }),
        decreases n - k,
    {
        let v = if (k as u64) < rem {
            proof {
                assert(base < u64::MAX) by (nonlinear_arith)
                    requires
                        base == max_entries / nn,
                        nn >= 2,
            ;
            }
            base + 1
        } else {
            base
        };
        out.push(v);
        proof {
            assert(out@ =~= Seq::new((k + 1) as nat, |i: int| if i < rem { (base + 1) as u64 } else { base }));
        }
        k += 1;
    }
    proof {
        assert(out@ =~= spec_per_shard_max_entries(max_entries, n as int));
        assert forall|i: int| 0 <= i < out@.len() implies #[trigger] out@[i] == if i < rem {
            base + 1
        } else {
            base as int
        } by {
            if i < rem {
                assert(base < u64::MAX) by (nonlinear_arith)
                    requires
                        base == max_entries / nn,
                        nn >= 2,
                ;
            }
        }
        lemma_share_prefix_sum(out@, base as int, rem as int, n as int);
        assert(out@.take(n as int) =~= out@);
        assert(n * base + rem == max_entries) by (nonlinear_arith)
            requires
                base == max_entries / nn,
                rem == max_entries % nn,
                nn == n,
                nn > 0,
        ;
    }
    out
}


/// Little-endian bytes of a `u64`.
pub open spec fn spec_u64_le(v: u64) -> Seq<u8> {
    seq![
        v as u8,
        (v >> 8u64) as u8,
        (v >> 16u64) as u8,
        (v >> 24u64) as u8,
        (v >> 32u64) as u8,
        (v >> 40u64) as u8,
        (v >> 48u64) as u8,
        (v >> 56u64) as u8,
    ]
}

/// Little-endian bytes of a `u32`.
pub open spec fn spec_u32_le(v: u32) -> Seq<u8> {
    seq![v as u8, (v >> 8u32) as u8, (v >> 16u32) as u8, (v >> 24u32) as u8]
}

pub open spec fn spec_le_to_u64(b0: u8, b1: u8, b2: u8, b3: u8, b4: u8, b5: u8, b6: u8, b7: u8) -> u64 {
    (b0 as u64) | ((b1 as u64) << 8u64) | ((b2 as u64) << 16u64) | ((b3 as u64) << 24u64) | ((b4 as u64) << 32u64)
        | ((b5 as u64) << 40u64) | ((b6 as u64) << 48u64) | ((b7 as u64) << 56u64)
}

pub open spec fn spec_le_to_u32(b0: u8, b1: u8, b2: u8, b3: u8) -> u32 {
    (b0 as u32) | ((b1 as u32) << 8u32) | ((b2 as u32) << 16u32) | ((b3 as u32) << 24u32)
}

/// The `u64` stored little-endian at `s[off..off + 8]`.
pub open spec fn spec_read_u64(s: Seq<u8>, off: int) -> u64 {
    spec_le_to_u64(s[off], s[off + 1], s[off + 2], s[off + 3], s[off + 4], s[off + 5], s[off + 6], s[off + 7])
}

/// The `u32` stored little-endian at `s[off..off + 4]`.
pub open spec fn spec_read_u32(s: Seq<u8>, off: int) -> u32 {
    spec_le_to_u32(s[off], s[off + 1], s[off + 2], s[off + 3])
}

pub proof fn lemma_u64_le_roundtrip(v: u64)
    ensures
        spec_le_to_u64(
            v as u8,
            (v >> 8u64) as u8,
            (v >> 16u64) as u8,
            (v >> 24u64) as u8,
            (v >> 32u64) as u8,
            (v >> 40u64) as u8,
            (v >> 48u64) as u8,
            (v >> 56u64) as u8,
        ) == v,
{
    assert((((v as u8) as u64) | ((((v >> 8u64) as u8) as u64) << 8u64) | ((((v >> 16u64) as u8) as u64) << 16u64)
        | ((((v >> 24u64) as u8) as u64) << 24u64) | ((((v >> 32u64) as u8) as u64) << 32u64) | ((((v
        >> 40u64) as u8) as u64) << 40u64) | ((((v >> 48u64) as u8) as u64) << 48u64) | ((((v >> 56u64) as u8)
        as u64) << 56u64)) == v) by (bit_vector);
}

pub proof fn lemma_u32_le_roundtrip(v: u32)
    ensures
        spec_le_to_u32(v as u8, (v >> 8u32) as u8, (v >> 16u32) as u8, (v >> 24u32) as u8) == v,
{
    assert((((v as u8) as u32) | ((((v >> 8u32) as u8) as u32) << 8u32) | ((((v >> 16u32) as u8) as u32) << 16u32)
        | ((((v >> 24u32) as u8) as u32) << 24u32)) == v) by (bit_vector);
}

fn push_u64_le(out: &mut Vec<u8>, v: u64)
    ensures
        final(out)@ == old(out)@ + spec_u64_le(v),
{
    out.push(v as u8);
    out.push((v >> 8) as u8);
    out.push((v >> 16) as u8);
    out.push((v >> 24) as u8);
    out.push((v >> 32) as u8);
    out.push((v >> 40) as u8);
    out.push((v >> 48) as u8);
    out.push((v >> 56) as u8);
    proof {
        assert(out@ =~= old(out)@ + spec_u64_le(v));
    }
}

fn push_u32_le(out: &mut Vec<u8>, v: u32)
    ensures
        final(out)@ == old(out)@ + spec_u32_le(v),
{
    out.push(v as u8);
    out.push((v >> 8) as u8);
    out.push((v >> 16) as u8);
    out.push((v >> 24) as u8);
    proof {
        assert(out@ =~= old(out)@ + spec_u32_le(v));
    }
}

pub(crate) fn read_u64(s: &[u8], off: usize) -> (r: u64)
    requires
        off + 8 <= s@.len(),
    ensures
        r == spec_read_u64(s@, off as int),
{
    (s[off] as u64) | ((s[off + 1] as u64) << 8) | ((s[off + 2] as u64) << 16) | ((s[off + 3] as u64) << 24)
        | ((s[off + 4] as u64) << 32) | ((s[off + 5] as u64) << 40) | ((s[off + 6] as u64) << 48) | ((s[off
        + 7] as u64) << 56)
}

fn read_u32(s: &[u8], off: usize) -> (r: u32)
    requires
        off + 4 <= s@.len(),
    ensures
        r == spec_read_u32(s@, off as int),
{
    (s[off] as u32) | ((s[off + 1] as u32) << 8) | ((s[off + 2] as u32) << 16) | ((s[off + 3] as u32) << 24)
}

pub open spec fn spec_kind_to_u8(kind: EntryKind) -> u8 {
    match kind {
        EntryKind::Positive => 0,
        EntryKind::NxDomain => 1,
        EntryKind::NoData => 2,
        EntryKind::ServFail => 3,
    }
}

pub open spec fn spec_u8_to_kind(v: u8) -> Result<EntryKind, LayoutError> {
    if v == 0 {
        Ok(EntryKind::Positive)
    } else if v == 1 {
        Ok(EntryKind::NxDomain)
    } else if v == 2 {
        Ok(EntryKind::NoData)
    } else if v == 3 {
        Ok(EntryKind::ServFail)
    } else {
        Err(LayoutError::UnknownKind(v))
    }
}

/// Stored byte of an entry kind.
pub fn kind_to_u8(kind: EntryKind) -> (r: u8)
    ensures
        r == spec_kind_to_u8(kind),
{
    match kind {
        EntryKind::Positive => 0,
        EntryKind::NxDomain => 1,
        EntryKind::NoData => 2,
        EntryKind::ServFail => 3,
    }
}

/// Entry kind of a stored byte; bytes above 3 are rejected.
pub fn u8_to_kind(v: u8) -> (r: Result<EntryKind, LayoutError>)
    ensures
        r == spec_u8_to_kind(v),
{
    match v {
        0 => Ok(EntryKind::Positive),
        1 => Ok(EntryKind::NxDomain),
        2 => Ok(EntryKind::NoData),
        3 => Ok(EntryKind::ServFail),
        other => Err(LayoutError::UnknownKind(other)),
    }
}

pub proof fn lemma_kind_roundtrip(kind: EntryKind)
    ensures
        spec_u8_to_kind(spec_kind_to_u8(kind)) == Ok::<EntryKind, LayoutError>(kind),
{
}

/// A decoded stored value: absolute Unix times and the answer.
#[derive(Debug, Clone)]
pub struct StoredEntry {
    pub filled_at_unix: u64,
    pub expires_at_unix: u64,
    pub kind: EntryKind,
    pub wire: Vec<u8>,
}

/// The stored value layout: filled-at and expires-at Unix seconds (LE u64),
/// the kind byte, the wire length (LE u32) and the wire.
pub open spec fn spec_encode_value(filled_at_unix: u64, expires_at_unix: u64, kind: EntryKind, wire: Seq<u8>) -> Seq<u8> {
    spec_u64_le(filled_at_unix) + spec_u64_le(expires_at_unix) + seq![spec_kind_to_u8(kind)] + spec_u32_le(
        wire.len() as u32,
    ) + wire
}

/// The stored Unix times of an entry encoded at `now` (wall clock `now_unix`):
/// its age and remaining lifetime move from instants to Unix seconds.
pub open spec fn spec_stored_times(entry: CacheEntry, now: Instant, now_unix: u64) -> (u64, u64) {
    let remaining = spec_ttl_remaining(entry.expires_at, now);
    let age = spec_secs_between(entry.filled_at, now);
    let filled = if now_unix - age < 0 { 0 } else { now_unix - age };
    let expires = if now_unix + remaining > u64::MAX { u64::MAX as int } else { now_unix + remaining };
    (filled as u64, expires as u64)
}

/// Encode an entry as a stored value, with Unix time `now_unix` standing for `now`.
pub fn encode_entry_at(entry: &CacheEntry, now: Instant, now_unix: u64) -> (r: Vec<u8>)
    ensures
        r@ == spec_encode_value(
            spec_stored_times(*entry, now, now_unix).0,
            spec_stored_times(*entry, now, now_unix).1,
            entry.kind,
            entry.wire@,
        ),
{
    let remaining = entry.ttl_remaining_secs(now) as u64;
    let age = now.saturating_secs_since(entry.filled_at);
    let filled_at_unix = now_unix.saturating_sub(age);
    let expires_at_unix = now_unix.saturating_add(remaining);
    let mut buf: Vec<u8> = Vec::new();
    push_u64_le(&mut buf, filled_at_unix);
    push_u64_le(&mut buf, expires_at_unix);
    buf.push(kind_to_u8(entry.kind));
    #[verifier::truncate]
    let wire_len = entry.wire.len() as u32;
    push_u32_le(&mut buf, wire_len);
    let mut i: usize = 0;
    let ghost head = buf@;
    while i < entry.wire.len()
        invariant
            0 <= i <= entry.wire@.len(),
            buf@ == head + entry.wire@.take(i as int),
        decreases entry.wire@.len() - i,
    {
        buf.push(entry.wire[i]);
        proof {
            assert(entry.wire@.take(i + 1) =~= entry.wire@.take(i as int).push(entry.wire@[i as int]));
        }
        i += 1;
    }
    proof {
        assert(entry.wire@.take(entry.wire@.len() as int) =~= entry.wire@);
        assert(buf@ =~= spec_encode_value(filled_at_unix, expires_at_unix, entry.kind, entry.wire@));
    }
    buf
}

/// Reads the system wall clock in whole seconds since the Unix epoch.
/// The value depends on the moment of the call; nothing is claimed about it.
#[verifier::external_body]
fn unix_now() -> u64 {
    match std::time::SystemTime::now().duration_since(std::time::UNIX_EPOCH) {
        Ok(d) => d.as_secs(),
        Err(_) => 0,
    }
}

/// Encode an entry as a stored value at `now`, reading the wall clock for
/// the Unix times.
pub fn encode_entry(entry: &CacheEntry, now: Instant) -> (r: Vec<u8>)
    ensures
        exists|now_unix: u64| #![auto] r@ == spec_encode_value(
            spec_stored_times(*entry, now, now_unix).0,
            spec_stored_times(*entry, now, now_unix).1,
            entry.kind,
            entry.wire@,
        ),
{
    let now_unix = unix_now();
    encode_entry_at(entry, now, now_unix)
}

/// Decoding of a stored value: `(filled_at_unix, expires_at_unix, kind, wire)`.
pub open spec fn spec_decode_value(raw: Seq<u8>) -> Result<(u64, u64, EntryKind, Seq<u8>), LayoutError> {
    if raw.len() < VALUE_HEADER_LEN {
        Err(LayoutError::ValueTooShort(raw.len() as usize))
    } else {
        match spec_u8_to_kind(raw[16]) {
            Err(e) => Err(e),
            Ok(kind) => {
                let wire_len = spec_read_u32(raw, 17);
                if raw.len() < VALUE_HEADER_LEN + wire_len {
                    Err(LayoutError::WireTruncated)
                } else {
                    Ok(
                        (
                            spec_read_u64(raw, 0),
                            spec_read_u64(raw, 8),
                            kind,
                            raw.subrange(VALUE_HEADER_LEN as int, VALUE_HEADER_LEN + wire_len),
                        ),
                    )
                }
            },
        }
    }
}

/// Decode a stored value, rejecting short values, unknown kinds and
/// truncated wires.
pub fn decode_value(raw: &[u8]) -> (r: Result<StoredEntry, LayoutError>)
    ensures
        match spec_decode_value(raw@) {
            Ok(v) => r matches Ok(st) && st.filled_at_unix == v.0 && st.expires_at_unix == v.1 && st.kind == v.2
                && st.wire@ == v.3,
            Err(e) => r == Err::<StoredEntry, LayoutError>(e),
        },
{
    if raw.len() < VALUE_HEADER_LEN {
        return Err(LayoutError::ValueTooShort(raw.len()));
    }
    let filled_at_unix = read_u64(raw, 0);
    let expires_at_unix = read_u64(raw, 8);
    let kind = match u8_to_kind(raw[16]) {
        Ok(k) => k,
        Err(e) => return Err(e),
    };
    let wire_len = read_u32(raw, 17) as usize;
    if raw.len() - VALUE_HEADER_LEN < wire_len {
        return Err(LayoutError::WireTruncated);
    }
    let mut wire: Vec<u8> = Vec::new();
    let mut i: usize = 0;
    while i < wire_len
        invariant
            0 <= i <= wire_len,
            VALUE_HEADER_LEN + wire_len <= raw@.len(),
            raw@.len() == raw.len(),
            wire@ == raw@.subrange(VALUE_HEADER_LEN as int, VALUE_HEADER_LEN + i),
        decreases wire_len - i,
    {
        wire.push(raw[VALUE_HEADER_LEN + i]);
        proof {
            assert(wire@ =~= raw@.subrange(VALUE_HEADER_LEN as int, VALUE_HEADER_LEN + i + 1));
        }
        i += 1;
    }
    Ok(StoredEntry { filled_at_unix, expires_at_unix, kind, wire })
}

/// Decoding an encoded value gives back the stored times, kind and wire.
pub proof fn lemma_value_roundtrip(filled_at_unix: u64, expires_at_unix: u64, kind: EntryKind, wire: Seq<u8>)
    requires
        wire.len() <= u32::MAX,
    ensures
        spec_decode_value(spec_encode_value(filled_at_unix, expires_at_unix, kind, wire)) == Ok::<
            (u64, u64, EntryKind, Seq<u8>),
            LayoutError,
        >((filled_at_unix, expires_at_unix, kind, wire)),
{
    let raw = spec_encode_value(filled_at_unix, expires_at_unix, kind, wire);
    lemma_u64_le_roundtrip(filled_at_unix);
    lemma_u64_le_roundtrip(expires_at_unix);
    lemma_u32_le_roundtrip(wire.len() as u32);
    assert(raw.len() == VALUE_HEADER_LEN + wire.len());
    assert(raw[16] == spec_kind_to_u8(kind));
    assert(spec_read_u64(raw, 0) == filled_at_unix);
    assert(spec_read_u64(raw, 8) == expires_at_unix);
    assert(spec_read_u32(raw, 17) == wire.len() as u32);
    assert(raw.subrange(VALUE_HEADER_LEN as int, VALUE_HEADER_LEN + wire.len()) =~= wire);
}

/// Format record check: the magic, then the version (LE u32).
pub open spec fn spec_verify_format(raw: Seq<u8>) -> Result<(), LayoutError> {
    if raw.len() < 8 || raw.subrange(0, 4) != FORMAT_MAGIC@ {
        Err(LayoutError::FormatMagic)
    } else if spec_read_u32(raw, 4) != FORMAT_VERSION {
        Err(LayoutError::FormatMismatch { found: spec_read_u32(raw, 4), expected: FORMAT_VERSION })
    } else {
        Ok(())
    }
}

/// Check a stored format record: mismatched environments fail closed.
pub fn verify_format(raw: &[u8]) -> (r: Result<(), LayoutError>)
    ensures
        r == spec_verify_format(raw@),
{
    if raw.len() < 8 || raw[0] != FORMAT_MAGIC[0] || raw[1] != FORMAT_MAGIC[1] || raw[2] != FORMAT_MAGIC[2]
        || raw[3] != FORMAT_MAGIC[3] {
        proof {
            if raw@.len() >= 8 {
                let m = FORMAT_MAGIC@;
                assert(raw@.subrange(0, 4)[0] == raw@[0]);
                assert(raw@.subrange(0, 4)[1] == raw@[1]);
                assert(raw@.subrange(0, 4)[2] == raw@[2]);
                assert(raw@.subrange(0, 4)[3] == raw@[3]);
            }
        }
        return Err(LayoutError::FormatMagic);
    }
    proof {
        assert(raw@.subrange(0, 4) =~= FORMAT_MAGIC@);
    }
    let found = read_u32(raw, 4);
    if found != FORMAT_VERSION {
        return Err(LayoutError::FormatMismatch { found, expected: FORMAT_VERSION });
    }
    Ok(())
}

/// The format record a new environment gets.
pub fn format_record() -> (r: Vec<u8>)
    ensures
        spec_verify_format(r@) == Ok::<(), LayoutError>(()),
{
    let mut out: Vec<u8> = Vec::new();
    out.push(FORMAT_MAGIC[0]);
    out.push(FORMAT_MAGIC[1]);
    out.push(FORMAT_MAGIC[2]);
    out.push(FORMAT_MAGIC[3]);
    push_u32_le(&mut out, FORMAT_VERSION);
    proof {
        lemma_u32_le_roundtrip(FORMAT_VERSION);
        assert(out@.subrange(0, 4) =~= FORMAT_MAGIC@);
    }
    out
}


/// The in-memory entry restored from a stored value at `now` (wall clock
/// `now_unix`): the remaining lifetime and age carry over from Unix seconds
/// to instants.
pub open spec fn spec_stored_to_entry(filled_at_unix: u64, expires_at_unix: u64, now: Instant, now_unix: u64) -> (Instant, Instant) {
    let remaining = if expires_at_unix < now_unix { 0 } else { (expires_at_unix - now_unix) as u64 };
    let age = if now_unix < filled_at_unix { 0 } else { (now_unix - filled_at_unix) as u64 };
    let filled = if now.nanos - age * NANOS_PER_SEC >= 0 {
        Instant { nanos: (now.nanos - age * NANOS_PER_SEC) as u64 }
    } else {
        now
    };
    (filled, spec_plus_secs(now, remaining))
}

/// Restore an in-memory entry from a decoded stored value.
pub fn stored_to_entry(stored: StoredEntry, now: Instant, now_unix: u64) -> (r: CacheEntry)
    ensures
        r.kind == stored.kind,
        r.wire@ == stored.wire@,
        (r.filled_at, r.expires_at) == spec_stored_to_entry(stored.filled_at_unix, stored.expires_at_unix, now, now_unix),
{
    let remaining = stored.expires_at_unix.saturating_sub(now_unix);
    let age = now_unix.saturating_sub(stored.filled_at_unix);
    let filled_at = match now.checked_minus_secs(age) {
        Some(t) => t,
        None => now,
    };
    CacheEntry { kind: stored.kind, wire: stored.wire, filled_at, expires_at: now.plus_secs(remaining) }
}

/// Storing an entry and restoring it at the same moment keeps its remaining
/// lifetime (when no clock value saturates).
pub proof fn lemma_store_restore_keeps_ttl(entry: CacheEntry, now: Instant, now_unix: u64)
    requires
        now_unix + spec_ttl_remaining(entry.expires_at, now) <= u64::MAX,
        now.nanos + spec_ttl_remaining(entry.expires_at, now) * NANOS_PER_SEC <= u64::MAX,
    ensures
        ({
            let (f, e) = spec_stored_times(entry, now, now_unix);
            let (_, exp) = spec_stored_to_entry(f, e, now, now_unix);
            spec_ttl_remaining(exp, now) == spec_ttl_remaining(entry.expires_at, now)
        }),
{
    let rem = spec_ttl_remaining(entry.expires_at, now);
    let (f, e) = spec_stored_times(entry, now, now_unix);
    assert(e == now_unix + rem);
    let (_, exp) = spec_stored_to_entry(f, e, now, now_unix);
    assert(exp.nanos == now.nanos + rem * NANOS_PER_SEC);
    assert((rem * NANOS_PER_SEC) / (NANOS_PER_SEC as int) == rem) by (nonlinear_arith);
}

/// The hash of a byte string under the standard library's default hasher
/// with its fixed keys. std documents that the algorithm may change between
/// releases, and hashing a slice also feeds its length as a `usize`, so the
/// value is fixed for one std release and one pointer width; the shard a
/// persisted key routes to rests on the same.
pub uninterp spec fn spec_default_hash(bytes: Seq<u8>) -> u64;

/// Hashes `bytes` with `std::collections::hash_map::DefaultHasher::new()`.
/// Trusted: the result is the named function of the bytes, nothing more.
#[verifier::external_body]
fn default_hash(bytes: &[u8]) -> (r: u64)
    ensures
        r == spec_default_hash(bytes@),
{
    let mut hasher = std::collections::hash_map::DefaultHasher::new();
    std::hash::Hash::hash(bytes, &mut hasher);
    std::hash::Hasher::finish(&hasher)
}

/// The shard that stores `key` among `n`: the key hash modulo `n`, so a key
/// routes to the same shard on every get and insert.
pub fn shard_index_for_key(key: &CacheKey, n: usize) -> (r: usize)
    requires
        n > 0,
    ensures
        r == (spec_default_hash(key.0@) as usize) % n,
        r < n,
{
    let h = default_hash(key.as_bytes());
    #[verifier::truncate]
    let hu = h as usize;
    hu % n
}

/// Name of the shard layout sidecar inside an LMDB cache directory.
pub const SIDECAR_FILE: &'static str = "conduit-lmdb-shards.json";

/// Directory a shard-count reopen builds the new layout in, beside the
/// operator's path.
pub fn shard_reopen_staging_dir(operator: &str) -> (r: String)
    ensures
        r@ == operator@ + ".conduit-lmdb-reopen"@,
{
    let mut s = owned(operator);
    s.append(".conduit-lmdb-reopen");
    s
}

/// Directory a shard-count reopen moves the previous layout to.
pub fn shard_reopen_abandoned_dir(operator: &str) -> (r: String)
    ensures
        r@ == operator@ + ".conduit-lmdb-abandoned"@,
{
    let mut s = owned(operator);
    s.append(".conduit-lmdb-abandoned");
    s
}

/// Environment directory of shard `index`: `<base>/shard-<index>`.
pub fn shard_file_path(base: &str, index: usize) -> (r: String)
    ensures
        r@ == spec_path_join(base@, "shard-"@ + spec_decimal(index as nat)),
{
    let mut name = owned("shard-");
    let digits = decimal(index as u64);
    name.append(digits.as_str());
    path_join(base, name.as_str())
}

/// Path of the shard layout sidecar: `<base>/conduit-lmdb-shards.json`.
pub fn sidecar_path(base: &str) -> (r: String)
    ensures
        r@ == spec_path_join(base@, SIDECAR_FILE@),
{
    path_join(base, SIDECAR_FILE)
}

/// Flush interval in whole milliseconds (truncated to 64 bits), at least one.
pub fn interval_millis(millis: u128) -> (r: u64)
    ensures
        r == (if millis as u64 == 0 { 1 } else { millis as u64 }),
{
    #[verifier::truncate]
    let m = millis as u64;
    if m == 0 { 1 } else { m }
}

} // verus!
