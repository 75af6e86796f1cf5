//! Detecting the shard layout an LMDB cache path holds: the sidecar that
//! records the shard count, a single-environment layout of earlier
//! releases, or nothing. Anything else fails closed.

use vstd::prelude::*;
use vstd::string::StringExecFns;
use crate::lookup::cache::lmdb::OnDiskLayout;
use crate::text::{decimal, owned, spec_decimal};

verus! {

/// Shard layout version the sidecar must record.
pub const SHARD_LAYOUT_VERSION: u64 = 1;

/// The fields of a shard sidecar that layout detection reads.
#[derive(Debug, Clone, Copy, PartialEq, Eq, Structural)]
pub struct SidecarFields {
    pub version: Option<u64>,
    pub shard_count: Option<u64>,
}

/// The sidecar fields serde_json reads from `raw`, or its parse error message.
pub uninterp spec fn spec_sidecar_fields(raw: Seq<char>) -> Result<(Option<u64>, Option<u64>), Seq<char>>;

/// Parses `raw` with `serde_json::from_str::<serde_json::Value>` and reads
/// `"version"` and `"shard_count"` with `as_u64`; a parse error becomes its
/// `to_string()`. Trusted: the result is the named function of the text.
#[verifier::external_body]
fn parse_sidecar(raw: &str) -> (r: Result<SidecarFields, String>)
    ensures
        spec_sidecar_fields(raw@) == (match r {
            Ok(f) => Ok((f.version, f.shard_count)),
            Err(e) => Err(e@),
        }),
{
    let v: serde_json::Value = serde_json::from_str(raw).map_err(|e| e.to_string())?;
    Ok(SidecarFields {
        version: v.get("version").and_then(|x| x.as_u64()),
        shard_count: v.get("shard_count").and_then(|x| x.as_u64()),
    })
}

/// Why a cache path's layout was refused.
#[derive(Debug, Clone, PartialEq, Eq)]
pub enum LayoutProblem {
    /// The sidecar is not JSON (with the parser's message).
    InvalidJson(String),
    MissingVersion,
    UnsupportedVersion(u64),
    MissingShardCount,
    ShardCountOutOfRange(u64),
    /// The sidecar's shard count is `n` but shard file `path` is missing.
    MissingShardFile { n: u32, path: String },
    /// A `shard-*` entry without a sidecar.
    StrayShardFile(String),
}

impl LayoutProblem {
    /// The operator-facing message.
    pub fn message(&self) -> (r: String)
        ensures
            match self {
                LayoutProblem::InvalidJson(e) => r@ == "invalid shard sidecar JSON: "@ + e@,
                LayoutProblem::MissingVersion => r@ == "shard sidecar missing version"@,
                LayoutProblem::UnsupportedVersion(v) => r@ == "unsupported shard layout version "@ + spec_decimal(
                    *v as nat,
                ) + " (expected 1)"@,
                LayoutProblem::MissingShardCount => r@ == "shard sidecar missing shard_count"@,
                LayoutProblem::ShardCountOutOfRange(n) => r@ == "shard sidecar shard_count "@ + spec_decimal(*n as nat)
                    + " out of range"@,
                LayoutProblem::MissingShardFile { n, path } => r@ == "shard sidecar claims N="@ + spec_decimal(
                    *n as nat,
                ) + " but missing file "@ + path@,
                LayoutProblem::StrayShardFile(name) => r@ == "found shard file '"@ + name@
                    + "' without sidecar; repair or recreate the cache path"@,
            },
    {
        match self {
            LayoutProblem::InvalidJson(e) => {
                let mut s = owned("invalid shard sidecar JSON: ");
                s.append(e.as_str());
                s
            },
            LayoutProblem::MissingVersion => owned("shard sidecar missing version"),
            LayoutProblem::UnsupportedVersion(v) => {
                let mut s = owned("unsupported shard layout version ");
                let d = decimal(*v);
                s.append(d.as_str());
                s.append(" (expected 1)");
                s
            },
            LayoutProblem::MissingShardCount => owned("shard sidecar missing shard_count"),
            LayoutProblem::ShardCountOutOfRange(n) => {
                let mut s = owned("shard sidecar shard_count ");
                let d = decimal(*n);
                s.append(d.as_str());
                s.append(" out of range");
                s
            },
            LayoutProblem::MissingShardFile { n, path } => {
                let mut s = owned("shard sidecar claims N=");
                let d = decimal(*n as u64);
                s.append(d.as_str());
                s.append(" but missing file ");
                s.append(path.as_str());
                s
            },
            LayoutProblem::StrayShardFile(name) => {
                let mut s = owned("found shard file '");
                s.append(name.as_str());
                s.append("' without sidecar; repair or recreate the cache path");
                s
            },
        }
    }
}

/// The shard count a sidecar's fields record, checked: the version must be
/// the supported one and the count within `[1, max]`.
pub open spec fn spec_sidecar_count(version: Option<u64>, shard_count: Option<u64>, max: u32) -> Result<u32, LayoutProblem> {
    match version {
        None => Err(LayoutProblem::MissingVersion),
        Some(v) => if v != SHARD_LAYOUT_VERSION {
            Err(LayoutProblem::UnsupportedVersion(v))
        } else {
            match shard_count {
                None => Err(LayoutProblem::MissingShardCount),
                Some(n) => if n == 0 || n > max {
                    Err(LayoutProblem::ShardCountOutOfRange(n))
                } else {
                    Ok(n as u32)
                },
            }
        },
    }
}

/// The shard count the sidecar text `raw` records, checked as above.
pub fn sidecar_shard_count(raw: &str, max: u32) -> (r: Result<u32, LayoutProblem>)
    ensures
        match spec_sidecar_fields(raw@) {
            Err(e) => r matches Err(LayoutProblem::InvalidJson(m)) && m@ == e,
            Ok((v, n)) => r == spec_sidecar_count(v, n, max),
        },
{
    let fields = match parse_sidecar(raw) {
        Ok(f) => f,
        Err(e) => return Err(LayoutProblem::InvalidJson(e)),
    };
    let v = match fields.version {
        None => return Err(LayoutProblem::MissingVersion),
        Some(v) => v,
    };
    if v != SHARD_LAYOUT_VERSION {
        return Err(LayoutProblem::UnsupportedVersion(v));
    }
    let n = match fields.shard_count {
        None => return Err(LayoutProblem::MissingShardCount),
        Some(n) => n,
    };
    if n == 0 || n > max as u64 {
        return Err(LayoutProblem::ShardCountOutOfRange(n));
    }
    Ok(n as u32)
}

/// Whether `name` starts with `shard-`.
pub open spec fn spec_is_shard_name(name: Seq<char>) -> bool {
    name.len() >= 6 && name.subrange(0, 6) == "shard-"@
}

fn is_shard_name(name: &str) -> (r: bool)
    ensures
        r == spec_is_shard_name(name@),
{
    proof {
        reveal_strlit("shard-");
    }
    let n = name.unicode_len();
    if n < 6 {
        return false;
    }
    let mut i: usize = 0;
    let prefix = "shard-";
    while i < 6
        invariant
            n == name@.len(),
            n >= 6,
            prefix@ == "shard-"@,
            prefix@.len() == 6,
            i <= 6,
            forall|j: int| 0 <= j < i ==> name@[j] == prefix@[j],
        decreases 6 - i,
    {
        if name.get_char(i) != prefix.get_char(i) {
            proof {
                assert(name@.subrange(0, 6)[i as int] != "shard-"@[i as int]);
            }
            return false;
        }
        i = i + 1;
    }
    proof {
        assert(name@.subrange(0, 6) =~= "shard-"@);
    }
    true
}

/// The layout of a path without a sidecar, from whether it holds the
/// single-environment files (`data.mdb`, `lock.mdb`) and the names of its
/// entries: legacy, else refused at the first `shard-*` entry, else empty.
pub fn layout_without_sidecar(legacy_files: bool, entry_names: &Vec<String>) -> (r: Result<OnDiskLayout, LayoutProblem>)
    ensures
        legacy_files ==> r == Ok::<OnDiskLayout, LayoutProblem>(OnDiskLayout::Legacy),
        !legacy_files && (forall|i: int| 0 <= i < entry_names@.len() ==> !spec_is_shard_name(#[trigger] entry_names@[i]@))
            ==> r == Ok::<OnDiskLayout, LayoutProblem>(OnDiskLayout::Empty),
        !legacy_files ==> (r matches Err(LayoutProblem::StrayShardFile(name)) ==> exists|i: int|
            0 <= i < entry_names@.len() && entry_names@[i]@ == name@ && spec_is_shard_name(name@) && forall|j: int|
                0 <= j < i ==> !spec_is_shard_name(#[trigger] entry_names@[j]@)),
        !legacy_files ==> (r is Ok <==> forall|i: int| 0 <= i < entry_names@.len() ==> !spec_is_shard_name(
            #[trigger] entry_names@[i]@,
        )),
{
    if legacy_files {
        return Ok(OnDiskLayout::Legacy);
    }
    let mut i: usize = 0;
    while i < entry_names.len()
        invariant
            !legacy_files,
            i <= entry_names@.len(),
            forall|j: int| 0 <= j < i ==> !spec_is_shard_name(#[trigger] entry_names@[j]@),
        decreases entry_names@.len() - i,
    {
        if is_shard_name(entry_names[i].as_str()) {
            return Err(LayoutProblem::StrayShardFile(owned(entry_names[i].as_str())));
        }
        i = i + 1;
    }
    Ok(OnDiskLayout::Empty)
}

} // verus!
