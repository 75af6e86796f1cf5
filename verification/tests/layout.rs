use conduit_core::lookup::cache::layout::{layout_without_sidecar, sidecar_shard_count, LayoutProblem};
use conduit_core::lookup::cache::lmdb::OnDiskLayout;

#[test]
fn sidecar_records_checked_shard_count() {
    assert_eq!(sidecar_shard_count(r#"{"version":1,"shard_count":8,"generated_by":"dnsconduit"}"#, 64), Ok(8));
    assert_eq!(sidecar_shard_count(r#"{"shard_count":8}"#, 64), Err(LayoutProblem::MissingVersion));
    assert_eq!(sidecar_shard_count(r#"{"version":2,"shard_count":8}"#, 64), Err(LayoutProblem::UnsupportedVersion(2)));
    assert_eq!(sidecar_shard_count(r#"{"version":1}"#, 64), Err(LayoutProblem::MissingShardCount));
    assert_eq!(sidecar_shard_count(r#"{"version":1,"shard_count":0}"#, 64), Err(LayoutProblem::ShardCountOutOfRange(0)));
    assert_eq!(sidecar_shard_count(r#"{"version":1,"shard_count":65}"#, 64), Err(LayoutProblem::ShardCountOutOfRange(65)));
    assert!(matches!(sidecar_shard_count("not json", 64), Err(LayoutProblem::InvalidJson(_))));
}

#[test]
fn path_without_sidecar() {
    assert_eq!(layout_without_sidecar(true, &vec!["shard-0".into()]), Ok(OnDiskLayout::Legacy));
    assert_eq!(layout_without_sidecar(false, &vec!["notes".into(), "x".into()]), Ok(OnDiskLayout::Empty));
    assert_eq!(
        layout_without_sidecar(false, &vec!["notes".into(), "shard-3".into(), "shard-4".into()]),
        Err(LayoutProblem::StrayShardFile("shard-3".into()))
    );
    assert_eq!(layout_without_sidecar(false, &vec!["shard".into()]), Ok(OnDiskLayout::Empty));
}

#[test]
fn layout_problem_messages() {
    assert_eq!(LayoutProblem::MissingVersion.message(), "shard sidecar missing version");
    assert_eq!(LayoutProblem::UnsupportedVersion(2).message(), "unsupported shard layout version 2 (expected 1)");
    assert_eq!(LayoutProblem::ShardCountOutOfRange(65).message(), "shard sidecar shard_count 65 out of range");
    assert_eq!(
        LayoutProblem::MissingShardFile { n: 4, path: "/c/shard-2".into() }.message(),
        "shard sidecar claims N=4 but missing file /c/shard-2"
    );
    assert_eq!(
        LayoutProblem::StrayShardFile("shard-9".into()).message(),
        "found shard file 'shard-9' without sidecar; repair or recreate the cache path"
    );
    assert_eq!(LayoutProblem::InvalidJson("eof".into()).message(), "invalid shard sidecar JSON: eof");
}
