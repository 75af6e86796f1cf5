use conduit_core::configurator::{
    overlay_step, proposal_edit, rereads_file, ApplyResult, OverlayApplyMode, OverlayStep, ProposalEdit,
    ProposalSource,
};

#[test]
fn proposal_source_names() {
    assert_eq!(ProposalSource::Grpc.as_str(), "grpc");
    assert_eq!(ProposalSource::File.as_str(), "file");
    assert_eq!(ProposalSource::Sighup.as_str(), "sighup");
}

#[test]
fn overlay_mode_defaults_to_merge() {
    assert_eq!(OverlayApplyMode::default(), OverlayApplyMode::Merge);
}

#[test]
fn apply_results() {
    let r = ApplyResult::rejected(vec!["no backends".to_string()], 7);
    assert!(!r.ok);
    assert_eq!(r.errors, vec!["no backends".to_string()]);
    assert_eq!(r.generation, 7);
    assert!(r.notes.is_empty());
    let a = ApplyResult::applied(8);
    assert!(a.ok && a.errors.is_empty() && a.generation == 8 && a.notes.is_empty());
}

#[test]
fn file_and_sighup_reread_only_without_payload() {
    assert!(rereads_file(ProposalSource::File, false, false, false));
    assert!(rereads_file(ProposalSource::Sighup, false, false, false));
    assert!(!rereads_file(ProposalSource::Grpc, false, false, false));
    assert!(!rereads_file(ProposalSource::File, true, false, false));
    assert!(!rereads_file(ProposalSource::File, false, true, false));
    assert!(!rereads_file(ProposalSource::Sighup, false, false, true));
}

#[test]
fn primitive_wins_over_overlay() {
    assert_eq!(proposal_edit(ProposalSource::Grpc, true), ProposalEdit::Primitive);
    assert_eq!(proposal_edit(ProposalSource::Grpc, false), ProposalEdit::Overlay);
    assert_eq!(proposal_edit(ProposalSource::File, false), ProposalEdit::Untouched);
}

#[test]
fn overlay_steps() {
    assert_eq!(overlay_step(OverlayApplyMode::Clear, false, false, true), OverlayStep::ClearOverlay);
    assert_eq!(overlay_step(OverlayApplyMode::Replace, false, false, true), OverlayStep::RejectReplaceWithoutPatch);
    assert_eq!(overlay_step(OverlayApplyMode::Replace, true, true, true), OverlayStep::ClearOverlay);
    assert_eq!(overlay_step(OverlayApplyMode::Replace, true, false, true), OverlayStep::InstallPatch);
    assert_eq!(overlay_step(OverlayApplyMode::Merge, false, false, false), OverlayStep::RejectMergeWithoutPatch);
    assert_eq!(overlay_step(OverlayApplyMode::Merge, true, true, true), OverlayStep::KeepOverlay);
    assert_eq!(overlay_step(OverlayApplyMode::Merge, true, false, true), OverlayStep::MergeIntoExisting);
    assert_eq!(overlay_step(OverlayApplyMode::Merge, true, false, false), OverlayStep::InstallPatch);
    assert_eq!(OverlayStep::RejectReplaceWithoutPatch.rejection(), Some("replace apply requires overlay"));
    assert_eq!(OverlayStep::RejectMergeWithoutPatch.rejection(), Some("merge apply requires overlay"));
    assert_eq!(OverlayStep::KeepOverlay.rejection(), None);
}
