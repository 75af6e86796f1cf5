//! The decisions of the configuration apply path: where a proposal comes
//! from, how an overlay patch meets the accumulated overlay layer, and the
//! outcome reported to the proposer.

use vstd::prelude::*;

verus! {

/// Origin of a configuration proposal.
#[derive(Debug, Clone, Copy, PartialEq, Eq, Structural)]
pub enum ProposalSource {
    Grpc,
    File,
    Sighup,
}

impl ProposalSource {
    /// The source's name as operators see it in logs.
    pub fn as_str(&self) -> (r: &'static str)
        ensures
            r@ == (match *self {
                ProposalSource::Grpc => "grpc"@,
                ProposalSource::File => "file"@,
                ProposalSource::Sighup => "sighup"@,
            }),
    {
        match self {
            ProposalSource::Grpc => "grpc",
            ProposalSource::File => "file",
            ProposalSource::Sighup => "sighup",
        }
    }
}

/// How an API overlay patch is applied to the accumulated overlay layer.
#[derive(Debug, Clone, Copy, PartialEq, Eq, Structural)]
pub enum OverlayApplyMode {
    Merge,
    Replace,
    Clear,
}

impl Default for OverlayApplyMode {
    fn default() -> (r: OverlayApplyMode)
        ensures
            r == OverlayApplyMode::Merge,
    {
        OverlayApplyMode::Merge
    }
}

/// One status/effect note attached to an apply outcome.
#[derive(Debug, Clone)]
pub struct ApplyStatusNote {
    pub kind: String,
    pub message: String,
}

/// Outcome of a single apply attempt.
#[derive(Debug, Clone)]
pub struct ApplyResult {
    pub ok: bool,
    pub errors: Vec<String>,
    pub generation: u64,
    /// Effect / pending-reconcile notes; empty for fully hot applies.
    pub notes: Vec<ApplyStatusNote>,
}

impl ApplyResult {
    /// A rejected apply: the errors, and the generation still in force.
    pub fn rejected(errors: Vec<String>, generation: u64) -> (r: ApplyResult)
        ensures
            !r.ok,
            r.errors@ == errors@,
            r.generation == generation,
            r.notes@.len() == 0,
    {
        ApplyResult { ok: false, errors, generation, notes: Vec::new() }
    }

    /// A successful apply at the new generation.
    pub fn applied(generation: u64) -> (r: ApplyResult)
        ensures
            r.ok,
            r.errors@.len() == 0,
            r.generation == generation,
            r.notes@.len() == 0,
    {
        ApplyResult { ok: true, errors: Vec::new(), generation, notes: Vec::new() }
    }
}

/// Whether preparing a proposal re-reads the configuration file: a file or
/// SIGHUP proposal that carries no document, no overlay and no primitive.
pub open spec fn spec_rereads_file(
    source: ProposalSource,
    has_file_reload: bool,
    has_overlay: bool,
    has_primitive: bool,
) -> bool {
    !has_file_reload && (source == ProposalSource::File || source == ProposalSource::Sighup) && !has_overlay
        && !has_primitive
}

/// Whether preparing a proposal re-reads the configuration file.
pub fn rereads_file(source: ProposalSource, has_file_reload: bool, has_overlay: bool, has_primitive: bool) -> (r: bool)
    ensures
        r == spec_rereads_file(source, has_file_reload, has_overlay, has_primitive),
{
    !has_file_reload && (match source {
        ProposalSource::File | ProposalSource::Sighup => true,
        ProposalSource::Grpc => false,
    }) && !has_overlay && !has_primitive
}

/// How a proposal edits the layers after an optional file reload: through
/// its primitive, through its overlay patch (gRPC only), or not at all.
#[derive(Debug, Clone, Copy, PartialEq, Eq, Structural)]
pub enum ProposalEdit {
    Primitive,
    Overlay,
    Untouched,
}

/// The edit a proposal makes: a primitive wins; otherwise a gRPC proposal
/// applies its overlay mode.
pub fn proposal_edit(source: ProposalSource, has_primitive: bool) -> (r: ProposalEdit)
    ensures
        r == (if has_primitive {
            ProposalEdit::Primitive
        } else if source == ProposalSource::Grpc {
            ProposalEdit::Overlay
        } else {
            ProposalEdit::Untouched
        }),
{
    if has_primitive {
        ProposalEdit::Primitive
    } else {
        match source {
            ProposalSource::Grpc => ProposalEdit::Overlay,
            _ => ProposalEdit::Untouched,
        }
    }
}

/// What an overlay apply does to the overlay layer, once the patch has
/// passed the forbidden-field check.
#[derive(Debug, Clone, Copy, PartialEq, Eq, Structural)]
pub enum OverlayStep {
    /// Drop the overlay layer.
    ClearOverlay,
    /// Leave the overlay layer as it is.
    KeepOverlay,
    /// The patch becomes the overlay layer.
    InstallPatch,
    /// The patch is merged into the existing overlay layer.
    MergeIntoExisting,
    /// A replace apply without a patch.
    RejectReplaceWithoutPatch,
    /// A merge apply without a patch.
    RejectMergeWithoutPatch,
}

/// The overlay step for `mode`, given whether the proposal carries a patch,
/// whether that patch is empty, and whether an overlay layer exists.
pub open spec fn spec_overlay_step(mode: OverlayApplyMode, has_patch: bool, patch_empty: bool, has_existing: bool) -> OverlayStep {
    match mode {
        OverlayApplyMode::Clear => OverlayStep::ClearOverlay,
        OverlayApplyMode::Replace => if !has_patch {
            OverlayStep::RejectReplaceWithoutPatch
        } else if patch_empty {
            OverlayStep::ClearOverlay
        } else {
            OverlayStep::InstallPatch
        },
        OverlayApplyMode::Merge => if !has_patch {
            OverlayStep::RejectMergeWithoutPatch
        } else if patch_empty {
            OverlayStep::KeepOverlay
        } else if has_existing {
            OverlayStep::MergeIntoExisting
        } else {
            OverlayStep::InstallPatch
        },
    }
}

/// Decide the overlay step of an apply.
pub fn overlay_step(mode: OverlayApplyMode, has_patch: bool, patch_empty: bool, has_existing: bool) -> (r: OverlayStep)
    ensures
        r == spec_overlay_step(mode, has_patch, patch_empty, has_existing),
{
    match mode {
        OverlayApplyMode::Clear => OverlayStep::ClearOverlay,
        OverlayApplyMode::Replace => {
            if !has_patch {
                OverlayStep::RejectReplaceWithoutPatch
            } else if patch_empty {
                OverlayStep::ClearOverlay
            } else {
                OverlayStep::InstallPatch
            }
        },
        OverlayApplyMode::Merge => {
            if !has_patch {
                OverlayStep::RejectMergeWithoutPatch
            } else if patch_empty {
                OverlayStep::KeepOverlay
            } else if has_existing {
                OverlayStep::MergeIntoExisting
            } else {
                OverlayStep::InstallPatch
            }
        },
    }
}

impl OverlayStep {
    /// The error message of a rejected step, `None` for the others.
    pub fn rejection(&self) -> (r: Option<&'static str>)
        ensures
            r is Some <==> (*self == OverlayStep::RejectReplaceWithoutPatch || *self
                == OverlayStep::RejectMergeWithoutPatch),
            *self == OverlayStep::RejectReplaceWithoutPatch ==> r.unwrap()@ == "replace apply requires overlay"@,
            *self == OverlayStep::RejectMergeWithoutPatch ==> r.unwrap()@ == "merge apply requires overlay"@,
    {
        match self {
            OverlayStep::RejectReplaceWithoutPatch => Some("replace apply requires overlay"),
            OverlayStep::RejectMergeWithoutPatch => Some("merge apply requires overlay"),
            _ => None,
        }
    }
}

/// A clear apply never keeps an overlay, whatever the proposal carries; an
/// empty patch never installs anything.
pub proof fn lemma_clear_and_empty_patches(mode: OverlayApplyMode, has_patch: bool, has_existing: bool)
    ensures
        spec_overlay_step(OverlayApplyMode::Clear, has_patch, true, has_existing) == OverlayStep::ClearOverlay,
        spec_overlay_step(OverlayApplyMode::Clear, has_patch, false, has_existing) == OverlayStep::ClearOverlay,
        has_patch ==> spec_overlay_step(mode, has_patch, true, has_existing) != OverlayStep::InstallPatch
            && spec_overlay_step(mode, has_patch, true, has_existing) != OverlayStep::MergeIntoExisting,
{
}

} // verus!
