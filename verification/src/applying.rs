//! `apply`: merging a worktree into the host directory.
//!
//! The merge is planned first. A plan with a conflict is reported and nothing
//! is written. The layer is only cleared, and the snapshot only replaced, once
//! every change is in the host directory and no process can be writing to the
//! layer.

use vstd::prelude::*;
use crate::backend::{recover_stale_mount, Recovery};
use crate::diffing;
use crate::number;
use crate::number::decimal_text;
use crate::order;
use crate::state;
use crate::state::{json_file, sanitize_display, MetaView, Status, WorktreeMeta};
use crate::steps;
use crate::text;
use crate::text::{cat2, cat3, cat4, cat5, join_text, put};

verus! {

/// Why a worktree is not merged.
#[derive(Clone, Copy, Debug, PartialEq, Eq, Structural)]
pub enum ApplyRefusal {
    /// A process of the worktree runs.
    Running,
    /// Something else is mounted on the target.
    ForeignMount,
    /// The target cannot be read.
    ScanFailed,
    /// A deletion would be lost: the snapshot does not have what it deletes.
    LostDeletion,
    /// Paths equal paths of the host but for case.
    CaseCollision,
    /// A process started while the merge was planned.
    StartedWhilePlanning,
    /// The target was mounted while the merge was planned.
    MountedAgain,
    /// A process started while the merge was written.
    StartedWhileWriting,
    /// The worktree was dropped while the merge was written.
    StateRemoved,
    /// The system refused; its error is the result.
    System,
}

/// What `apply` asks for next.
#[derive(Clone, Copy, Debug, PartialEq, Eq, Structural)]
pub enum ApplyAsk {
    /// Find the worktree and read its metadata.
    Open,
    /// Remove what crashed merges left beside the target.
    Sweep,
    /// Does a process of the worktree run?
    CheckRunning,
    /// Is the target mounted, and does the worktree prove that to be a
    /// leftover?
    ProbeMount,
    /// Take the leftover mount down.
    Recover,
    /// Read the snapshot.
    LoadBase,
    /// Read the whole host directory.
    ScanTarget,
    /// Would a deletion be lost?
    CheckDeletions,
    /// Find what the worktree makes of the snapshot.
    Effective,
    /// Do paths equal paths of the host but for case?
    CheckCase,
    /// Plan the merge.
    Plan,
    /// Show the plan.
    ShowPlan { clean: bool },
    /// Show the conflicts.
    ShowConflicts,
    /// Does a process of the worktree run?
    RecheckRunning,
    /// Is the target mounted?
    RecheckMounted,
    /// Write the changes to the host directory.
    Execute,
    /// Does a process of the worktree run, or is the target mounted?
    CheckAfterExecute,
    /// Take the new snapshot.
    Rescan,
    /// Does a process of the worktree run, or is the target mounted?
    CheckAfterRescan,
    /// Is the worktree still there?
    CheckState,
    /// Replace the snapshot.
    WriteBase,
    /// Remove the layer, as far as that works.
    ClearLayer,
    /// Make the layer again.
    MakeLayer,
    /// Record that the worktree is applied.
    WriteMeta,
    /// Report what was done.
    Report,
    /// The command is over, with this exit code.
    Exit(i32),
    Refuse(ApplyRefusal),
}

/// What came of it.
#[derive(Clone, Copy, Debug, PartialEq, Eq, Structural)]
pub enum ApplyReply {
    Yes,
    No,
    Mount { mounted: bool, stale_run: bool, real_exists: bool },
    Planned { conflicts: usize },
}

/// What the command was asked, and on which host.
#[derive(Clone, Copy, Debug, PartialEq, Eq, Structural)]
pub struct ApplyMode {
    /// Only show the plan.
    pub dry_run: bool,
    /// The host's file names do not differ by case alone.
    pub folds_case: bool,
}

/// The step after a step of `apply`.
pub open spec fn apply_next(mode: ApplyMode, ask: ApplyAsk, reply: ApplyReply) -> ApplyAsk {
    let fail = ApplyAsk::Refuse(ApplyRefusal::System);
    match ask {
        ApplyAsk::Open => if reply is Yes {
            ApplyAsk::Sweep
        } else {
            fail
        },
        ApplyAsk::Sweep => ApplyAsk::CheckRunning,
        ApplyAsk::CheckRunning => if reply is No {
            ApplyAsk::ProbeMount
        } else {
            ApplyAsk::Refuse(ApplyRefusal::Running)
        },
        ApplyAsk::ProbeMount => match reply {
            ApplyReply::Mount { mounted, stale_run, real_exists } => if !mounted {
                ApplyAsk::LoadBase
            } else if stale_run || real_exists {
                ApplyAsk::Recover
            } else {
                ApplyAsk::Refuse(ApplyRefusal::ForeignMount)
            },
            _ => fail,
        },
        ApplyAsk::Recover => if reply is Yes {
            ApplyAsk::LoadBase
        } else {
            fail
        },
        ApplyAsk::LoadBase => if reply is Yes {
            ApplyAsk::ScanTarget
        } else {
            fail
        },
        ApplyAsk::ScanTarget => if reply is Yes {
            ApplyAsk::CheckDeletions
        } else {
            ApplyAsk::Refuse(ApplyRefusal::ScanFailed)
        },
        ApplyAsk::CheckDeletions => if reply is No {
            ApplyAsk::Effective
        } else {
            ApplyAsk::Refuse(ApplyRefusal::LostDeletion)
        },
        ApplyAsk::Effective => if !(reply is Yes) {
            fail
        } else if mode.folds_case {
            ApplyAsk::CheckCase
        } else {
            ApplyAsk::Plan
        },
        ApplyAsk::CheckCase => if reply is No {
            ApplyAsk::Plan
        } else {
            ApplyAsk::Refuse(ApplyRefusal::CaseCollision)
        },
        ApplyAsk::Plan => match reply {
            ApplyReply::Planned { conflicts } => if mode.dry_run {
                ApplyAsk::ShowPlan { clean: conflicts == 0 }
            } else if conflicts > 0 {
                ApplyAsk::ShowConflicts
            } else {
                ApplyAsk::RecheckRunning
            },
            _ => fail,
        },
        ApplyAsk::ShowPlan { clean } => if clean {
            ApplyAsk::Exit(0)
        } else {
            ApplyAsk::Exit(3)
        },
        ApplyAsk::ShowConflicts => ApplyAsk::Exit(3),
        ApplyAsk::RecheckRunning => if reply is No {
            ApplyAsk::RecheckMounted
        } else {
            ApplyAsk::Refuse(ApplyRefusal::StartedWhilePlanning)
        },
        ApplyAsk::RecheckMounted => if reply is No {
            ApplyAsk::Execute
        } else {
            ApplyAsk::Refuse(ApplyRefusal::MountedAgain)
        },
        ApplyAsk::Execute => if reply is Yes {
            ApplyAsk::CheckAfterExecute
        } else {
            fail
        },
        ApplyAsk::CheckAfterExecute => if reply is No {
            ApplyAsk::Rescan
        } else {
            ApplyAsk::Refuse(ApplyRefusal::StartedWhileWriting)
        },
        ApplyAsk::Rescan => if reply is Yes {
            ApplyAsk::CheckAfterRescan
        } else {
            fail
        },
        ApplyAsk::CheckAfterRescan => if reply is No {
            ApplyAsk::CheckState
        } else {
            ApplyAsk::Refuse(ApplyRefusal::StartedWhileWriting)
        },
        ApplyAsk::CheckState => if reply is Yes {
            ApplyAsk::WriteBase
        } else {
            ApplyAsk::Refuse(ApplyRefusal::StateRemoved)
        },
        ApplyAsk::WriteBase => if reply is Yes {
            ApplyAsk::ClearLayer
        } else {
            fail
        },
        ApplyAsk::ClearLayer => ApplyAsk::MakeLayer,
        ApplyAsk::MakeLayer => if reply is Yes {
            ApplyAsk::WriteMeta
        } else {
            fail
        },
        ApplyAsk::WriteMeta => if reply is Yes {
            ApplyAsk::Report
        } else {
            fail
        },
        ApplyAsk::Report => ApplyAsk::Exit(0),
        ApplyAsk::Exit(c) => ApplyAsk::Exit(c),
        ApplyAsk::Refuse(e) => ApplyAsk::Refuse(e),
    }
}

/// The command `apply`, one step at a time.
pub fn apply(mode: ApplyMode, ask: ApplyAsk, reply: ApplyReply) -> (r: ApplyAsk)
    ensures
        r == apply_next(mode, ask, reply),
{
    let fail = ApplyAsk::Refuse(ApplyRefusal::System);
    let yes = match reply {
        ApplyReply::Yes => true,
        _ => false,
    };
    let no = match reply {
        ApplyReply::No => true,
        _ => false,
    };
    match ask {
        ApplyAsk::Open => if yes {
            ApplyAsk::Sweep
        } else {
            fail
        },
        ApplyAsk::Sweep => ApplyAsk::CheckRunning,
        ApplyAsk::CheckRunning => if no {
            ApplyAsk::ProbeMount
        } else {
            ApplyAsk::Refuse(ApplyRefusal::Running)
        },
        ApplyAsk::ProbeMount => match reply {
            ApplyReply::Mount { mounted, stale_run, real_exists } => match recover_stale_mount(
                mounted,
                stale_run,
                real_exists,
            ) {
                Recovery::NotMounted => ApplyAsk::LoadBase,
                Recovery::Unmount => ApplyAsk::Recover,
                Recovery::Refuse => ApplyAsk::Refuse(ApplyRefusal::ForeignMount),
            },
            _ => fail,
        },
        ApplyAsk::Recover => if yes {
            ApplyAsk::LoadBase
        } else {
            fail
        },
        ApplyAsk::LoadBase => if yes {
            ApplyAsk::ScanTarget
        } else {
            fail
        },
        ApplyAsk::ScanTarget => if yes {
            ApplyAsk::CheckDeletions
        } else {
            ApplyAsk::Refuse(ApplyRefusal::ScanFailed)
        },
        ApplyAsk::CheckDeletions => if no {
            ApplyAsk::Effective
        } else {
            ApplyAsk::Refuse(ApplyRefusal::LostDeletion)
        },
        ApplyAsk::Effective => if !yes {
            fail
        } else if mode.folds_case {
            ApplyAsk::CheckCase
        } else {
            ApplyAsk::Plan
        },
        ApplyAsk::CheckCase => if no {
            ApplyAsk::Plan
        } else {
            ApplyAsk::Refuse(ApplyRefusal::CaseCollision)
        },
        ApplyAsk::Plan => match reply {
            ApplyReply::Planned { conflicts } => if mode.dry_run {
                ApplyAsk::ShowPlan { clean: conflicts == 0 }
            } else if conflicts > 0 {
                ApplyAsk::ShowConflicts
            } else {
                ApplyAsk::RecheckRunning
            },
            _ => fail,
        },
        ApplyAsk::ShowPlan { clean } => if clean {
            ApplyAsk::Exit(0)
        } else {
            ApplyAsk::Exit(3)
        },
        ApplyAsk::ShowConflicts => ApplyAsk::Exit(3),
        ApplyAsk::RecheckRunning => if no {
            ApplyAsk::RecheckMounted
        } else {
            ApplyAsk::Refuse(ApplyRefusal::StartedWhilePlanning)
        },
        ApplyAsk::RecheckMounted => if no {
            ApplyAsk::Execute
        } else {
            ApplyAsk::Refuse(ApplyRefusal::MountedAgain)
        },
        ApplyAsk::Execute => if yes {
            ApplyAsk::CheckAfterExecute
        } else {
            fail
        },
        ApplyAsk::CheckAfterExecute => if no {
            ApplyAsk::Rescan
        } else {
            ApplyAsk::Refuse(ApplyRefusal::StartedWhileWriting)
        },
        ApplyAsk::Rescan => if yes {
            ApplyAsk::CheckAfterRescan
        } else {
            fail
        },
        ApplyAsk::CheckAfterRescan => if no {
            ApplyAsk::CheckState
        } else {
            ApplyAsk::Refuse(ApplyRefusal::StartedWhileWriting)
        },
        ApplyAsk::CheckState => if yes {
            ApplyAsk::WriteBase
        } else {
            ApplyAsk::Refuse(ApplyRefusal::StateRemoved)
        },
        ApplyAsk::WriteBase => if yes {
            ApplyAsk::ClearLayer
        } else {
            fail
        },
        ApplyAsk::ClearLayer => ApplyAsk::MakeLayer,
        ApplyAsk::MakeLayer => if yes {
            ApplyAsk::WriteMeta
        } else {
            fail
        },
        ApplyAsk::WriteMeta => if yes {
            ApplyAsk::Report
        } else {
            fail
        },
        ApplyAsk::Report => ApplyAsk::Exit(0),
        ApplyAsk::Exit(c) => ApplyAsk::Exit(c),
        ApplyAsk::Refuse(e) => ApplyAsk::Refuse(e),
    }
}

/// The steps of `apply`, with what came of each.
pub open spec fn apply_trace(mode: ApplyMode, t: Seq<(ApplyAsk, ApplyReply)>) -> bool {
    &&& t.len() > 0 ==> t[0].0 is Open
    &&& forall|i: int|
        0 <= i && i + 1 < t.len() ==> (#[trigger] t[i + 1]).0 == apply_next(mode, t[i].0, t[i].1)
}

/// How far a merge has come: how many steps at most lie behind it.
pub open spec fn stage(ask: ApplyAsk) -> int {
    match ask {
        ApplyAsk::Open => 0,
        ApplyAsk::Sweep => 1,
        ApplyAsk::CheckRunning => 2,
        ApplyAsk::ProbeMount => 3,
        ApplyAsk::Recover => 4,
        ApplyAsk::LoadBase => 5,
        ApplyAsk::ScanTarget => 6,
        ApplyAsk::CheckDeletions => 7,
        ApplyAsk::Effective => 8,
        ApplyAsk::CheckCase => 9,
        ApplyAsk::Plan => 10,
        ApplyAsk::ShowPlan { clean } => 11,
        ApplyAsk::ShowConflicts => 11,
        ApplyAsk::RecheckRunning => 11,
        ApplyAsk::RecheckMounted => 12,
        ApplyAsk::Execute => 13,
        ApplyAsk::CheckAfterExecute => 14,
        ApplyAsk::Rescan => 15,
        ApplyAsk::CheckAfterRescan => 16,
        ApplyAsk::CheckState => 17,
        ApplyAsk::WriteBase => 18,
        ApplyAsk::ClearLayer => 19,
        ApplyAsk::MakeLayer => 20,
        ApplyAsk::WriteMeta => 21,
        ApplyAsk::Report => 22,
        ApplyAsk::Exit(_) => 23,
        ApplyAsk::Refuse(_) => 23,
    }
}

/// The command ends: after 23 steps at most, the merge is over or refused.
pub proof fn law_apply_ends(mode: ApplyMode, t: Seq<(ApplyAsk, ApplyReply)>, i: int)
    requires
        apply_trace(mode, t),
        0 <= i < t.len(),
    ensures
        stage(t[i].0) >= i || stage(t[i].0) == 23,
    decreases i,
{
    if i > 0 {
        law_apply_ends(mode, t, i - 1);
        assert(t[i - 1 + 1].0 == apply_next(mode, t[i - 1].0, t[i - 1].1));
    }
}

/// The host directory is only written where the merge was planned without a
/// conflict and not as a dry run, and where, after planning and right before
/// writing, no process of the worktree ran and the target was not mounted.
pub proof fn law_only_clean_merges_write(mode: ApplyMode, t: Seq<(ApplyAsk, ApplyReply)>, i: int)
    requires
        apply_trace(mode, t),
        0 <= i < t.len(),
        t[i].0 is Execute,
    ensures
        !mode.dry_run,
        i >= 3,
        t[i - 1] == (ApplyAsk::RecheckMounted, ApplyReply::No),
        t[i - 2] == (ApplyAsk::RecheckRunning, ApplyReply::No),
        t[i - 3] == (ApplyAsk::Plan, ApplyReply::Planned { conflicts: 0 }),
{
    assert(i > 0);
    assert(t[i - 1 + 1].0 == apply_next(mode, t[i - 1].0, t[i - 1].1));
    assert(i - 1 > 0);
    assert(t[i - 2 + 1].0 == apply_next(mode, t[i - 2].0, t[i - 2].1));
    assert(i - 2 > 0);
    assert(t[i - 3 + 1].0 == apply_next(mode, t[i - 3].0, t[i - 3].1));
}

/// A step that changes the host directory, the snapshot, the layer or the
/// metadata.
pub open spec fn writes(ask: ApplyAsk) -> bool {
    ask is Execute || ask is WriteBase || ask is ClearLayer || ask is MakeLayer || ask is WriteMeta
}

/// A merge with a conflict, and a dry run, write nothing: neither before the
/// plan nor after it. A merge with a conflict exits with 3, and so does a dry
/// run of one.
pub proof fn law_conflict_writes_nothing(
    mode: ApplyMode,
    t: Seq<(ApplyAsk, ApplyReply)>,
    p: int,
    i: int,
)
    requires
        apply_trace(mode, t),
        0 <= p < t.len(),
        0 <= i < t.len(),
        t[p].0 is Plan,
        t[p].1 matches ApplyReply::Planned { conflicts } && (conflicts > 0 || mode.dry_run),
    ensures
        !writes(t[i].0),
        t[i].0 matches ApplyAsk::Exit(c) ==> c == if t[p].1->conflicts > 0 {
            3i32
        } else {
            0i32
        },
    decreases (if i > p {
        i - p
    } else {
        0
    }),
{
    if i <= p {
        lemma_stage_order(mode, t, i, p);
    } else if i == p + 1 {
        assert(t[p + 1].0 == apply_next(mode, t[p].0, t[p].1));
    } else {
        law_conflict_writes_nothing(mode, t, p, i - 1);
        assert(t[i - 1 + 1].0 == apply_next(mode, t[i - 1].0, t[i - 1].1));
        if i == p + 2 {
            assert(t[p + 1].0 == apply_next(mode, t[p].0, t[p].1));
        } else {
            lemma_after_show(mode, t, p, i - 1);
        }
    }
}

proof fn lemma_stage_order(mode: ApplyMode, t: Seq<(ApplyAsk, ApplyReply)>, i: int, k: int)
    requires
        apply_trace(mode, t),
        0 <= i <= k < t.len(),
        t[k].0 is Plan,
    ensures
        stage(t[i].0) <= 10,
    decreases k - i,
{
    if i < k {
        lemma_stage_grows(mode, t, i, k);
    }
}

proof fn lemma_stage_grows(mode: ApplyMode, t: Seq<(ApplyAsk, ApplyReply)>, i: int, k: int)
    requires
        apply_trace(mode, t),
        0 <= i <= k < t.len(),
    ensures
        stage(t[i].0) <= stage(t[k].0),
    decreases k - i,
{
    if i < k {
        lemma_stage_grows(mode, t, i, k - 1);
        assert(t[k - 1 + 1].0 == apply_next(mode, t[k - 1].0, t[k - 1].1));
    }
}

proof fn lemma_after_show(mode: ApplyMode, t: Seq<(ApplyAsk, ApplyReply)>, p: int, i: int)
    requires
        apply_trace(mode, t),
        0 <= p,
        p + 2 <= i < t.len(),
        t[p].0 is Plan,
        t[p].1 matches ApplyReply::Planned { conflicts } && (conflicts > 0 || mode.dry_run),
    ensures
        t[i].0 is Exit,
    decreases i,
{
    assert(t[i - 1 + 1].0 == apply_next(mode, t[i - 1].0, t[i - 1].1));
    if i == p + 2 {
        assert(t[p + 1].0 == apply_next(mode, t[p].0, t[p].1));
    } else {
        lemma_after_show(mode, t, p, i - 1);
    }
}

/// The layer is only removed, and the snapshot only replaced, after the host
/// directory was written in full, and after a check, made once the writing and
/// the new snapshot were done, that no process runs that could have written to
/// the layer, and that the worktree is still there.
pub proof fn law_layer_outlives_the_merge(mode: ApplyMode, t: Seq<(ApplyAsk, ApplyReply)>, i: int)
    requires
        apply_trace(mode, t),
        0 <= i < t.len(),
        t[i].0 is WriteBase || t[i].0 is ClearLayer,
    ensures
        exists|j: int|
            3 <= j && j + 5 <= i && #[trigger] t[j] == (ApplyAsk::Execute, ApplyReply::Yes) && t[j
                + 1] == (ApplyAsk::CheckAfterExecute, ApplyReply::No) && t[j + 2] == (
                ApplyAsk::Rescan,
                ApplyReply::Yes,
            ) && t[j + 3] == (ApplyAsk::CheckAfterRescan, ApplyReply::No) && t[j + 4] == (
                ApplyAsk::CheckState,
                ApplyReply::Yes,
            ),
{
    let w = if t[i].0 is WriteBase {
        i
    } else {
        i - 1
    };
    assert(i > 0);
    assert(t[i - 1 + 1].0 == apply_next(mode, t[i - 1].0, t[i - 1].1));
    assert(t[w].0 is WriteBase);
    assert(w > 0);
    assert(t[w - 1 + 1].0 == apply_next(mode, t[w - 1].0, t[w - 1].1));
    assert(w - 1 > 0);
    assert(t[w - 2 + 1].0 == apply_next(mode, t[w - 2].0, t[w - 2].1));
    assert(w - 2 > 0);
    assert(t[w - 3 + 1].0 == apply_next(mode, t[w - 3].0, t[w - 3].1));
    assert(w - 3 > 0);
    assert(t[w - 4 + 1].0 == apply_next(mode, t[w - 4].0, t[w - 4].1));
    assert(w - 4 > 0);
    assert(t[w - 5 + 1].0 == apply_next(mode, t[w - 5].0, t[w - 5].1));
    law_only_clean_merges_write(mode, t, w - 5);
    let j = w - 5;
    assert(t[j] == (ApplyAsk::Execute, ApplyReply::Yes));
    assert(t[j + 1] == (ApplyAsk::CheckAfterExecute, ApplyReply::No));
    assert(t[j + 2] == (ApplyAsk::Rescan, ApplyReply::Yes));
    assert(t[j + 3] == (ApplyAsk::CheckAfterRescan, ApplyReply::No));
    assert(t[j + 4] == (ApplyAsk::CheckState, ApplyReply::Yes));
}

/// A merge that exits with 0 and was no dry run is complete: the plan had no
/// conflict and was written in full, the new snapshot replaced the old one, and
/// then the layer was removed and made again, and the metadata was written. What
/// a comparison starts from is the merged host directory and a new layer.
pub proof fn law_applied_is_complete(mode: ApplyMode, t: Seq<(ApplyAsk, ApplyReply)>, i: int)
    requires
        apply_trace(mode, t),
        0 <= i < t.len(),
        t[i].0 == ApplyAsk::Exit(0),
        !mode.dry_run,
    ensures
        exists|j: int|
            3 <= j && j + 10 <= i && t[j - 3] == (
                ApplyAsk::Plan,
                ApplyReply::Planned { conflicts: 0 },
            ) && #[trigger] t[j] == (ApplyAsk::Execute, ApplyReply::Yes) && t[j + 2] == (
                ApplyAsk::Rescan,
                ApplyReply::Yes,
            ) && t[j + 5] == (ApplyAsk::WriteBase, ApplyReply::Yes) && t[j + 6].0 is ClearLayer
                && t[j + 7] == (ApplyAsk::MakeLayer, ApplyReply::Yes) && t[j + 8] == (
                ApplyAsk::WriteMeta,
                ApplyReply::Yes,
            ) && t[j + 9].0 is Report,
    decreases i,
{
    assert(i > 0);
    assert(t[i - 1 + 1].0 == apply_next(mode, t[i - 1].0, t[i - 1].1));
    if t[i - 1].0 is Exit {
        law_applied_is_complete(mode, t, i - 1);
    } else if t[i - 1].0 is ShowPlan {
        assert(i - 1 > 0);
        assert(t[i - 2 + 1].0 == apply_next(mode, t[i - 2].0, t[i - 2].1));
    } else {
        assert(t[i - 1].0 is Report);
        assert(i - 1 > 0);
        assert(t[i - 2 + 1].0 == apply_next(mode, t[i - 2].0, t[i - 2].1));
        assert(i - 2 > 0);
        assert(t[i - 3 + 1].0 == apply_next(mode, t[i - 3].0, t[i - 3].1));
        assert(i - 3 > 0);
        assert(t[i - 4 + 1].0 == apply_next(mode, t[i - 4].0, t[i - 4].1));
        assert(i - 4 > 0);
        assert(t[i - 5 + 1].0 == apply_next(mode, t[i - 5].0, t[i - 5].1));
        law_layer_outlives_the_merge(mode, t, i - 5);
        let w = i - 5;
        assert(t[w].0 is WriteBase);
        assert(w > 0);
        assert(t[w - 1 + 1].0 == apply_next(mode, t[w - 1].0, t[w - 1].1));
        assert(w - 1 > 0);
        assert(t[w - 2 + 1].0 == apply_next(mode, t[w - 2].0, t[w - 2].1));
        assert(w - 2 > 0);
        assert(t[w - 3 + 1].0 == apply_next(mode, t[w - 3].0, t[w - 3].1));
        assert(w - 3 > 0);
        assert(t[w - 4 + 1].0 == apply_next(mode, t[w - 4].0, t[w - 4].1));
        assert(w - 4 > 0);
        assert(t[w - 5 + 1].0 == apply_next(mode, t[w - 5].0, t[w - 5].1));
        law_only_clean_merges_write(mode, t, w - 5);
        let j = w - 5;
        assert(t[j] == (ApplyAsk::Execute, ApplyReply::Yes));
    }
}

/// The layer may hold changes after the first `n` steps of `apply`. Removing it
/// leaves it without any, and making it again adds none.
pub open spec fn may_hold_changes(t: Seq<(ApplyAsk, ApplyReply)>, n: int) -> bool
    decreases n,
{
    n <= 0 || (t[n - 1] != (ApplyAsk::ClearLayer, ApplyReply::Yes) && may_hold_changes(t, n - 1))
}

proof fn lemma_cleared(t: Seq<(ApplyAsk, ApplyReply)>, k: int, n: int)
    requires
        0 <= k < n,
        t[k] == (ApplyAsk::ClearLayer, ApplyReply::Yes),
    ensures
        !may_hold_changes(t, n),
    decreases n,
{
    if k < n - 1 {
        lemma_cleared(t, k, n - 1);
    }
}

/// Right after a merge that exits with 0, was no dry run and could remove the
/// layer, the layer holds no change. Where the engine reports no change for such
/// a layer, `diff` says so: to people that there are no changes, and to programs
/// an empty list.
pub proof fn law_diff_after_apply(
    mode: ApplyMode,
    t: Seq<(ApplyAsk, ApplyReply)>,
    i: int,
    changes: Seq<diffing::FileChange>,
    written: Seq<char>,
    stat: bool,
)
    requires
        apply_trace(mode, t),
        0 <= i < t.len(),
        t[i].0 == ApplyAsk::Exit(0),
        !mode.dry_run,
        forall|k: int|
            0 <= k < i && (#[trigger] t[k]).0 is ClearLayer ==> t[k].1 is Yes,
        !may_hold_changes(t, i) ==> changes.len() == 0,
    ensures
        !may_hold_changes(t, i),
        diffing::human(changes, stat) == seq!["no changes"@],
        diffing::machine(changes.len(), written) == "[]"@,
{
    law_applied_is_complete(mode, t, i);
    let j = choose|j: int|
        3 <= j && j + 10 <= i && #[trigger] t[j] == (ApplyAsk::Execute, ApplyReply::Yes) && t[j
            + 6].0 is ClearLayer;
    lemma_cleared(t, j + 6, i);
}

/// What was found before a merge could be planned, whatever the mode: the
/// worktree was opened, what crashed merges left was swept, no process of it ran,
/// its target was not mounted, or by a leftover that was taken down, the snapshot
/// and the target were read, no deletion would be lost, and, where the host folds
/// case, no path collides.
pub open spec fn plannable(mode: ApplyMode, t: Seq<(ApplyAsk, ApplyReply)>, n: int) -> bool {
    &&& steps::did(t, n, ApplyAsk::Open, ApplyReply::Yes)
    &&& steps::asked(t, n, ApplyAsk::Sweep)
    &&& steps::did(t, n, ApplyAsk::CheckRunning, ApplyReply::No)
    &&& steps::did(t, n, ApplyAsk::Recover, ApplyReply::Yes) || exists|j: int|
        0 <= j < n && (#[trigger] t[j]).0 is ProbeMount && (t[j].1 matches ApplyReply::Mount {
            mounted,
            stale_run: _,
            real_exists: _,
        } && !mounted)
    &&& steps::did(t, n, ApplyAsk::LoadBase, ApplyReply::Yes)
    &&& steps::did(t, n, ApplyAsk::ScanTarget, ApplyReply::Yes)
    &&& steps::did(t, n, ApplyAsk::CheckDeletions, ApplyReply::No)
    &&& steps::did(t, n, ApplyAsk::Effective, ApplyReply::Yes)
    &&& mode.folds_case ==> steps::did(t, n, ApplyAsk::CheckCase, ApplyReply::No)
}

/// A merge, or a dry run of one, goes past the check for a running process only
/// where that was answered with no: a plan is neither shown nor carried out while
/// a process of the worktree runs. Whatever is planned was found fit for it.
pub proof fn law_only_at_rest(mode: ApplyMode, t: Seq<(ApplyAsk, ApplyReply)>, i: int)
    requires
        apply_trace(mode, t),
        0 <= i < t.len(),
    ensures
        !(t[i].0 is Open) && !(t[i].0 is Sweep) && !(t[i].0 is CheckRunning) && !(t[i].0 is Refuse)
            ==> steps::did(t, i, ApplyAsk::CheckRunning, ApplyReply::No),
        t[i].0 is Plan || t[i].0 is ShowPlan || t[i].0 is ShowConflicts || t[i].0 is Execute
            || t[i].0 is Exit ==> plannable(mode, t, i),
        t[i].0 is ShowPlan ==> mode.dry_run,
        t[i].0 is ShowConflicts ==> !mode.dry_run,
        t[i].0 is CheckCase ==> mode.folds_case,
{
    lemma_apply_so_far(mode, t, i);
}

/// Whatever the mode, nothing but the refusal of a running worktree follows the
/// check for a running process unless that was answered with no.
pub proof fn law_running_is_not_merged(
    mode: ApplyMode,
    t: Seq<(ApplyAsk, ApplyReply)>,
    i: int,
    k: int,
)
    requires
        apply_trace(mode, t),
        0 <= i < k < t.len(),
        t[i].0 is CheckRunning,
    ensures
        t[k].0 != ApplyAsk::Refuse(ApplyRefusal::Running) ==> t[i].1 is No,
        t[i].1 is No ==> t[i + 1].0 is ProbeMount,
    decreases k - i,
{
    assert(t[k - 1 + 1].0 == apply_next(mode, t[k - 1].0, t[k - 1].1));
    assert((t[i + 1]).0 == apply_next(mode, t[i].0, t[i].1));
    if i + 1 < k {
        law_running_is_not_merged(mode, t, i, k - 1);
    }
}

proof fn lemma_apply_so_far(mode: ApplyMode, t: Seq<(ApplyAsk, ApplyReply)>, i: int)
    requires
        apply_trace(mode, t),
        0 <= i < t.len(),
    ensures
        !(t[i].0 is Refuse) && stage(t[i].0) >= 1 ==> steps::did(
            t,
            i,
            ApplyAsk::Open,
            ApplyReply::Yes,
        ),
        !(t[i].0 is Refuse) && stage(t[i].0) >= 2 ==> steps::asked(t, i, ApplyAsk::Sweep),
        !(t[i].0 is Refuse) && stage(t[i].0) >= 3 ==> steps::did(
            t,
            i,
            ApplyAsk::CheckRunning,
            ApplyReply::No,
        ),
        !(t[i].0 is Refuse) && stage(t[i].0) >= 5 ==> steps::did(
            t,
            i,
            ApplyAsk::Recover,
            ApplyReply::Yes,
        ) || exists|j: int|
            0 <= j < i && (#[trigger] t[j]).0 is ProbeMount && (t[j].1 matches ApplyReply::Mount {
                mounted,
                stale_run: _,
                real_exists: _,
            } && !mounted),
        !(t[i].0 is Refuse) && stage(t[i].0) >= 6 ==> steps::did(
            t,
            i,
            ApplyAsk::LoadBase,
            ApplyReply::Yes,
        ),
        !(t[i].0 is Refuse) && stage(t[i].0) >= 7 ==> steps::did(
            t,
            i,
            ApplyAsk::ScanTarget,
            ApplyReply::Yes,
        ),
        !(t[i].0 is Refuse) && stage(t[i].0) >= 8 ==> steps::did(
            t,
            i,
            ApplyAsk::CheckDeletions,
            ApplyReply::No,
        ),
        !(t[i].0 is Refuse) && stage(t[i].0) >= 9 ==> steps::did(
            t,
            i,
            ApplyAsk::Effective,
            ApplyReply::Yes,
        ),
        !(t[i].0 is Refuse) && stage(t[i].0) >= 10 && mode.folds_case ==> steps::did(
            t,
            i,
            ApplyAsk::CheckCase,
            ApplyReply::No,
        ),
        t[i].0 is ShowPlan ==> mode.dry_run,
        t[i].0 is ShowConflicts ==> !mode.dry_run,
        t[i].0 is CheckCase ==> mode.folds_case,
    decreases i,
{
    if i > 0 {
        lemma_apply_so_far(mode, t, i - 1);
        let (a, r) = t[i - 1];
        assert(t[i - 1 + 1].0 == apply_next(mode, a, r));
        assert(t[i - 1] == (a, r));
        if exists|j: int|
            0 <= j < i - 1 && (#[trigger] t[j]).0 is ProbeMount && (t[j].1
                matches ApplyReply::Mount { mounted, stale_run: _, real_exists: _ } && !mounted) {
            let j = choose|j: int|
                0 <= j < i - 1 && (#[trigger] t[j]).0 is ProbeMount && (t[j].1
                    matches ApplyReply::Mount { mounted, stale_run: _, real_exists: _ }
                    && !mounted);
            assert(t[j].0 is ProbeMount);
        }
    }
}

/// An answer for which `apply` gives this refusal.
pub open spec fn stops_for(e: ApplyRefusal, ask: ApplyAsk, reply: ApplyReply) -> bool {
    match ask {
        ApplyAsk::CheckRunning => e is Running && !(reply is No),
        ApplyAsk::ProbeMount => (e is ForeignMount && reply == (ApplyReply::Mount {
            mounted: true,
            stale_run: false,
            real_exists: false,
        })) || (e is System && !(reply is Mount)),
        ApplyAsk::ScanTarget => e is ScanFailed && !(reply is Yes),
        ApplyAsk::CheckDeletions => e is LostDeletion && !(reply is No),
        ApplyAsk::CheckCase => e is CaseCollision && !(reply is No),
        ApplyAsk::RecheckRunning => e is StartedWhilePlanning && !(reply is No),
        ApplyAsk::RecheckMounted => e is MountedAgain && !(reply is No),
        ApplyAsk::CheckAfterExecute => e is StartedWhileWriting && !(reply is No),
        ApplyAsk::CheckAfterRescan => e is StartedWhileWriting && !(reply is No),
        ApplyAsk::CheckState => e is StateRemoved && !(reply is Yes),
        ApplyAsk::Plan => e is System && !(reply is Planned),
        ApplyAsk::Open => e is System && !(reply is Yes),
        ApplyAsk::Recover => e is System && !(reply is Yes),
        ApplyAsk::LoadBase => e is System && !(reply is Yes),
        ApplyAsk::Effective => e is System && !(reply is Yes),
        ApplyAsk::Execute => e is System && !(reply is Yes),
        ApplyAsk::Rescan => e is System && !(reply is Yes),
        ApplyAsk::WriteBase => e is System && !(reply is Yes),
        ApplyAsk::MakeLayer => e is System && !(reply is Yes),
        ApplyAsk::WriteMeta => e is System && !(reply is Yes),
        _ => false,
    }
}

/// A merge is refused for a reason, and for no other than the one it gives.
pub proof fn law_apply_is_refused_for_a_reason(
    mode: ApplyMode,
    t: Seq<(ApplyAsk, ApplyReply)>,
    i: int,
)
    requires
        apply_trace(mode, t),
        0 <= i < t.len(),
    ensures
        t[i].0 matches ApplyAsk::Refuse(e) ==> exists|j: int|
            0 <= j < i && stops_for(e, (#[trigger] t[j]).0, t[j].1),
    decreases i,
{
    if i > 0 {
        law_apply_is_refused_for_a_reason(mode, t, i - 1);
        let (a, r) = t[i - 1];
        assert(t[i - 1 + 1].0 == apply_next(mode, a, r));
        if let ApplyAsk::Refuse(e) = t[i].0 {
            if a is Refuse {
                let j = choose|j: int| 0 <= j < i - 1 && stops_for(e, (#[trigger] t[j]).0, t[j].1);
                assert(t[j] == t[j]);
            } else {
                assert(t[i - 1] == (a, r));
            }
        }
    }
}

/// An answer that lets a merge go on.
pub open spec fn goes_on(ask: ApplyAsk, reply: ApplyReply) -> bool {
    match ask {
        ApplyAsk::CheckRunning => reply is No,
        ApplyAsk::ProbeMount => reply matches ApplyReply::Mount { mounted, stale_run, real_exists }
            && (!mounted || stale_run || real_exists),
        ApplyAsk::CheckDeletions => reply is No,
        ApplyAsk::CheckCase => reply is No,
        ApplyAsk::Plan => reply == (ApplyReply::Planned { conflicts: 0 }),
        ApplyAsk::RecheckRunning => reply is No,
        ApplyAsk::RecheckMounted => reply is No,
        ApplyAsk::CheckAfterExecute => reply is No,
        ApplyAsk::CheckAfterRescan => reply is No,
        _ => reply is Yes,
    }
}

/// Where every answer lets it go on, a merge goes through: it is never refused,
/// and after 23 steps it has exited with 0. Any other answer to a check stops it:
/// the next step is a refusal, or, at the plan, the report of the conflicts.
pub proof fn law_apply_goes_through(mode: ApplyMode, t: Seq<(ApplyAsk, ApplyReply)>, i: int)
    requires
        apply_trace(mode, t),
        0 <= i < t.len(),
    ensures
        (forall|j: int| 0 <= j < i ==> goes_on((#[trigger] t[j]).0, t[j].1)) ==> !(t[i].0 is Refuse)
            && !(t[i].0 is ShowConflicts) && (t[i].0 matches ApplyAsk::ShowPlan { clean } ==> clean)
            && (t[i].0 matches ApplyAsk::Exit(c) ==> c == 0) && (i >= 23 ==> t[i].0
            == ApplyAsk::Exit(0)),
        i + 1 < t.len() && !goes_on(t[i].0, t[i].1) && !(t[i].0 is Sweep) && !(t[i].0 is ClearLayer)
            && !(t[i].0 is Report) && !(t[i].0 is ShowPlan) && !(t[i].0 is ShowConflicts) && !(
        t[i].0 is Exit) && !(t[i].0 is Plan) ==> t[i + 1].0 is Refuse,
        i + 1 < t.len() && t[i].0 is Plan ==> (t[i].1 matches ApplyReply::Planned { conflicts }
            ==> t[i + 1].0 == if mode.dry_run {
            ApplyAsk::ShowPlan { clean: conflicts == 0 }
        } else if conflicts > 0 {
            ApplyAsk::ShowConflicts
        } else {
            ApplyAsk::RecheckRunning
        }),
    decreases i,
{
    law_apply_ends(mode, t, i);
    if i > 0 {
        law_apply_goes_through(mode, t, i - 1);
        assert(t[i - 1 + 1].0 == apply_next(mode, t[i - 1].0, t[i - 1].1));
        assert(t[i - 1] == t[i - 1]);
    }
    if i + 1 < t.len() {
        assert(t[i + 1].0 == apply_next(mode, t[i].0, t[i].1));
    }
}

/// The exit code of a merge is 0 or 3, and it is 3 exactly where the plan has a
/// conflict, which is then reported.
pub proof fn law_apply_exit_code(mode: ApplyMode, t: Seq<(ApplyAsk, ApplyReply)>, i: int)
    requires
        apply_trace(mode, t),
        0 <= i < t.len(),
    ensures
        t[i].0 matches ApplyAsk::Exit(c) ==> (c == 0 && steps::did(
            t,
            i,
            ApplyAsk::Plan,
            ApplyReply::Planned { conflicts: 0 },
        )) || (c == 3 && exists|j: int|
            0 <= j < i && (#[trigger] t[j]).0 is Plan && (t[j].1 matches ApplyReply::Planned {
                conflicts,
            } && conflicts > 0)),
        t[i].0 matches ApplyAsk::ShowPlan { clean } ==> (clean ==> steps::did(
            t,
            i,
            ApplyAsk::Plan,
            ApplyReply::Planned { conflicts: 0 },
        )) && (!clean ==> exists|j: int|
            0 <= j < i && (#[trigger] t[j]).0 is Plan && (t[j].1 matches ApplyReply::Planned {
                conflicts,
            } && conflicts > 0)),
        t[i].0 is ShowConflicts ==> exists|j: int|
            0 <= j < i && (#[trigger] t[j]).0 is Plan && (t[j].1 matches ApplyReply::Planned {
                conflicts,
            } && conflicts > 0),
        !(t[i].0 is Exit) && !(t[i].0 is ShowPlan) && !(t[i].0 is ShowConflicts) && !(
        t[i].0 is Refuse) && stage(t[i].0) > 10 ==> steps::did(
            t,
            i,
            ApplyAsk::Plan,
            ApplyReply::Planned { conflicts: 0 },
        ),
    decreases i,
{
    if i > 0 {
        law_apply_exit_code(mode, t, i - 1);
        let (a, r) = t[i - 1];
        assert(t[i - 1 + 1].0 == apply_next(mode, a, r));
        assert(t[i - 1] == (a, r));
        if exists|j: int|
            0 <= j < i - 1 && (#[trigger] t[j]).0 is Plan && (t[j].1 matches ApplyReply::Planned {
                conflicts,
            } && conflicts > 0) {
            let j = choose|j: int|
                0 <= j < i - 1 && (#[trigger] t[j]).0 is Plan && (t[j].1
                    matches ApplyReply::Planned { conflicts } && conflicts > 0);
            assert(t[j].0 is Plan);
        }
    }
}

// ------------------------------------------------------------------ reports

/// A change that a merge makes in the host directory.
#[derive(Debug)]
pub enum PlanOp {
    WriteFile(String),
    WriteSymlink { path: String, target: String },
    Mkdir(String),
    Delete(String),
}

/// A path that the host and the worktree both changed, each in its own way.
#[derive(Debug)]
pub struct Conflict {
    pub kind: String,
    pub path: String,
    pub base_hash: Option<String>,
    pub current_hash: Option<String>,
    pub work_hash: Option<String>,
}

/// A planned merge.
#[derive(Debug)]
pub struct MergePlan {
    pub operations: Vec<PlanOp>,
    pub conflicts: Vec<Conflict>,
    /// The paths that only the host changed.
    pub kept: Vec<String>,
}

impl MergePlan {
    /// The merge has no conflict.
    pub fn is_clean(&self) -> (r: bool)
        ensures
            r == (self.conflicts@.len() == 0),
    {
        self.conflicts.len() == 0
    }
}

/// The line for a planned change.
pub open spec fn op_line(o: PlanOp) -> Seq<char> {
    match o {
        PlanOp::WriteFile(p) => "  write  "@ + state::shown(p@),
        PlanOp::WriteSymlink { path, target } => "  symlink "@ + state::shown(path@) + " -> "@
            + state::shown(target@),
        PlanOp::Mkdir(p) => "  mkdir  "@ + state::shown(p@),
        PlanOp::Delete(p) => "  delete "@ + state::shown(p@),
    }
}

/// A hash, or a dash where there is none.
pub open spec fn hash_or_dash(h: Option<String>) -> Seq<char> {
    match h {
        Some(s) => s@,
        None => "-"@,
    }
}

/// The line for a conflict, after the word that it starts with.
pub open spec fn conflict_line(word: Seq<char>, c: Conflict) -> Seq<char> {
    word + " ["@ + c.kind@ + "] "@ + state::shown(c.path@) + " (base="@ + hash_or_dash(c.base_hash)
        + ", current="@ + hash_or_dash(c.current_hash) + ", worktree="@ + hash_or_dash(c.work_hash)
        + ")"@
}

/// The line for a path that is kept.
pub open spec fn kept_line(p: Seq<char>) -> Seq<char> {
    "  keep   "@ + state::shown(p) + " (host changed, worktree untouched)"@
}

/// The report of a planned merge.
pub open spec fn plan_lines(p: MergePlan) -> Seq<Seq<char>> {
    let head = seq![
        "dry-run: "@ + number::decimal(p.operations@.len()) + " operation(s), "@ + number::decimal(
            p.conflicts@.len(),
        ) + " conflict(s)"@,
    ];
    head + p.operations@.map_values(|o: PlanOp| op_line(o)) + p.conflicts@.map_values(
        |c: Conflict| conflict_line("  CONFLICT"@, c),
    ) + p.kept@.map_values(|k: String| kept_line(k@))
}

fn op_text(o: &PlanOp) -> (r: String)
    ensures
        r@ == op_line(*o),
{
    match o {
        PlanOp::WriteFile(p) => {
            let s = sanitize_display(p.as_str());
            cat2("  write  ", s.as_str())
        },
        PlanOp::WriteSymlink { path, target } => {
            let s = sanitize_display(path.as_str());
            let t = sanitize_display(target.as_str());
            cat4("  symlink ", s.as_str(), " -> ", t.as_str())
        },
        PlanOp::Mkdir(p) => {
            let s = sanitize_display(p.as_str());
            cat2("  mkdir  ", s.as_str())
        },
        PlanOp::Delete(p) => {
            let s = sanitize_display(p.as_str());
            cat2("  delete ", s.as_str())
        },
    }
}

fn dash(h: &Option<String>) -> (r: &str)
    ensures
        r@ == hash_or_dash(*h),
{
    match h {
        Some(s) => s.as_str(),
        None => "-",
    }
}

fn conflict_text(word: &str, c: &Conflict) -> (r: String)
    ensures
        r@ == conflict_line(word@, *c),
{
    let p = sanitize_display(c.path.as_str());
    cat5(word, " [", c.kind.as_str(), "] ", p.as_str()).concat(" (base=").concat(
        dash(&c.base_hash),
    ).concat(", current=").concat(dash(&c.current_hash)).concat(", worktree=").concat(
        dash(&c.work_hash),
    ).concat(")")
}

fn put_conflicts(out: &mut Vec<String>, word: &str, cs: &Vec<Conflict>)
    ensures
        text::texts(final(out)@) == text::texts(old(out)@) + cs@.map_values(
            |c: Conflict| conflict_line(word@, c),
        ),
{
    let ghost start = text::texts(out@);
    let ghost all = cs@.map_values(|c: Conflict| conflict_line(word@, c));
    let mut i: usize = 0;
    assert(text::texts(out@) =~= start + all.take(0));
    while i < cs.len()
        invariant
            i <= cs@.len(),
            all == cs@.map_values(|c: Conflict| conflict_line(word@, c)),
            text::texts(out@) == start + all.take(i as int),
        decreases cs@.len() - i,
    {
        put(out, conflict_text(word, &cs[i]));
        i = i + 1;
        assert(text::texts(out@) =~= start + all.take(i as int));
    }
    assert(all.take(all.len() as int) =~= all);
}

/// The report of a planned merge.
pub fn print_plan(plan: &MergePlan) -> (r: Vec<String>)
    ensures
        text::texts(r@) == plan_lines(*plan),
{
    let mut out: Vec<String> = Vec::new();
    let ops = decimal_text(plan.operations.len() as u128);
    let conflicts = decimal_text(plan.conflicts.len() as u128);
    put(
        &mut out,
        cat5("dry-run: ", ops.as_str(), " operation(s), ", conflicts.as_str(), " conflict(s)"),
    );
    let ghost head = text::texts(out@);
    let ghost os = plan.operations@.map_values(|o: PlanOp| op_line(o));
    let mut i: usize = 0;
    assert(text::texts(out@) =~= head + os.take(0));
    while i < plan.operations.len()
        invariant
            i <= plan.operations@.len(),
            os == plan.operations@.map_values(|o: PlanOp| op_line(o)),
            text::texts(out@) == head + os.take(i as int),
        decreases plan.operations@.len() - i,
    {
        put(&mut out, op_text(&plan.operations[i]));
        i = i + 1;
        assert(text::texts(out@) =~= head + os.take(i as int));
    }
    assert(os.take(os.len() as int) =~= os);
    put_conflicts(&mut out, "  CONFLICT", &plan.conflicts);
    let ghost front = text::texts(out@);
    let ghost ks = plan.kept@.map_values(|k: String| kept_line(k@));
    let mut k: usize = 0;
    assert(text::texts(out@) =~= front + ks.take(0));
    while k < plan.kept.len()
        invariant
            k <= plan.kept@.len(),
            ks == plan.kept@.map_values(|k: String| kept_line(k@)),
            text::texts(out@) == front + ks.take(k as int),
        decreases plan.kept@.len() - k,
    {
        let s = sanitize_display(plan.kept[k].as_str());
        put(&mut out, cat3("  keep   ", s.as_str(), " (host changed, worktree untouched)"));
        k = k + 1;
        assert(text::texts(out@) =~= front + ks.take(k as int));
    }
    assert(ks.take(ks.len() as int) =~= ks);
    assert(text::texts(out@) =~= plan_lines(*plan));
    out
}

/// The report of a planned merge leaves nothing out and adds nothing: behind the
/// line with the counts it has one line for each change, in their order, then one
/// for each conflict, then one for each path that is kept. The line of a change
/// says what is done, and to which path; that of a conflict names its kind, its
/// path and the three hashes.
pub proof fn law_plan_is_shown_in_full(p: MergePlan, i: int)
    ensures
        ({
            let t = plan_lines(p);
            let (o, c, k) = (
                p.operations@.len() as int,
                p.conflicts@.len() as int,
                p.kept@.len() as int,
            );
            &&& t.len() == 1 + o + c + k
            &&& t[0] == "dry-run: "@ + number::decimal(o as nat) + " operation(s), "@
                + number::decimal(c as nat) + " conflict(s)"@
            &&& 0 <= i < o ==> t[1 + i] == match p.operations@[i] {
                PlanOp::WriteFile(path) => "  write  "@ + state::shown(path@),
                PlanOp::WriteSymlink { path, target } => "  symlink "@ + state::shown(path@)
                    + " -> "@ + state::shown(target@),
                PlanOp::Mkdir(path) => "  mkdir  "@ + state::shown(path@),
                PlanOp::Delete(path) => "  delete "@ + state::shown(path@),
            }
            &&& 0 <= i < c ==> t[1 + o + i] == conflict_words("  CONFLICT"@, p.conflicts@[i])
            &&& 0 <= i < k ==> t[1 + o + c + i] == "  keep   "@ + state::shown(p.kept@[i]@)
                + " (host changed, worktree untouched)"@
        }),
{
}

/// A conflict in words: its kind, its path, and the hashes that the snapshot, the
/// host and the worktree have, with a dash for one that is not there.
pub open spec fn conflict_words(word: Seq<char>, c: Conflict) -> Seq<char> {
    let base = if c.base_hash is Some {
        c.base_hash->0@
    } else {
        "-"@
    };
    let current = if c.current_hash is Some {
        c.current_hash->0@
    } else {
        "-"@
    };
    let work = if c.work_hash is Some {
        c.work_hash->0@
    } else {
        "-"@
    };
    word + " ["@ + c.kind@ + "] "@ + state::shown(c.path@) + " (base="@ + base + ", current="@
        + current + ", worktree="@ + work + ")"@
}

/// The report of the conflicts that stop a merge.
pub fn conflict_report(conflicts: &Vec<Conflict>, id: &str) -> (r: Vec<String>)
    ensures
        text::texts(r@) == (seq![
            "merge aborted: "@ + number::decimal(conflicts@.len())
                + " conflict(s); host directory was NOT modified"@,
        ] + conflicts@.map_values(|c: Conflict| conflict_line("  conflict"@, c))).push(
            "resolve manually, or `cowt drop "@ + id@ + "` to discard the worktree"@,
        ),
        forall|i: int|
            0 <= i < conflicts@.len() ==> text::texts(r@)[1 + i] == conflict_words(
                "  conflict"@,
                #[trigger] conflicts@[i],
            ),
{
    let mut out: Vec<String> = Vec::new();
    let n = decimal_text(conflicts.len() as u128);
    put(
        &mut out,
        cat3("merge aborted: ", n.as_str(), " conflict(s); host directory was NOT modified"),
    );
    assert(text::texts(out@) =~= seq![
        "merge aborted: "@ + number::decimal(conflicts@.len())
            + " conflict(s); host directory was NOT modified"@,
    ]);
    put_conflicts(&mut out, "  conflict", conflicts);
    put(
        &mut out,
        cat3("resolve manually, or `cowt drop ", id, "` to discard the worktree"),
    );
    proof {
        let all = conflicts@.map_values(|c: Conflict| conflict_line("  conflict"@, c));
        assert forall|i: int| 0 <= i < conflicts@.len() implies text::texts(out@)[1 + i]
            == conflict_words("  conflict"@, #[trigger] conflicts@[i]) by {
            assert(text::texts(out@)[1 + i] == all[i]);
        }
    }
    out
}

/// The names of backups that an interrupted merge left, in the order found.
pub open spec fn backups(names: Seq<Seq<char>>) -> Seq<Seq<char>>
    decreases names.len(),
{
    if names.len() == 0 {
        Seq::empty()
    } else if text::find_from(names.last(), ".cowt-old-"@, 0) is Some {
        backups(names.drop_last()).push(names.last())
    } else {
        backups(names.drop_last())
    }
}

/// A name is taken for a backup exactly where `.cowt-old-` stands in it.
pub proof fn law_backups(names: Seq<Seq<char>>, n: Seq<char>)
    ensures
        backups(names).contains(n) <==> names.contains(n) && exists|k: int|
            #[trigger] text::stands_at(n, ".cowt-old-"@, k),
    decreases names.len(),
{
    text::lemma_find_from(n, ".cowt-old-"@, 0);
    if names.len() > 0 {
        let init = names.drop_last();
        law_backups(init, n);
        assert(names =~= init.push(names.last()));
        let (a, b) = (backups(init), backups(names));
        assert(names[names.len() - 1] == names.last());
        if names.contains(n) {
            let j = choose|j: int| 0 <= j < names.len() && names[j] == n;
            if j < init.len() {
                assert(init[j] == n);
            }
        }
        if init.contains(n) {
            let j = choose|j: int| 0 <= j < init.len() && init[j] == n;
            assert(names[j] == n);
        }
        if a.contains(n) {
            let j = choose|j: int| 0 <= j < a.len() && a[j] == n;
            assert(b[j] == n);
        }
        if b.contains(n) {
            let j = choose|j: int| 0 <= j < b.len() && b[j] == n;
            if j < a.len() {
                assert(a[j] == n);
            }
        }
        if names.last() == n && text::find_from(n, ".cowt-old-"@, 0) is Some {
            assert(b[b.len() - 1] == n);
        }
    }
}

/// The note about backups that an interrupted merge left in the target.
pub open spec fn backup_text(sorted: Seq<Seq<char>>) -> Seq<char> {
    "note: interrupted-apply backup file(s) found: "@ + text::join(sorted, ", "@)
        + "; each is the pre-apply content of the matching file — restore with `mv <name>.cowt-old-<pid> <name>`"@
}

/// The note about backups that an interrupted merge left in the target, if
/// there are any: they are named in order.
pub fn backup_note(names: &Vec<String>) -> (r: Option<String>)
    ensures
        r is None <==> backups(text::texts(names@)).len() == 0,
        r matches Some(s) ==> exists|sorted: Seq<Seq<char>>|
            order::in_order(sorted) && sorted.to_multiset() == backups(
                text::texts(names@),
            ).to_multiset() && s@ == #[trigger] backup_text(sorted),
{
    let ghost all = text::texts(names@);
    let mut found: Vec<String> = Vec::new();
    let mut i: usize = 0;
    assert(text::texts(found@) =~= backups(all.take(0)));
    while i < names.len()
        invariant
            i <= names@.len(),
            all == text::texts(names@),
            text::texts(found@) == backups(all.take(i as int)),
        decreases names@.len() - i,
    {
        proof {
            assert(all.take(i + 1).drop_last() =~= all.take(i as int));
            assert(all.take(i + 1).last() == names@[i as int]@);
        }
        if let Some(_) = text::find_text(names[i].as_str(), ".cowt-old-") {
            put(&mut found, names[i].clone());
        }
        i = i + 1;
    }
    assert(all.take(all.len() as int) =~= all);
    if found.len() == 0 {
        return None;
    }
    let sorted = order::sort_texts(found);
    let joined = join_text(&sorted, ", ");
    let s = cat3(
        "note: interrupted-apply backup file(s) found: ",
        joined.as_str(),
        "; each is the pre-apply content of the matching file — restore with `mv <name>.cowt-old-<pid> <name>`",
    );
    assert(s@ == backup_text(text::texts(sorted@)));
    Some(s)
}

/// What a merge did.
#[derive(Clone, Copy, Debug, PartialEq, Eq, Structural)]
pub struct ApplyCounts {
    pub written: usize,
    pub deleted: usize,
    pub kept: usize,
    pub converged: usize,
}

/// The report of a merge.
pub fn applied_report(c: ApplyCounts, id: &str) -> (r: Vec<String>)
    ensures
        text::texts(r@) == seq![
            "applied: "@ + number::decimal(c.written as nat) + " written, "@ + number::decimal(
                c.deleted as nat,
            ) + " deleted, "@ + number::decimal(c.kept as nat) + " kept (host), "@
                + number::decimal(c.converged as nat) + " converged"@,
            "changes applied and baseline advanced; `cowt drop "@ + id@ + "` to discard"@,
        ],
{
    let mut out: Vec<String> = Vec::new();
    let w = decimal_text(c.written as u128);
    let d = decimal_text(c.deleted as u128);
    let k = decimal_text(c.kept as u128);
    let v = decimal_text(c.converged as u128);
    put(
        &mut out,
        cat5("applied: ", w.as_str(), " written, ", d.as_str(), " deleted, ").concat(
            k.as_str(),
        ).concat(" kept (host), ").concat(v.as_str()).concat(" converged"),
    );
    put(&mut out, cat3("changes applied and baseline advanced; `cowt drop ", id, "` to discard"));
    assert(text::texts(out@) =~= seq![text::texts(out@)[0], text::texts(out@)[1]]);
    out
}

/// The metadata of a worktree that was merged.
pub fn applied_meta(meta: WorktreeMeta) -> (r: WorktreeMeta)
    ensures
        r@ == (MetaView { status: Status::Applied, ..meta@ }),
{
    let mut m = meta;
    m.status = Status::Applied;
    m
}

// ------------------------------------------------------------------- checks

/// A path that the worktree deletes.
#[derive(Debug)]
pub struct Victim {
    pub path: String,
    /// The snapshot has it.
    pub in_base: bool,
    /// The host has it.
    pub in_current: bool,
}

/// The deletion would be lost: the host has the path, and the snapshot does
/// not, so the plan would keep the host's.
pub open spec fn lost(v: Victim) -> bool {
    !v.in_base && v.in_current
}

/// The first path whose deletion would be lost.
pub fn lost_deletion(victims: &Vec<Victim>) -> (r: Option<usize>)
    ensures
        match r {
            Some(i) => i < victims@.len() && lost(victims@[i as int]) && forall|j: int|
                0 <= j < i ==> !lost(#[trigger] victims@[j]),
            None => forall|j: int| 0 <= j < victims@.len() ==> !lost(#[trigger] victims@[j]),
        },
        r matches Some(i) ==> victims@[i as int].in_current && !victims@[i as int].in_base,
        r is None <==> forall|j: int|
            0 <= j < victims@.len() ==> (#[trigger] victims@[j]).in_base || !victims@[j].in_current,
{
    let mut i: usize = 0;
    while i < victims.len()
        invariant
            i <= victims@.len(),
            forall|j: int| 0 <= j < i ==> !lost(#[trigger] victims@[j]),
        decreases victims@.len() - i,
    {
        if !victims[i].in_base && victims[i].in_current {
            return Some(i);
        }
        i = i + 1;
    }
    None
}

/// The texts shown for a list of paths.
pub open spec fn all_shown(ps: Seq<Seq<char>>) -> Seq<Seq<char>> {
    ps.map_values(|p: Seq<char>| state::shown(p))
}

/// The paths of a list, as they are shown, one after the other.
pub fn show_all(paths: &Vec<String>) -> (r: String)
    ensures
        r@ == text::join(all_shown(text::texts(paths@)), ", "@),
        r@ == text::join(
            Seq::new(paths@.len(), |i: int| state::shown(paths@[i]@)),
            ", "@,
        ),
{
    let mut out: Vec<String> = Vec::new();
    let ghost all = all_shown(text::texts(paths@));
    let mut i: usize = 0;
    assert(text::texts(out@) =~= all.take(0));
    while i < paths.len()
        invariant
            i <= paths@.len(),
            all == all_shown(text::texts(paths@)),
            text::texts(out@) == all.take(i as int),
        decreases paths@.len() - i,
    {
        put(&mut out, sanitize_display(paths[i].as_str()));
        i = i + 1;
        assert(text::texts(out@) =~= all.take(i as int));
    }
    assert(all.take(all.len() as int) =~= all);
    assert(all =~= Seq::new(paths@.len(), |i: int| state::shown(paths@[i]@)));
    join_text(&out, ", ")
}

/// What the errors of `apply` speak of.
#[derive(Debug)]
pub struct ApplyFacts {
    pub id: String,
    pub target: String,
    /// Where the host directory would be, had a run moved it aside.
    pub aside: String,
    /// The path whose deletion would be lost.
    pub victim: String,
    /// The paths that collide, as they are shown.
    pub collisions: String,
    /// What the system said.
    pub system: String,
}

impl ApplyRefusal {
    /// The text of the error.
    pub open spec fn text(self, f: ApplyFacts) -> Seq<char> {
        match self {
            ApplyRefusal::Running => "worktree '"@ + f.id@
                + "' is running; apply after the process exits"@,
            ApplyRefusal::ForeignMount => f.target@
                + " is already a mountpoint; refusing to stack a second overlay"@,
            ApplyRefusal::ScanFailed => "cannot scan target directory "@ + f.target@ + ": "@
                + f.system@ + "; if a crashed run moved it aside it is at "@ + f.aside@
                + " (any command restores it), otherwise check whether it was deleted externally"@,
            ApplyRefusal::LostDeletion => "worktree '"@ + f.id@ + "' has a deletion marker for '"@
                + f.victim@
                + "' but the base manifest has no such entry (base manifest is corrupted or from another tree); refusing to apply so the deletion intent is not silently lost. Restore the original "@
                + state::json_name("manifest"@) + ", or drop the worktree"@,
            ApplyRefusal::CaseCollision =>
                "cannot apply on this case-insensitive filesystem: the worktree contains path(s) that collide with existing files by case alone: "@
                + f.collisions@
                + "; rename one side (in the worktree view or on the host) and re-apply"@,
            ApplyRefusal::StartedWhilePlanning => "worktree '"@ + f.id@
                + "' started running during planning; apply aborted (nothing written)"@,
            ApplyRefusal::MountedAgain => f.target@
                + " is mounted again; apply aborted (nothing written)"@,
            ApplyRefusal::StartedWhileWriting => "worktree '"@ + f.id@
                + "' started running while changes were being applied; NOT advancing the baseline (the running process keeps its upper layer). Run `cowt apply "@
                + f.id@ + "` again after it exits"@,
            ApplyRefusal::StateRemoved => "worktree '"@ + f.id@
                + "' state was removed during apply (concurrent drop?); NOT advancing the baseline. The changes are on the host; fork again if you want to keep them"@,
            ApplyRefusal::System => f.system@,
        }
    }

    /// The text of the error.
    pub fn message(self, f: &ApplyFacts) -> (r: String)
        ensures
            r@ == self.text(*f),
            r@ == match self {
                ApplyRefusal::Running => "worktree '"@ + f.id@
                    + "' is running; apply after the process exits"@,
                ApplyRefusal::ForeignMount => f.target@
                    + " is already a mountpoint; refusing to stack a second overlay"@,
                ApplyRefusal::ScanFailed => "cannot scan target directory "@ + f.target@ + ": "@
                    + f.system@ + "; if a crashed run moved it aside it is at "@ + f.aside@
                    + " (any command restores it), otherwise check whether it was deleted externally"@,
                ApplyRefusal::LostDeletion => "worktree '"@ + f.id@ + "' has a deletion marker for '"@
                    + f.victim@
                    + "' but the base manifest has no such entry (base manifest is corrupted or from another tree); refusing to apply so the deletion intent is not silently lost. Restore the original "@
                    + state::json_name("manifest"@) + ", or drop the worktree"@,
                ApplyRefusal::CaseCollision =>
                    "cannot apply on this case-insensitive filesystem: the worktree contains path(s) that collide with existing files by case alone: "@
                    + f.collisions@
                    + "; rename one side (in the worktree view or on the host) and re-apply"@,
                ApplyRefusal::StartedWhilePlanning => "worktree '"@ + f.id@
                    + "' started running during planning; apply aborted (nothing written)"@,
                ApplyRefusal::MountedAgain => f.target@
                    + " is mounted again; apply aborted (nothing written)"@,
                ApplyRefusal::StartedWhileWriting => "worktree '"@ + f.id@
                    + "' started running while changes were being applied; NOT advancing the baseline (the running process keeps its upper layer). Run `cowt apply "@
                    + f.id@ + "` again after it exits"@,
                ApplyRefusal::StateRemoved => "worktree '"@ + f.id@
                    + "' state was removed during apply (concurrent drop?); NOT advancing the baseline. The changes are on the host; fork again if you want to keep them"@,
                ApplyRefusal::System => f.system@,
            },
    {
        match self {
            ApplyRefusal::Running => cat3(
                "worktree '",
                f.id.as_str(),
                "' is running; apply after the process exits",
            ),
            ApplyRefusal::ForeignMount => crate::backend::foreign_mount_message(f.target.as_str()),
            ApplyRefusal::ScanFailed => cat5(
                "cannot scan target directory ",
                f.target.as_str(),
                ": ",
                f.system.as_str(),
                "; if a crashed run moved it aside it is at ",
            ).concat(f.aside.as_str()).concat(
                " (any command restores it), otherwise check whether it was deleted externally",
            ),
            ApplyRefusal::LostDeletion => cat5(
                "worktree '",
                f.id.as_str(),
                "' has a deletion marker for '",
                f.victim.as_str(),
                "' but the base manifest has no such entry (base manifest is corrupted or from another tree); refusing to apply so the deletion intent is not silently lost. Restore the original ",
            ).concat(json_file("manifest").as_str()).concat(", or drop the worktree"),
            ApplyRefusal::CaseCollision => cat3(
                "cannot apply on this case-insensitive filesystem: the worktree contains path(s) that collide with existing files by case alone: ",
                f.collisions.as_str(),
                "; rename one side (in the worktree view or on the host) and re-apply",
            ),
            ApplyRefusal::StartedWhilePlanning => cat3(
                "worktree '",
                f.id.as_str(),
                "' started running during planning; apply aborted (nothing written)",
            ),
            ApplyRefusal::MountedAgain => cat2(
                f.target.as_str(),
                " is mounted again; apply aborted (nothing written)",
            ),
            ApplyRefusal::StartedWhileWriting => cat5(
                "worktree '",
                f.id.as_str(),
                "' started running while changes were being applied; NOT advancing the baseline (the running process keeps its upper layer). Run `cowt apply ",
                f.id.as_str(),
                "` again after it exits",
            ),
            ApplyRefusal::StateRemoved => cat3(
                "worktree '",
                f.id.as_str(),
                "' state was removed during apply (concurrent drop?); NOT advancing the baseline. The changes are on the host; fork again if you want to keep them",
            ),
            ApplyRefusal::System => f.system.clone(),
        }
    }
}

} // verus!
