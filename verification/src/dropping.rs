//! `drop`: discarding a worktree.
//!
//! The host directory is never deleted with a worktree: one that a run moved
//! aside into the worktree's state stops the command. A mount is only taken
//! down where it is proven to be a leftover of the worktree.

use vstd::prelude::*;
use crate::host::HostOs;
use crate::number;
use crate::number::decimal_text;
use crate::state;
use crate::state::{sanitize_display, MetaView, Status, WorktreeMeta};
use crate::text;
use crate::text::{cat2, cat3, cat4, cat5, starts_with};

verus! {

/// How often a mount or a directory is tried to be removed.
pub const TRIES: u32 = 30;

/// Why a worktree is not discarded.
#[derive(Clone, Copy, Debug, PartialEq, Eq, Structural)]
pub enum DropRefusal {
    /// Its metadata cannot be read.
    Damaged,
    /// This process of it runs.
    Running(u32),
    /// This process of it could not be ended.
    Survived(u32),
    /// It is still mounted.
    StillMounted,
    /// It still holds the host directory, and something is in the way of
    /// putting that back.
    Blocked,
    /// Something else is mounted on its target.
    ForeignMount,
    /// It still holds the host directory.
    HoldsHost,
    /// It held the host directory by the time it was moved aside.
    RolledBack,
    /// The system refused; its error is the result.
    System,
}

/// What `drop` asks for next.
#[derive(Clone, Copy, Debug, PartialEq, Eq, Structural)]
pub enum DropAsk {
    /// Find the worktree.
    Open,
    /// Read its metadata.
    LoadMeta,
    /// Which process of it runs? `known`: its target is known.
    CheckRunning { known: bool },
    /// End this process.
    Terminate { pid: u32, known: bool },
    /// Is the target mounted, and is that proven to be a leftover of the
    /// worktree? `tries`: how often it was tried to be taken down.
    ProbeMount { tries: u32 },
    /// Take the mount down, as far as that works, and wait a little.
    Unmount { tries: u32 },
    /// Is the target still mounted?
    CheckMounted,
    /// Does the worktree hold the host directory?
    CheckBlocked,
    /// Remove what earlier commands left, as far as that works.
    SweepTrash,
    /// Does the worktree hold the host directory?
    CheckHost,
    /// Move the worktree's state aside.
    MoveAside,
    /// Does it hold the host directory now?
    CheckMoved,
    /// Move it back, as far as that works.
    MoveBack,
    /// Delete it. `tries`: how often that failed.
    Delete { tries: u32 },
    /// Report.
    Report,
    Refuse(DropRefusal),
}

/// What came of it.
#[derive(Clone, Copy, Debug, PartialEq, Eq, Structural)]
pub enum DropReply {
    Yes,
    No,
    /// The metadata was read.
    Meta { target_known: bool },
    Pid(Option<u32>),
    /// `leftover`: the worktree proves the mount to be its own, by the pid file
    /// of a dead run, by the host directory that it holds, or by the mount's
    /// options. `ours`: the mount is of a kind that this tool makes.
    Mount { mounted: bool, leftover: bool, ours: bool },
}

/// What comes once no process of the worktree runs. A target that is not known
/// cannot be mounted.
pub open spec fn after_process(known: bool) -> DropAsk {
    if known {
        DropAsk::ProbeMount { tries: 0 }
    } else {
        DropAsk::SweepTrash
    }
}

/// The step after a step of `drop`.
pub open spec fn drop_next(force: bool, ask: DropAsk, reply: DropReply) -> DropAsk {
    let fail = DropAsk::Refuse(DropRefusal::System);
    match ask {
        DropAsk::Open => if reply is Yes {
            DropAsk::LoadMeta
        } else {
            fail
        },
        DropAsk::LoadMeta => match reply {
            DropReply::Meta { target_known } => DropAsk::CheckRunning { known: target_known },
            _ => if force {
                DropAsk::CheckRunning { known: false }
            } else {
                DropAsk::Refuse(DropRefusal::Damaged)
            },
        },
        DropAsk::CheckRunning { known } => match reply {
            DropReply::Pid(Some(pid)) => if force {
                DropAsk::Terminate { pid, known }
            } else {
                DropAsk::Refuse(DropRefusal::Running(pid))
            },
            _ => after_process(known),
        },
        DropAsk::Terminate { pid, known } => if reply is Yes {
            after_process(known)
        } else {
            DropAsk::Refuse(DropRefusal::Survived(pid))
        },
        DropAsk::ProbeMount { tries } => match reply {
            DropReply::Mount { mounted, leftover, ours } => if !mounted {
                DropAsk::CheckMounted
            } else if !leftover || !ours {
                DropAsk::CheckBlocked
            } else if !force {
                DropAsk::Refuse(DropRefusal::StillMounted)
            } else {
                DropAsk::Unmount { tries }
            },
            _ => fail,
        },
        DropAsk::Unmount { tries } => if tries + 1 < TRIES {
            DropAsk::ProbeMount { tries: (tries + 1) as u32 }
        } else {
            DropAsk::CheckMounted
        },
        DropAsk::CheckMounted => if reply is No {
            DropAsk::SweepTrash
        } else {
            DropAsk::CheckBlocked
        },
        DropAsk::CheckBlocked => if reply is No {
            DropAsk::Refuse(DropRefusal::ForeignMount)
        } else {
            DropAsk::Refuse(DropRefusal::Blocked)
        },
        DropAsk::SweepTrash => DropAsk::CheckHost,
        DropAsk::CheckHost => if reply is No {
            DropAsk::MoveAside
        } else {
            DropAsk::Refuse(DropRefusal::HoldsHost)
        },
        DropAsk::MoveAside => if reply is Yes {
            DropAsk::CheckMoved
        } else {
            fail
        },
        DropAsk::CheckMoved => if reply is No {
            DropAsk::Delete { tries: 0 }
        } else {
            DropAsk::MoveBack
        },
        DropAsk::MoveBack => DropAsk::Refuse(DropRefusal::RolledBack),
        DropAsk::Delete { tries } => if reply is Yes {
            DropAsk::Report
        } else if tries + 1 < TRIES {
            DropAsk::Delete { tries: (tries + 1) as u32 }
        } else {
            fail
        },
        DropAsk::Report => DropAsk::Report,
        DropAsk::Refuse(e) => DropAsk::Refuse(e),
    }
}

/// The worktree proves a mount at its target to be its own leftover: by the pid
/// file of a dead run, by the host directory that it holds, or by the mount's
/// options.
pub fn own_leftover(stale_run: bool, real_exists: bool, proven: bool) -> (r: bool)
    ensures
        r == (stale_run || real_exists || proven),
{
    stale_run || real_exists || proven
}

fn step_after_process(known: bool) -> (r: DropAsk)
    ensures
        r == after_process(known),
{
    if known {
        DropAsk::ProbeMount { tries: 0 }
    } else {
        DropAsk::SweepTrash
    }
}

/// The command `drop`, one step at a time.
pub fn drop_cmd(force: bool, ask: DropAsk, reply: DropReply) -> (r: DropAsk)
    ensures
        r == drop_next(force, ask, reply),
{
    let fail = DropAsk::Refuse(DropRefusal::System);
    let yes = match reply {
        DropReply::Yes => true,
        _ => false,
    };
    let no = match reply {
        DropReply::No => true,
        _ => false,
    };
    match ask {
        DropAsk::Open => if yes {
            DropAsk::LoadMeta
        } else {
            fail
        },
        DropAsk::LoadMeta => match reply {
            DropReply::Meta { target_known } => DropAsk::CheckRunning { known: target_known },
            _ => if force {
                DropAsk::CheckRunning { known: false }
            } else {
                DropAsk::Refuse(DropRefusal::Damaged)
            },
        },
        DropAsk::CheckRunning { known } => match reply {
            DropReply::Pid(Some(pid)) => if force {
                DropAsk::Terminate { pid, known }
            } else {
                DropAsk::Refuse(DropRefusal::Running(pid))
            },
            _ => step_after_process(known),
        },
        DropAsk::Terminate { pid, known } => if yes {
            step_after_process(known)
        } else {
            DropAsk::Refuse(DropRefusal::Survived(pid))
        },
        DropAsk::ProbeMount { tries } => match reply {
            DropReply::Mount { mounted, leftover, ours } => if !mounted {
                DropAsk::CheckMounted
            } else if !leftover || !ours {
                DropAsk::CheckBlocked
            } else if !force {
                DropAsk::Refuse(DropRefusal::StillMounted)
            } else {
                DropAsk::Unmount { tries }
            },
            _ => fail,
        },
        DropAsk::Unmount { tries } => if tries < TRIES - 1 {
            DropAsk::ProbeMount { tries: tries + 1 }
        } else {
            DropAsk::CheckMounted
        },
        DropAsk::CheckMounted => if no {
            DropAsk::SweepTrash
        } else {
            DropAsk::CheckBlocked
        },
        DropAsk::CheckBlocked => if no {
            DropAsk::Refuse(DropRefusal::ForeignMount)
        } else {
            DropAsk::Refuse(DropRefusal::Blocked)
        },
        DropAsk::SweepTrash => DropAsk::CheckHost,
        DropAsk::CheckHost => if no {
            DropAsk::MoveAside
        } else {
            DropAsk::Refuse(DropRefusal::HoldsHost)
        },
        DropAsk::MoveAside => if yes {
            DropAsk::CheckMoved
        } else {
            fail
        },
        DropAsk::CheckMoved => if no {
            DropAsk::Delete { tries: 0 }
        } else {
            DropAsk::MoveBack
        },
        DropAsk::MoveBack => DropAsk::Refuse(DropRefusal::RolledBack),
        DropAsk::Delete { tries } => if yes {
            DropAsk::Report
        } else if tries < TRIES - 1 {
            DropAsk::Delete { tries: tries + 1 }
        } else {
            fail
        },
        DropAsk::Report => DropAsk::Report,
        DropAsk::Refuse(e) => DropAsk::Refuse(e),
    }
}

/// The steps of `drop`, with what came of each.
pub open spec fn drop_trace(force: bool, t: Seq<(DropAsk, DropReply)>) -> bool {
    &&& t.len() > 0 ==> t[0].0 is Open
    &&& forall|i: int|
        0 <= i && i + 1 < t.len() ==> (#[trigger] t[i + 1]).0 == drop_next(force, t[i].0, t[i].1)
}

/// The host directory is never deleted: what is deleted was found, after it was
/// moved aside, not to hold the host directory, and was found so before that,
/// too.
pub proof fn law_host_is_never_deleted(force: bool, t: Seq<(DropAsk, DropReply)>, i: int)
    requires
        drop_trace(force, t),
        0 <= i < t.len(),
        t[i].0 is Delete || t[i].0 is Report,
    ensures
        exists|j: int|
            2 <= j < i && #[trigger] t[j] == (DropAsk::CheckMoved, DropReply::No) && t[j - 1] == (
                DropAsk::MoveAside,
                DropReply::Yes,
            ) && t[j - 2] == (DropAsk::CheckHost, DropReply::No),
    decreases i,
{
    assert(i > 0);
    assert(t[i - 1 + 1].0 == drop_next(force, t[i - 1].0, t[i - 1].1));
    if t[i - 1].0 is CheckMoved {
        assert(i - 1 > 0);
        assert(t[i - 2 + 1].0 == drop_next(force, t[i - 2].0, t[i - 2].1));
        assert(i - 2 > 0);
        assert(t[i - 3 + 1].0 == drop_next(force, t[i - 3].0, t[i - 3].1));
        assert(t[i - 1] == (DropAsk::CheckMoved, DropReply::No));
    } else {
        law_host_is_never_deleted(force, t, i - 1);
        let j = choose|j: int|
            2 <= j < i - 1 && #[trigger] t[j] == (DropAsk::CheckMoved, DropReply::No) && t[j - 1]
                == (DropAsk::MoveAside, DropReply::Yes) && t[j - 2] == (
                DropAsk::CheckHost,
                DropReply::No,
            );
        assert(t[j] == (DropAsk::CheckMoved, DropReply::No));
    }
}

/// A mount is only taken down with `--force`, and only where it was found, just
/// before, to be a leftover of the worktree and of a kind that this tool makes.
/// A foreign mount is never taken down.
pub proof fn law_only_own_mounts_taken_down(force: bool, t: Seq<(DropAsk, DropReply)>, i: int)
    requires
        drop_trace(force, t),
        0 <= i < t.len(),
        t[i].0 is Unmount,
    ensures
        force,
        i > 0,
        t[i - 1].0 is ProbeMount,
        t[i - 1].1 == (DropReply::Mount { mounted: true, leftover: true, ours: true }),
{
    assert(i > 0);
    assert(t[i - 1 + 1].0 == drop_next(force, t[i - 1].0, t[i - 1].1));
}

/// A process is only ended with `--force`, and only the one that was found
/// running.
pub proof fn law_only_own_process_ended(force: bool, t: Seq<(DropAsk, DropReply)>, i: int)
    requires
        drop_trace(force, t),
        0 <= i < t.len(),
    ensures
        t[i].0 matches DropAsk::Terminate { pid, known } ==> force && i > 0 && t[i - 1] == (
            DropAsk::CheckRunning { known },
            DropReply::Pid(Some(pid)),
        ),
{
    if t[i].0 is Terminate {
        assert(i > 0);
        assert(t[i - 1 + 1].0 == drop_next(force, t[i - 1].0, t[i - 1].1));
    }
}

/// A worktree whose process runs is only discarded once that process is gone,
/// and one whose target is mounted only once that is not.
pub proof fn law_discarded_is_at_rest(force: bool, t: Seq<(DropAsk, DropReply)>, i: int)
    requires
        drop_trace(force, t),
        0 <= i < t.len(),
        t[i].0 is SweepTrash,
    ensures
        i > 0,
        t[i - 1] == (DropAsk::CheckMounted, DropReply::No) || (t[i - 1].0 == (
        DropAsk::CheckRunning { known: false }) && !(t[i - 1].1 matches DropReply::Pid(Some(_))))
            || (t[i - 1].0 matches DropAsk::Terminate { pid, known } && !known && t[i - 1].1
            == DropReply::Yes),
{
    assert(i > 0);
    assert(t[i - 1 + 1].0 == drop_next(force, t[i - 1].0, t[i - 1].1));
}

/// Without `--force`, a worktree whose process runs is not discarded: nothing
/// but the refusal follows.
pub proof fn law_running_is_refused(
    t: Seq<(DropAsk, DropReply)>,
    i: int,
    k: int,
    pid: u32,
)
    requires
        drop_trace(false, t),
        0 <= i < k < t.len(),
        t[i].0 is CheckRunning,
        t[i].1 == DropReply::Pid(Some(pid)),
    ensures
        t[k].0 == DropAsk::Refuse(DropRefusal::Running(pid)),
    decreases k - i,
{
    assert(t[k - 1 + 1].0 == drop_next(false, t[k - 1].0, t[k - 1].1));
    if i + 1 < k {
        law_running_is_refused(t, i, k - 1, pid);
    }
}

/// How much is left to do at most.
pub open spec fn left(ask: DropAsk) -> int {
    match ask {
        DropAsk::Open => 105,
        DropAsk::LoadMeta => 104,
        DropAsk::CheckRunning { known } => 103,
        DropAsk::Terminate { pid, known } => 102,
        DropAsk::ProbeMount { tries } => if tries < TRIES {
            40 + 2 * (TRIES - tries)
        } else {
            41
        },
        DropAsk::Unmount { tries } => if tries < TRIES {
            39 + 2 * (TRIES - tries)
        } else {
            40
        },
        DropAsk::CheckMounted => 38,
        DropAsk::CheckBlocked => 1,
        DropAsk::SweepTrash => 37,
        DropAsk::CheckHost => 36,
        DropAsk::MoveAside => 35,
        DropAsk::CheckMoved => 34,
        DropAsk::MoveBack => 1,
        DropAsk::Delete { tries } => if tries < TRIES {
            1 + TRIES - tries
        } else {
            1
        },
        DropAsk::Report => 0,
        DropAsk::Refuse(_) => 0,
    }
}

/// The command ends: after 105 steps at most, the worktree is discarded, or the
/// command refused.
pub proof fn law_drop_ends(force: bool, t: Seq<(DropAsk, DropReply)>, i: int)
    requires
        drop_trace(force, t),
        0 <= i < t.len(),
    ensures
        left(t[i].0) + i <= 105 || left(t[i].0) == 0,
    decreases i,
{
    if i > 0 {
        law_drop_ends(force, t, i - 1);
        assert(t[i - 1 + 1].0 == drop_next(force, t[i - 1].0, t[i - 1].1));
    }
}

/// Each step of the command has its cause in what was found before it. A worktree
/// whose metadata cannot be read is gone on with only under `--force`, and its
/// target counts as unknown; a process is passed over only where none runs or it
/// was ended; a mount is looked at again only after it was tried to be taken down,
/// 30 times at most; what is moved aside was found not to hold the host directory;
/// and the worktree is reported as discarded only once deleting it worked.
pub proof fn law_drop_steps_have_a_cause(force: bool, t: Seq<(DropAsk, DropReply)>, i: int)
    requires
        drop_trace(force, t),
        0 < i < t.len(),
    ensures
        !(t[i].0 is Open),
        t[i].0 is LoadMeta ==> t[i - 1] == (DropAsk::Open, DropReply::Yes),
        t[i].0 matches DropAsk::CheckRunning { known } ==> t[i - 1].0 is LoadMeta && (t[i - 1].1 == (
        DropReply::Meta { target_known: known }) || (!(t[i - 1].1 is Meta) && force && !known)),
        t[i].0 matches DropAsk::Terminate { pid, known } ==> force && t[i - 1] == (
            DropAsk::CheckRunning { known },
            DropReply::Pid(Some(pid)),
        ),
        t[i].0 matches DropAsk::ProbeMount { tries } ==> {
            ||| tries == 0 && t[i - 1].0 == (DropAsk::CheckRunning { known: true }) && !(t[i
                - 1].1 matches DropReply::Pid(Some(_)))
            ||| tries == 0 && (t[i - 1].0 matches DropAsk::Terminate { pid, known } && known) && t[i
                - 1].1 is Yes
            ||| tries > 0 && t[i - 1].0 == (DropAsk::Unmount { tries: (tries - 1) as u32 })
        },
        t[i].0 matches DropAsk::Unmount { tries } ==> force && t[i - 1] == (
            DropAsk::ProbeMount { tries },
            DropReply::Mount { mounted: true, leftover: true, ours: true },
        ),
        t[i].0 is CheckMounted ==> (t[i - 1].0 is ProbeMount && (t[i
            - 1].1 matches DropReply::Mount { mounted, leftover, ours } && !mounted)) || (t[i
            - 1].0 matches DropAsk::Unmount { tries } && tries >= 29),
        t[i].0 is CheckBlocked ==> (t[i - 1].0 is CheckMounted && !(t[i - 1].1 is No)) || (t[i
            - 1].0 is ProbeMount && (t[i - 1].1 matches DropReply::Mount { mounted, leftover, ours }
            && mounted && !(leftover && ours))),
        t[i].0 is SweepTrash ==> t[i - 1] == (DropAsk::CheckMounted, DropReply::No) || (t[i - 1].0
            == (DropAsk::CheckRunning { known: false }) && !(t[i - 1].1 matches DropReply::Pid(
            Some(_),
        ))) || (t[i - 1].0 matches DropAsk::Terminate { pid, known } && !known && t[i - 1].1 is Yes),
        t[i].0 is CheckHost ==> t[i - 1].0 is SweepTrash,
        t[i].0 is MoveAside ==> t[i - 1] == (DropAsk::CheckHost, DropReply::No),
        t[i].0 is CheckMoved ==> t[i - 1] == (DropAsk::MoveAside, DropReply::Yes),
        t[i].0 is MoveBack ==> t[i - 1].0 is CheckMoved && !(t[i - 1].1 is No),
        t[i].0 matches DropAsk::Delete { tries } ==> if tries == 0 {
            t[i - 1] == (DropAsk::CheckMoved, DropReply::No)
        } else {
            tries < 30 && t[i - 1].0 == (DropAsk::Delete { tries: (tries - 1) as u32 }) && !(t[i
                - 1].1 is Yes)
        },
        t[i].0 is Report ==> t[i - 1].0 is Report || (t[i - 1].0 is Delete && t[i - 1].1 is Yes),
{
    assert(t[i - 1 + 1].0 == drop_next(force, t[i - 1].0, t[i - 1].1));
}

/// The command is refused only for a reason, and for that one: unreadable metadata,
/// a process that runs, or an own mount, without `--force`; a process that
/// could not be ended; a mount that is not the worktree's own or cannot be taken
/// down, told apart by whether the worktree holds the host directory; the host
/// directory itself, before the worktree was moved aside or after; or the system.
pub proof fn law_drop_is_refused_for_a_reason(
    force: bool,
    t: Seq<(DropAsk, DropReply)>,
    i: int,
    e: DropRefusal,
)
    requires
        drop_trace(force, t),
        0 <= i && i + 1 < t.len(),
        t[i + 1].0 == DropAsk::Refuse(e),
    ensures
        t[i].0 == DropAsk::Refuse(e) || match e {
            DropRefusal::Damaged => t[i].0 is LoadMeta && !(t[i].1 is Meta) && !force,
            DropRefusal::Running(p) => t[i].0 is CheckRunning && t[i].1 == DropReply::Pid(Some(p))
                && !force,
            DropRefusal::Survived(p) => (t[i].0 matches DropAsk::Terminate { pid, known } && pid
                == p) && !(t[i].1 is Yes),
            DropRefusal::StillMounted => t[i].0 is ProbeMount && t[i].1 == (
            DropReply::Mount { mounted: true, leftover: true, ours: true }) && !force,
            DropRefusal::Blocked => t[i].0 is CheckBlocked && !(t[i].1 is No),
            DropRefusal::ForeignMount => t[i].0 is CheckBlocked && t[i].1 is No,
            DropRefusal::HoldsHost => t[i].0 is CheckHost && !(t[i].1 is No),
            DropRefusal::RolledBack => i > 0 && t[i].0 is MoveBack && t[i - 1].0 is CheckMoved && !(
            t[i - 1].1 is No),
            DropRefusal::System => {
                ||| (t[i].0 is Open || t[i].0 is MoveAside) && !(t[i].1 is Yes)
                ||| t[i].0 is ProbeMount && !(t[i].1 is Mount)
                ||| (t[i].0 matches DropAsk::Delete { tries } && tries >= 29) && !(t[i].1 is Yes)
            },
        },
{
    assert((t[i + 1]).0 == drop_next(force, t[i].0, t[i].1));
    if t[i].0 is MoveBack {
        assert(i > 0);
        law_drop_steps_have_a_cause(force, t, i);
    }
}

/// The command ends: after 105 steps at most it reports or refuses, and what it
/// then says stays.
pub proof fn law_drop_comes_to_an_end(force: bool, t: Seq<(DropAsk, DropReply)>, i: int, k: int)
    requires
        drop_trace(force, t),
        0 <= i <= k < t.len(),
    ensures
        k >= 105 ==> t[k].0 is Report || t[k].0 is Refuse,
        t[i].0 is Report ==> t[k].0 is Report,
        t[i].0 is Refuse ==> t[k].0 == t[i].0,
    decreases k - i,
{
    law_drop_ends(force, t, k);
    if i < k {
        law_drop_comes_to_an_end(force, t, i, k - 1);
        assert(t[k - 1 + 1].0 == drop_next(force, t[k - 1].0, t[k - 1].1));
    }
}

// ------------------------------------------------------------------ process

/// What ending a process asks for next.
#[derive(Clone, Copy, Debug, PartialEq, Eq, Structural)]
pub enum EndAsk {
    /// Ask it to end.
    Signal,
    /// Does it live? Then wait a little. `tries`: how often it did.
    Probe { tries: u32 },
    /// Kill it.
    Kill,
    /// Does it live, and not as a zombie? Then wait a little.
    ProbeKilled { tries: u32 },
    /// It is gone.
    Gone,
    /// It is still there.
    Survived,
}

/// What is found of a process.
#[derive(Clone, Copy, Debug, PartialEq, Eq, Structural)]
pub struct Vital {
    pub alive: bool,
    /// It has ended, and waits for its parent.
    pub zombie: bool,
}

/// How often a process is looked at. On Windows there is only one way to end
/// one.
pub open spec fn patience(os: HostOs) -> int {
    if os == HostOs::Windows {
        50
    } else {
        20
    }
}

/// The step after a step of ending a process.
pub open spec fn end_next(os: HostOs, ask: EndAsk, v: Vital) -> EndAsk {
    match ask {
        EndAsk::Signal => EndAsk::Probe { tries: 0 },
        EndAsk::Probe { tries } => if !v.alive {
            EndAsk::Gone
        } else if tries + 1 < patience(os) {
            EndAsk::Probe { tries: (tries + 1) as u32 }
        } else if os == HostOs::Windows {
            EndAsk::Survived
        } else {
            EndAsk::Kill
        },
        EndAsk::Kill => EndAsk::ProbeKilled { tries: 0 },
        EndAsk::ProbeKilled { tries } => if !v.alive || v.zombie {
            EndAsk::Gone
        } else if tries + 1 < patience(os) {
            EndAsk::ProbeKilled { tries: (tries + 1) as u32 }
        } else {
            EndAsk::Survived
        },
        EndAsk::Gone => EndAsk::Gone,
        EndAsk::Survived => EndAsk::Survived,
    }
}

/// Ends a process, one step at a time: it is asked to end, then killed.
pub fn terminate(os: HostOs, ask: EndAsk, v: Vital) -> (r: EndAsk)
    ensures
        r == end_next(os, ask, v),
{
    let windows = match os {
        HostOs::Windows => true,
        _ => false,
    };
    let most: u32 = if windows {
        50
    } else {
        20
    };
    match ask {
        EndAsk::Signal => EndAsk::Probe { tries: 0 },
        EndAsk::Probe { tries } => if !v.alive {
            EndAsk::Gone
        } else if tries < most - 1 {
            EndAsk::Probe { tries: tries + 1 }
        } else if windows {
            EndAsk::Survived
        } else {
            EndAsk::Kill
        },
        EndAsk::Kill => EndAsk::ProbeKilled { tries: 0 },
        EndAsk::ProbeKilled { tries } => if !v.alive || v.zombie {
            EndAsk::Gone
        } else if tries < most - 1 {
            EndAsk::ProbeKilled { tries: tries + 1 }
        } else {
            EndAsk::Survived
        },
        EndAsk::Gone => EndAsk::Gone,
        EndAsk::Survived => EndAsk::Survived,
    }
}

/// The steps of ending a process, with what was found at each.
pub open spec fn end_trace(os: HostOs, t: Seq<(EndAsk, Vital)>) -> bool {
    &&& t.len() > 0 ==> t[0].0 is Signal
    &&& forall|i: int|
        0 <= i && i + 1 < t.len() ==> (#[trigger] t[i + 1]).0 == end_next(os, t[i].0, t[i].1)
}

/// A look at a process that shows it to be gone. A zombie counts as gone only
/// once it was killed.
pub open spec fn shows_end(ask: EndAsk, v: Vital) -> bool {
    match ask {
        EndAsk::Probe { tries } => !v.alive,
        EndAsk::ProbeKilled { tries } => !v.alive || v.zombie,
        _ => false,
    }
}

/// A process is only called gone where it was found not to live, or, after it
/// was killed, to be a zombie; and it is killed only after it was asked to end
/// and was found alive.
pub proof fn law_gone_is_gone(os: HostOs, t: Seq<(EndAsk, Vital)>, i: int)
    requires
        end_trace(os, t),
        0 <= i < t.len(),
    ensures
        t[i].0 is Gone ==> exists|j: int|
            0 <= j < i && shows_end((#[trigger] t[j]).0, t[j].1),
        t[i].0 is Kill ==> i > 1 && t[i - 1].0 is Probe && t[i - 1].1.alive && t[0].0 is Signal,
    decreases i,
{
    if i > 0 {
        law_gone_is_gone(os, t, i - 1);
        assert(t[i - 1 + 1].0 == end_next(os, t[i - 1].0, t[i - 1].1));
        if t[i].0 is Gone && !(t[i - 1].0 is Gone) {
            assert(shows_end(t[i - 1].0, t[i - 1].1));
        }
    }
}

/// A process is asked to end once. It is then looked at up to 20 times while it
/// lives, then killed once, and looked at up to 20 times more while it lives and is
/// no zombie; on Windows it is looked at up to 50 times and not killed. It is called
/// gone at the first look that shows it so, and a survivor only after the last.
pub proof fn law_ending_is_patient(os: HostOs, t: Seq<(EndAsk, Vital)>, i: int)
    requires
        end_trace(os, t),
        0 <= i < t.len(),
    ensures
        t[i].0 is Signal <==> i == 0,
        t[i].0 matches EndAsk::Probe { tries } ==> i == tries + 1 && tries < (if os is Windows {
            50int
        } else {
            20int
        }) && (tries > 0 ==> t[i - 1].0 is Probe && t[i - 1].1.alive),
        t[i].0 is Kill ==> i == 21 && !(os is Windows) && t[20].0 is Probe && t[20].1.alive,
        t[i].0 matches EndAsk::ProbeKilled { tries } ==> i == tries + 22 && tries < 20 && !(
        os is Windows) && t[21].0 is Kill && (tries > 0 ==> t[i - 1].0 is ProbeKilled && t[i
            - 1].1.alive && !t[i - 1].1.zombie),
        t[i].0 is Gone ==> {
            ||| t[i - 1].0 is Gone
            ||| t[i - 1].0 is Probe && !t[i - 1].1.alive
            ||| t[i - 1].0 is ProbeKilled && (!t[i - 1].1.alive || t[i - 1].1.zombie)
        },
        t[i].0 is Survived ==> {
            ||| t[i - 1].0 is Survived
            ||| os is Windows && i == 51 && t[50].0 is Probe && t[50].1.alive
            ||| !(os is Windows) && i == 42 && t[41].0 is ProbeKilled && t[41].1.alive
                && !t[41].1.zombie
        },
        i >= 51 || (!(os is Windows) && i >= 42) ==> t[i].0 is Gone || t[i].0 is Survived,
    decreases i,
{
    if i > 0 {
        law_ending_is_patient(os, t, i - 1);
        assert(t[i - 1 + 1].0 == end_next(os, t[i - 1].0, t[i - 1].1));
        if t[i].0 is ProbeKilled && t[i - 1].0 is ProbeKilled {
            assert(t[21].0 is Kill);
        }
    }
}

/// The error for a process that could not be ended.
pub fn survived_message(os: HostOs, pid: u32) -> (r: String)
    ensures
        r@ == "process "@ + number::decimal(pid as nat) + if os == HostOs::Windows {
            " survived taskkill /F; refusing to continue. Investigate the process, then drop again"@
        } else {
            " survived SIGKILL (uninterruptible or protected); refusing to continue. Investigate the process, then drop again"@
        },
{
    let p = decimal_text(pid as u128);
    let why = match os {
        HostOs::Windows =>
            " survived taskkill /F; refusing to continue. Investigate the process, then drop again",
        _ =>
            " survived SIGKILL (uninterruptible or protected); refusing to continue. Investigate the process, then drop again",
    };
    cat3("process ", p.as_str(), why)
}

// -------------------------------------------------------------------- trash

/// The name under which a worktree's state is moved aside before it is deleted.
pub open spec fn trash_text(id: Seq<char>, nanos: nat) -> Seq<char> {
    ".trash-"@ + id + "-"@ + number::decimal(nanos)
}

/// The name under which a worktree's state is moved aside before it is deleted.
pub fn trash_name(id: &str, nanos: u128) -> (r: String)
    ensures
        r@ == trash_text(id@, nanos as nat),
        r@ == ".trash-"@ + id@ + "-"@ + number::decimal(nanos as nat),
{
    let n = decimal_text(nanos);
    cat4(".trash-", id, "-", n.as_str())
}

/// What was moved aside is no worktree any more: its name is none that can be
/// looked up.
pub proof fn law_trash_is_no_worktree(os: HostOs, id: Seq<char>, nanos: nat)
    ensures
        !state::valid_name(os, trash_text(id, nanos)),
{
    let t = trash_text(id, nanos);
    assert(t =~= ".trash-"@ + (id + "-"@ + number::decimal(nanos)));
    assert(".trash-"@.is_prefix_of(t));
}

/// What to do about an entry of the state root.
#[derive(Clone, Copy, Debug, PartialEq, Eq, Structural)]
pub enum TrashStep {
    /// It is no leftover of this command.
    Leave,
    /// It holds a host directory: say so, and leave it.
    Warn,
    /// Delete it.
    Remove,
}

/// What to do about an entry of the state root. A leftover that holds a host
/// directory is never deleted.
pub fn sweep_trash(name: &str, holds_host: bool) -> (r: TrashStep)
    ensures
        r == if !".trash-"@.is_prefix_of(name@) {
            TrashStep::Leave
        } else if holds_host {
            TrashStep::Warn
        } else {
            TrashStep::Remove
        },
{
    if !starts_with(name, ".trash-") {
        TrashStep::Leave
    } else if holds_host {
        TrashStep::Warn
    } else {
        TrashStep::Remove
    }
}

/// The warning for a leftover that holds a host directory.
pub fn trash_warning(place: &str) -> (r: String)
    ensures
        r@ == "cowt: warning: "@ + place@
            + " still holds a moved-aside host dir; not sweeping it"@,
{
    cat3("cowt: warning: ", place, " still holds a moved-aside host dir; not sweeping it")
}

// ------------------------------------------------------------------- report

/// The metadata that stands for one that cannot be read: only the id is known.
pub fn damaged_meta(id: &str) -> (r: WorktreeMeta)
    ensures
        r@ == (MetaView {
            id: id@,
            name: None,
            target: Seq::empty(),
            created_epoch: 0,
            status: Status::Ready,
            backend: Seq::empty(),
        }),
{
    let r = WorktreeMeta {
        id: id.to_owned(),
        name: None,
        target: String::new(),
        created_epoch: 0,
        status: Status::Ready,
        backend: String::new(),
    };
    assert(r.target@ =~= Seq::<char>::empty());
    assert(r.backend@ =~= Seq::<char>::empty());
    r
}

/// The report of a discarded worktree.
pub fn dropped_message(id: &str, target: &str) -> (r: String)
    ensures
        r@ == "dropped worktree "@ + state::shown(id@) + " ("@ + state::shown(target@)
            + "): isolated data deleted, host directory untouched"@,
{
    let i = sanitize_display(id);
    let t = sanitize_display(target);
    cat5(
        "dropped worktree ",
        i.as_str(),
        " (",
        t.as_str(),
        "): isolated data deleted, host directory untouched",
    )
}

/// What the errors of `drop` speak of.
#[derive(Debug)]
pub struct DropFacts {
    pub id: String,
    pub target: String,
    /// The worktree's state.
    pub dir: String,
    /// Where the worktree holds the host directory, if it does.
    pub aside: String,
    /// Where it would hold it once its state is moved aside.
    pub trashed: String,
    /// What the system said.
    pub system: String,
}

impl DropRefusal {
    /// The text of the error.
    pub open spec fn text(self, os: HostOs, f: DropFacts) -> Seq<char> {
        match self {
            DropRefusal::Damaged => "worktree state at "@ + f.dir@
                + " has an unreadable meta.json ("@ + f.system@
                + "); use --force to discard the damaged worktree"@,
            DropRefusal::Running(p) => "worktree '"@ + f.id@ + "' has a running process (pid "@
                + number::decimal(p as nat) + "); refusing to drop. Stop it or use --force."@,
            DropRefusal::Survived(p) => "process "@ + number::decimal(p as nat) + if os
                == HostOs::Windows {
                " survived taskkill /F; refusing to continue. Investigate the process, then drop again"@
            } else {
                " survived SIGKILL (uninterruptible or protected); refusing to continue. Investigate the process, then drop again"@
            },
            DropRefusal::StillMounted => f.target@
                + " is still mounted; refusing to drop. Unmount it or use --force."@,
            DropRefusal::Blocked => f.target@
                + " is blocked by leftover state (host dir still moved aside at "@ + f.aside@
                + "); clear the blocker at the mount point, then drop again"@,
            DropRefusal::ForeignMount => f.target@
                + " is mounted by something else (not a cowt leftover); refusing to unmount it"@,
            DropRefusal::HoldsHost => "the host directory is still moved aside at "@ + f.aside@
                + "; refusing to delete it. Restore it (or clear the blocker at the mount point) and drop again"@,
            DropRefusal::RolledBack => "the host directory moved aside into "@ + f.trashed@
                + " during drop; rolled back. Retry after the run finishes"@,
            DropRefusal::System => f.system@,
        }
    }

    /// The text of the error.
    pub fn message(self, os: HostOs, f: &DropFacts) -> (r: String)
        ensures
            r@ == self.text(os, *f),
            r@ == match self {
                DropRefusal::Damaged => "worktree state at "@ + f.dir@
                    + " has an unreadable meta.json ("@ + f.system@
                    + "); use --force to discard the damaged worktree"@,
                DropRefusal::Running(p) => "worktree '"@ + f.id@ + "' has a running process (pid "@
                    + number::decimal(p as nat) + "); refusing to drop. Stop it or use --force."@,
                DropRefusal::Survived(p) => "process "@ + number::decimal(p as nat) + if os
                    == HostOs::Windows {
                    " survived taskkill /F; refusing to continue. Investigate the process, then drop again"@
                } else {
                    " survived SIGKILL (uninterruptible or protected); refusing to continue. Investigate the process, then drop again"@
                },
                DropRefusal::StillMounted => f.target@
                    + " is still mounted; refusing to drop. Unmount it or use --force."@,
                DropRefusal::Blocked => f.target@
                    + " is blocked by leftover state (host dir still moved aside at "@ + f.aside@
                    + "); clear the blocker at the mount point, then drop again"@,
                DropRefusal::ForeignMount => f.target@
                    + " is mounted by something else (not a cowt leftover); refusing to unmount it"@,
                DropRefusal::HoldsHost => "the host directory is still moved aside at "@ + f.aside@
                    + "; refusing to delete it. Restore it (or clear the blocker at the mount point) and drop again"@,
                DropRefusal::RolledBack => "the host directory moved aside into "@ + f.trashed@
                    + " during drop; rolled back. Retry after the run finishes"@,
                DropRefusal::System => f.system@,
            },
    {
        match self {
            DropRefusal::Damaged => cat5(
                "worktree state at ",
                f.dir.as_str(),
                " has an unreadable meta.json (",
                f.system.as_str(),
                "); use --force to discard the damaged worktree",
            ),
            DropRefusal::Running(p) => {
                let n = decimal_text(p as u128);
                cat5(
                    "worktree '",
                    f.id.as_str(),
                    "' has a running process (pid ",
                    n.as_str(),
                    "); refusing to drop. Stop it or use --force.",
                )
            },
            DropRefusal::Survived(p) => survived_message(os, p),
            DropRefusal::StillMounted => cat2(
                f.target.as_str(),
                " is still mounted; refusing to drop. Unmount it or use --force.",
            ),
            DropRefusal::Blocked => cat4(
                f.target.as_str(),
                " is blocked by leftover state (host dir still moved aside at ",
                f.aside.as_str(),
                "); clear the blocker at the mount point, then drop again",
            ),
            DropRefusal::ForeignMount => cat2(
                f.target.as_str(),
                " is mounted by something else (not a cowt leftover); refusing to unmount it",
            ),
            DropRefusal::HoldsHost => cat3(
                "the host directory is still moved aside at ",
                f.aside.as_str(),
                "; refusing to delete it. Restore it (or clear the blocker at the mount point) and drop again",
            ),
            DropRefusal::RolledBack => cat3(
                "the host directory moved aside into ",
                f.trashed.as_str(),
                " during drop; rolled back. Retry after the run finishes",
            ),
            DropRefusal::System => f.system.clone(),
        }
    }
}

} // verus!
