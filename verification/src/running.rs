//! Running a command in the merged view of a worktree.

use vstd::prelude::*;
use crate::backend::{exit_code_and_desc, recover_stale_mount, spawn_error_code, Mode, Recovery, SpawnError};
use crate::host::HostOs;
use crate::number;
use crate::number::decimal_text;
use crate::steps;
use crate::text;
use crate::text::{cat2, cat3, cat5};

verus! {

/// What a backend does around a command.
#[derive(Clone, Copy, Debug, PartialEq, Eq, Structural)]
pub struct RunPlan {
    /// It mounts the view before, and takes it down after.
    pub mounts: bool,
    /// It kills what is left of the command's process group: the system has
    /// process groups, and the mount is in reach of them.
    pub reaps_group: bool,
    /// It copies into the layer what a renamed directory only shows through
    /// the view.
    pub materializes: bool,
    /// Taking the view down is tried once only.
    pub unmounts_once: bool,
    /// A command that cannot be started ends like a shell's.
    pub shell_codes: bool,
}

/// What the backend of a platform does around a command.
pub fn run_plan(os: HostOs, mode: Mode) -> (r: RunPlan)
    ensures
        r == match os {
            HostOs::Linux => match mode {
                Mode::KernelDirect => (RunPlan {
                    mounts: true,
                    reaps_group: true,
                    materializes: true,
                    unmounts_once: false,
                    shell_codes: true,
                }),
                Mode::KernelUserns => (RunPlan {
                    mounts: false,
                    reaps_group: false,
                    materializes: false,
                    unmounts_once: false,
                    shell_codes: false,
                }),
                Mode::Fuse => (RunPlan {
                    mounts: true,
                    reaps_group: true,
                    materializes: false,
                    unmounts_once: false,
                    shell_codes: true,
                }),
            },
            _ => (RunPlan {
                mounts: true,
                reaps_group: os != HostOs::Windows,
                materializes: false,
                unmounts_once: true,
                shell_codes: true,
            }),
        },
{
    match os {
        HostOs::Linux => match mode {
            Mode::KernelDirect => RunPlan {
                mounts: true,
                reaps_group: true,
                materializes: true,
                unmounts_once: false,
                shell_codes: true,
            },
            Mode::KernelUserns => RunPlan {
                mounts: false,
                reaps_group: false,
                materializes: false,
                unmounts_once: false,
                shell_codes: false,
            },
            Mode::Fuse => RunPlan {
                mounts: true,
                reaps_group: true,
                materializes: false,
                unmounts_once: false,
                shell_codes: true,
            },
        },
        HostOs::Windows => RunPlan {
            mounts: true,
            reaps_group: false,
            materializes: false,
            unmounts_once: true,
            shell_codes: true,
        },
        _ => RunPlan {
            mounts: true,
            reaps_group: true,
            materializes: false,
            unmounts_once: true,
            shell_codes: true,
        },
    }
}

/// How the wait for a command ended.
#[derive(Clone, Copy, Debug, PartialEq, Eq, Structural)]
pub enum Waited {
    Exited { signal: Option<i32>, code: Option<i32> },
    Failed,
}

/// How a run ended.
#[derive(Clone, Copy, Debug, PartialEq, Eq, Structural)]
pub enum RunEnd {
    /// The command ended.
    Exited { signal: Option<i32>, code: Option<i32> },
    /// The command could not be started; this is the shell's code for that.
    StartFailed(i32),
    /// The view could not be mounted.
    MountFailed,
    /// The command could not be started.
    SpawnFailed,
    /// Another run holds the pid file, or it could not be written.
    PidfileFailed,
    /// The wait for the command failed.
    WaitFailed,
}

/// What a run asks for next.
#[derive(Clone, Copy, Debug, PartialEq, Eq, Structural)]
pub enum RunAsk {
    /// Mount the view. From then on it is guarded.
    Mount,
    /// Start the command.
    Spawn,
    /// Record the command in the pid file.
    WritePidfile,
    /// Kill the command, which no pid file records, and wait for it.
    Reap,
    /// Pass signals on to the command, and wait for it.
    Wait,
    /// Kill what is left of the command's process group.
    KillGroup(Waited),
    /// Copy what a renamed directory only shows through the view.
    Materialize(Waited),
    /// Take the view down because the command could not be started.
    UnmountUnstarted(SpawnError),
    /// Take the view down after the command.
    Unmount(Waited),
    /// Let go of the guard, which takes the view down.
    Release(RunEnd),
    /// The run is over.
    End(RunEnd),
}

/// What came of it.
#[derive(Clone, Copy, Debug, PartialEq, Eq, Structural)]
pub enum RunReply {
    Worked,
    Failed,
    NotStarted(SpawnError),
    Waited(Waited),
}

/// The end of a run whose command could not be started.
pub open spec fn unstarted(plan: RunPlan, e: SpawnError) -> RunEnd {
    if plan.shell_codes && e is NotFound {
        RunEnd::StartFailed(127)
    } else if plan.shell_codes && e is PermissionDenied {
        RunEnd::StartFailed(126)
    } else {
        RunEnd::SpawnFailed
    }
}

/// The end of a run whose command was waited for.
pub open spec fn ended(w: Waited) -> RunEnd {
    match w {
        Waited::Exited { signal, code } => RunEnd::Exited { signal, code },
        Waited::Failed => RunEnd::WaitFailed,
    }
}

/// The first step of a run.
pub open spec fn run_first(plan: RunPlan) -> RunAsk {
    if plan.mounts {
        RunAsk::Mount
    } else {
        RunAsk::Spawn
    }
}

/// What follows once nothing of the command runs any more.
pub open spec fn after_group(plan: RunPlan, w: Waited) -> RunAsk {
    if plan.materializes {
        RunAsk::Materialize(w)
    } else {
        after_copy(plan, w)
    }
}

/// What follows once the layer is complete.
pub open spec fn after_copy(plan: RunPlan, w: Waited) -> RunAsk {
    if plan.mounts {
        RunAsk::Unmount(w)
    } else {
        RunAsk::End(ended(w))
    }
}

/// The step after a step of a run.
pub open spec fn run_next(plan: RunPlan, ask: RunAsk, reply: RunReply) -> RunAsk {
    match ask {
        RunAsk::Mount => if reply is Worked {
            RunAsk::Spawn
        } else {
            RunAsk::End(RunEnd::MountFailed)
        },
        RunAsk::Spawn => if reply is Worked {
            RunAsk::WritePidfile
        } else {
            let e = match reply {
                RunReply::NotStarted(e) => e,
                _ => SpawnError::Other,
            };
            if plan.mounts {
                RunAsk::UnmountUnstarted(e)
            } else {
                RunAsk::End(unstarted(plan, e))
            }
        },
        RunAsk::WritePidfile => if reply is Worked {
            RunAsk::Wait
        } else {
            RunAsk::Reap
        },
        RunAsk::Reap => if plan.mounts {
            RunAsk::Release(RunEnd::PidfileFailed)
        } else {
            RunAsk::End(RunEnd::PidfileFailed)
        },
        RunAsk::Wait => {
            let w = match reply {
                RunReply::Waited(w) => w,
                _ => Waited::Failed,
            };
            if plan.reaps_group {
                RunAsk::KillGroup(w)
            } else {
                after_group(plan, w)
            }
        },
        RunAsk::KillGroup(w) => after_group(plan, w),
        RunAsk::Materialize(w) => after_copy(plan, w),
        RunAsk::UnmountUnstarted(e) => RunAsk::End(unstarted(plan, e)),
        RunAsk::Unmount(w) => if reply is Worked || plan.unmounts_once {
            RunAsk::End(ended(w))
        } else {
            RunAsk::Release(ended(w))
        },
        RunAsk::Release(e) => RunAsk::End(e),
        RunAsk::End(e) => RunAsk::End(e),
    }
}

/// The first step of a run.
pub fn run_start(plan: RunPlan) -> (r: RunAsk)
    ensures
        r == run_first(plan),
{
    if plan.mounts {
        RunAsk::Mount
    } else {
        RunAsk::Spawn
    }
}

fn end_of(w: Waited) -> (r: RunEnd)
    ensures
        r == ended(w),
{
    match w {
        Waited::Exited { signal, code } => RunEnd::Exited { signal, code },
        Waited::Failed => RunEnd::WaitFailed,
    }
}

fn end_unstarted(plan: RunPlan, e: SpawnError) -> (r: RunEnd)
    ensures
        r == unstarted(plan, e),
{
    if plan.shell_codes {
        match spawn_error_code(e) {
            Some(c) => RunEnd::StartFailed(c),
            None => RunEnd::SpawnFailed,
        }
    } else {
        RunEnd::SpawnFailed
    }
}

fn step_after_copy(plan: RunPlan, w: Waited) -> (r: RunAsk)
    ensures
        r == after_copy(plan, w),
{
    if plan.mounts {
        RunAsk::Unmount(w)
    } else {
        RunAsk::End(end_of(w))
    }
}

fn step_after_group(plan: RunPlan, w: Waited) -> (r: RunAsk)
    ensures
        r == after_group(plan, w),
{
    if plan.materializes {
        RunAsk::Materialize(w)
    } else {
        step_after_copy(plan, w)
    }
}

/// Runs a command in the merged view, one step at a time.
pub fn run_isolated(plan: RunPlan, ask: RunAsk, reply: RunReply) -> (r: RunAsk)
    ensures
        r == run_next(plan, ask, reply),
{
    let ok = match reply {
        RunReply::Worked => true,
        _ => false,
    };
    match ask {
        RunAsk::Mount => if ok {
            RunAsk::Spawn
        } else {
            RunAsk::End(RunEnd::MountFailed)
        },
        RunAsk::Spawn => if ok {
            RunAsk::WritePidfile
        } else {
            let e = match reply {
                RunReply::NotStarted(e) => e,
                _ => SpawnError::Other,
            };
            if plan.mounts {
                RunAsk::UnmountUnstarted(e)
            } else {
                RunAsk::End(end_unstarted(plan, e))
            }
        },
        RunAsk::WritePidfile => if ok {
            RunAsk::Wait
        } else {
            RunAsk::Reap
        },
        RunAsk::Reap => if plan.mounts {
            RunAsk::Release(RunEnd::PidfileFailed)
        } else {
            RunAsk::End(RunEnd::PidfileFailed)
        },
        RunAsk::Wait => {
            let w = match reply {
                RunReply::Waited(w) => w,
                _ => Waited::Failed,
            };
            if plan.reaps_group {
                RunAsk::KillGroup(w)
            } else {
                step_after_group(plan, w)
            }
        },
        RunAsk::KillGroup(w) => step_after_group(plan, w),
        RunAsk::Materialize(w) => step_after_copy(plan, w),
        RunAsk::UnmountUnstarted(e) => RunAsk::End(end_unstarted(plan, e)),
        RunAsk::Unmount(w) => if ok || plan.unmounts_once {
            RunAsk::End(end_of(w))
        } else {
            RunAsk::Release(end_of(w))
        },
        RunAsk::Release(e) => RunAsk::End(e),
        RunAsk::End(e) => RunAsk::End(e),
    }
}

/// The steps of a run, with what came of each.
pub open spec fn run_trace(plan: RunPlan, t: Seq<(RunAsk, RunReply)>) -> bool {
    &&& t.len() > 0 ==> t[0].0 == run_first(plan)
    &&& forall|i: int|
        0 <= i && i + 1 < t.len() ==> (#[trigger] t[i + 1]).0 == run_next(plan, t[i].0, t[i].1)
}

/// A step that takes the view down.
pub open spec fn takes_down(ask: RunAsk) -> bool {
    ask is Unmount || ask is UnmountUnstarted || ask is Release
}

/// A view that was mounted is taken down, however the run ends: where the
/// command cannot be started, where its pid file cannot be written, and where
/// the wait for it fails.
pub proof fn law_mounted_view_is_taken_down(plan: RunPlan, t: Seq<(RunAsk, RunReply)>, k: int)
    requires
        run_trace(plan, t),
        0 <= k < t.len(),
        t.len() > 0,
        t[0] == (RunAsk::Mount, RunReply::Worked),
    ensures
        t[k].0 is End ==> exists|j: int| 0 < j < k && takes_down((#[trigger] t[j]).0),
        k > 0 ==> !(t[k].0 is Mount),
    decreases k,
{
    if k > 0 {
        law_mounted_view_is_taken_down(plan, t, k - 1);
        assert(t[k - 1 + 1].0 == run_next(plan, t[k - 1].0, t[k - 1].1));
        assert(plan.mounts);
        if t[k].0 is End && !(t[k - 1].0 is End) {
            assert(takes_down(t[k - 1].0));
        }
    }
}

/// A command that was started is waited for, or killed and waited for, before
/// the run ends: none is left running unrecorded.
pub proof fn law_started_command_is_reaped(
    plan: RunPlan,
    t: Seq<(RunAsk, RunReply)>,
    i: int,
    k: int,
)
    requires
        run_trace(plan, t),
        0 <= i < k < t.len(),
        t[i] == (RunAsk::Spawn, RunReply::Worked),
        t[k].0 is End,
    ensures
        i + 2 < k,
        t[i + 1].0 is WritePidfile,
        t[i + 2].0 is Wait || t[i + 2].0 is Reap,
        t[i + 2].0 is Wait <==> t[i + 1].1 is Worked,
{
    assert(t[i + 1].0 == run_next(plan, t[i].0, t[i].1));
    assert(i + 1 < k);
    assert(t[i + 1 + 1].0 == run_next(plan, t[i + 1].0, t[i + 1].1));
}

/// A run that reports how its command ended has waited for that command, and
/// reports what the wait gave.
pub proof fn law_exit_is_the_commands(plan: RunPlan, t: Seq<(RunAsk, RunReply)>, k: int)
    requires
        run_trace(plan, t),
        0 <= k < t.len(),
    ensures
        (match t[k].0 {
            RunAsk::End(e) => e is Exited,
            RunAsk::Release(e) => e is Exited,
            RunAsk::KillGroup(w) => w is Exited,
            RunAsk::Materialize(w) => w is Exited,
            RunAsk::Unmount(w) => w is Exited,
            _ => false,
        }) ==> exists|j: int, w: Waited|
            #![trigger t[j], ended(w)]
            0 <= j < k && t[j] == (RunAsk::Wait, RunReply::Waited(w)) && (match t[k].0 {
                RunAsk::End(e) => e == ended(w),
                RunAsk::Release(e) => e == ended(w),
                RunAsk::KillGroup(v) => v == w,
                RunAsk::Materialize(v) => v == w,
                RunAsk::Unmount(v) => v == w,
                _ => false,
            }),
    decreases k,
{
    if k > 0 {
        law_exit_is_the_commands(plan, t, k - 1);
        assert(t[k - 1 + 1].0 == run_next(plan, t[k - 1].0, t[k - 1].1));
        let p = t[k - 1];
        if p.0 is Wait && p.1 is Waited {
            let w = p.1->Waited_0;
            assert(t[k - 1] == (RunAsk::Wait, RunReply::Waited(w)));
            assert(ended(w) == ended(w));
        } else if (match p.0 {
            RunAsk::End(e) => e is Exited,
            RunAsk::Release(e) => e is Exited,
            RunAsk::KillGroup(w) => w is Exited,
            RunAsk::Materialize(w) => w is Exited,
            RunAsk::Unmount(w) => w is Exited,
            _ => false,
        }) {
            let (j, w) = choose|j: int, w: Waited|
                #![trigger t[j], ended(w)]
                0 <= j < k - 1 && t[j] == (RunAsk::Wait, RunReply::Waited(w)) && (match t[k
                    - 1].0 {
                    RunAsk::End(e) => e == ended(w),
                    RunAsk::Release(e) => e == ended(w),
                    RunAsk::KillGroup(v) => v == w,
                    RunAsk::Materialize(v) => v == w,
                    RunAsk::Unmount(v) => v == w,
                    _ => false,
                });
            assert(t[j] == (RunAsk::Wait, RunReply::Waited(w)));
            assert(ended(w) == ended(w));
        }
    }
}

/// The wait for the command gave this, among the first `n` steps.
pub open spec fn was_waited(t: Seq<(RunAsk, RunReply)>, n: int, w: Waited) -> bool {
    match w {
        Waited::Exited { signal, code } => steps::did(
            t,
            n,
            RunAsk::Wait,
            RunReply::Waited(Waited::Exited { signal, code }),
        ),
        Waited::Failed => exists|j: int|
            0 <= j < n && (#[trigger] t[j]).0 is Wait && !(t[j].1 matches RunReply::Waited(
                Waited::Exited { signal: _, code: _ },
            )),
    }
}

/// The command could not be started for this reason, among the first `n` steps.
pub open spec fn was_unstarted(t: Seq<(RunAsk, RunReply)>, n: int, e: SpawnError) -> bool {
    exists|j: int|
        0 <= j < n && (#[trigger] t[j]).0 is Spawn && !(t[j].1 is Worked) && (t[j].1
            matches RunReply::NotStarted(x) ==> x == e) && (!(t[j].1 is NotStarted) ==> e is Other)
}

/// What a run's end says happened, among the first `n` steps.
pub open spec fn happened(plan: RunPlan, t: Seq<(RunAsk, RunReply)>, n: int, e: RunEnd) -> bool {
    match e {
        RunEnd::Exited { signal, code } => steps::did(
            t,
            n,
            RunAsk::Wait,
            RunReply::Waited(Waited::Exited { signal, code }),
        ),
        RunEnd::WaitFailed => was_waited(t, n, Waited::Failed),
        RunEnd::MountFailed => exists|j: int|
            0 <= j < n && (#[trigger] t[j]).0 is Mount && !(t[j].1 is Worked),
        RunEnd::PidfileFailed => steps::asked(t, n, RunAsk::Reap) && exists|j: int|
            0 <= j < n && (#[trigger] t[j]).0 is WritePidfile && !(t[j].1 is Worked),
        RunEnd::StartFailed(c) => plan.shell_codes && ((c == 127 && was_unstarted(
            t,
            n,
            SpawnError::NotFound,
        )) || (c == 126 && was_unstarted(t, n, SpawnError::PermissionDenied))),
        RunEnd::SpawnFailed => was_unstarted(t, n, SpawnError::Other) || (!plan.shell_codes && (
        was_unstarted(t, n, SpawnError::NotFound) || was_unstarted(
            t,
            n,
            SpawnError::PermissionDenied,
        ))),
    }
}

/// A run reports what happened: an exit is that of the command, with the very
/// signal and code that the wait gave; a command that could not be started gives
/// the shell's codes, 127 where it was not found and 126 where it must not be
/// run; and every other end has its own cause.
pub proof fn law_run_reports_what_happened(plan: RunPlan, t: Seq<(RunAsk, RunReply)>, i: int)
    requires
        run_trace(plan, t),
        0 <= i < t.len(),
    ensures
        t[i].0 matches RunAsk::End(e) ==> happened(plan, t, i, e),
{
    lemma_run_so_far(plan, t, i);
}

/// The steps that lie before one of a run's steps.
spec fn run_so_far(plan: RunPlan, t: Seq<(RunAsk, RunReply)>, i: int) -> bool {
    match t[i].0 {
        RunAsk::Mount => plan.mounts,
        RunAsk::Spawn => plan.mounts ==> steps::did(t, i, RunAsk::Mount, RunReply::Worked),
        RunAsk::WritePidfile => steps::did(t, i, RunAsk::Spawn, RunReply::Worked),
        RunAsk::Reap => exists|j: int|
            0 <= j < i && (#[trigger] t[j]).0 is WritePidfile && !(t[j].1 is Worked),
        RunAsk::Wait => steps::did(t, i, RunAsk::WritePidfile, RunReply::Worked),
        RunAsk::KillGroup(w) => plan.reaps_group && was_waited(t, i, w),
        RunAsk::Materialize(w) => plan.materializes && was_waited(t, i, w) && (plan.reaps_group
            ==> steps::asked(t, i, RunAsk::KillGroup(w))),
        RunAsk::UnmountUnstarted(e) => plan.mounts && was_unstarted(t, i, e),
        RunAsk::Unmount(w) => plan.mounts && was_waited(t, i, w) && (plan.reaps_group
            ==> steps::asked(t, i, RunAsk::KillGroup(w))) && (plan.materializes ==> steps::asked(
            t,
            i,
            RunAsk::Materialize(w),
        )),
        RunAsk::Release(e) => plan.mounts && happened(plan, t, i, e) && (e is PidfileFailed || (
        !plan.unmounts_once && exists|j: int|
            0 <= j < i && (#[trigger] t[j]).0 is Unmount && !(t[j].1 is Worked))),
        RunAsk::End(e) => happened(plan, t, i, e),
    }
}

proof fn lemma_run_so_far(plan: RunPlan, t: Seq<(RunAsk, RunReply)>, i: int)
    requires
        run_trace(plan, t),
        0 <= i < t.len(),
    ensures
        run_so_far(plan, t, i),
    decreases i,
{
    if i > 0 {
        lemma_run_so_far(plan, t, i - 1);
        let (a, r) = t[i - 1];
        assert(t[i - 1 + 1].0 == run_next(plan, a, r));
        assert(t[i - 1] == (a, r));
        assert forall|w: Waited| was_waited(t, i - 1, w) implies was_waited(t, i, w) by {
            if w is Failed {
                let j = choose|j: int|
                    0 <= j < i - 1 && (#[trigger] t[j]).0 is Wait && !(t[j].1
                        matches RunReply::Waited(Waited::Exited { signal: _, code: _ }));
                assert(t[j].0 is Wait);
            }
        }
        assert forall|e: SpawnError| was_unstarted(t, i - 1, e) implies was_unstarted(t, i, e) by {
            let j = choose|j: int|
                0 <= j < i - 1 && (#[trigger] t[j]).0 is Spawn && !(t[j].1 is Worked) && (t[j].1
                    matches RunReply::NotStarted(x) ==> x == e) && (!(t[j].1 is NotStarted)
                    ==> e is Other);
            assert(t[j].0 is Spawn);
        }
        assert forall|e: RunEnd| happened(plan, t, i - 1, e) implies happened(plan, t, i, e) by {
            if e is MountFailed {
                let j = choose|j: int|
                    0 <= j < i - 1 && (#[trigger] t[j]).0 is Mount && !(t[j].1 is Worked);
                assert(t[j].0 is Mount);
            }
            if e is PidfileFailed {
                let j = choose|j: int|
                    0 <= j < i - 1 && (#[trigger] t[j]).0 is WritePidfile && !(t[j].1 is Worked);
                assert(t[j].0 is WritePidfile);
            }
        }
        match a {
            RunAsk::Wait => {
                let w = match r {
                    RunReply::Waited(w) => w,
                    _ => Waited::Failed,
                };
                assert(was_waited(t, i, w));
            },
            RunAsk::Spawn => {
                if !(r is Worked) {
                    let e = match r {
                        RunReply::NotStarted(e) => e,
                        _ => SpawnError::Other,
                    };
                    assert(was_unstarted(t, i, e));
                }
            },
            RunAsk::Reap => {
                let j = choose|j: int|
                    0 <= j < i - 1 && (#[trigger] t[j]).0 is WritePidfile && !(t[j].1 is Worked);
                assert(t[j].0 is WritePidfile);
                assert(happened(plan, t, i, RunEnd::PidfileFailed));
            },
            RunAsk::Unmount(w) => {
                assert(happened(plan, t, i, ended(w)));
            },
            RunAsk::KillGroup(w) => {
                assert(steps::asked(t, i, RunAsk::KillGroup(w)));
                assert(happened(plan, t, i, ended(w)));
            },
            RunAsk::Materialize(w) => {
                assert(steps::asked(t, i, RunAsk::Materialize(w)));
                assert(happened(plan, t, i, ended(w)));
            },
            RunAsk::UnmountUnstarted(e) => {
                assert(happened(plan, t, i, unstarted(plan, e)));
            },
            RunAsk::Release(e) => {
                assert(happened(plan, t, i, e));
            },
            _ => {},
        }
    }
}

/// The steps of a run come in their order. A command is only started in a view
/// that is mounted, where the plan mounts one; it is only waited for once its pid
/// file is written; and the view is only taken down after it, once what is left
/// of its process group was killed and the layer was completed, where the plan
/// does this.
pub proof fn law_run_is_in_order(plan: RunPlan, t: Seq<(RunAsk, RunReply)>, i: int)
    requires
        run_trace(plan, t),
        0 <= i < t.len(),
    ensures
        t[i].0 is Mount ==> plan.mounts,
        t[i].0 is Spawn ==> (plan.mounts ==> steps::did(t, i, RunAsk::Mount, RunReply::Worked)),
        t[i].0 is WritePidfile ==> steps::did(t, i, RunAsk::Spawn, RunReply::Worked),
        t[i].0 is Wait ==> steps::did(t, i, RunAsk::WritePidfile, RunReply::Worked),
        t[i].0 is KillGroup ==> plan.reaps_group,
        t[i].0 is Materialize ==> plan.materializes,
        t[i].0 matches RunAsk::Unmount(w) ==> plan.mounts && (plan.reaps_group ==> steps::asked(
            t,
            i,
            RunAsk::KillGroup(w),
        )) && (plan.materializes ==> steps::asked(t, i, RunAsk::Materialize(w))),
{
    lemma_run_so_far(plan, t, i);
}

/// How far a run has come.
spec fn run_stage(ask: RunAsk) -> int {
    match ask {
        RunAsk::Mount => 0,
        RunAsk::Spawn => 1,
        RunAsk::WritePidfile => 2,
        RunAsk::Reap => 3,
        RunAsk::Wait => 3,
        RunAsk::KillGroup(_) => 4,
        RunAsk::Materialize(_) => 5,
        RunAsk::UnmountUnstarted(_) => 6,
        RunAsk::Unmount(_) => 6,
        RunAsk::Release(_) => 7,
        RunAsk::End(_) => 8,
    }
}

/// A run ends within nine steps, and a run whose command exits ends with that
/// exit: nothing that comes after the wait changes it.
pub proof fn law_exit_is_kept(
    plan: RunPlan,
    t: Seq<(RunAsk, RunReply)>,
    i: int,
    k: int,
    signal: Option<i32>,
    code: Option<i32>,
)
    requires
        run_trace(plan, t),
        0 <= i < k < t.len(),
        t[i] == (RunAsk::Wait, RunReply::Waited(Waited::Exited { signal, code })),
    ensures
        t[k].0 matches RunAsk::End(e) ==> e == (RunEnd::Exited { signal, code }),
        t[k].0 matches RunAsk::Release(e) ==> e == (RunEnd::Exited { signal, code }),
        t[k].0 matches RunAsk::KillGroup(w) ==> w == (Waited::Exited { signal, code }),
        t[k].0 matches RunAsk::Materialize(w) ==> w == (Waited::Exited { signal, code }),
        t[k].0 matches RunAsk::Unmount(w) ==> w == (Waited::Exited { signal, code }),
        k >= 8 ==> t[k].0 == RunAsk::End(RunEnd::Exited { signal, code }),
        t[k].0 is End || t[k].0 is Release || t[k].0 is KillGroup || t[k].0 is Materialize
            || t[k].0 is Unmount,
    decreases k,
{
    lemma_run_stage(plan, t, k);
    assert(t[k - 1 + 1].0 == run_next(plan, t[k - 1].0, t[k - 1].1));
    if k - 1 > i {
        law_exit_is_kept(plan, t, i, k - 1, signal, code);
    }
}

proof fn lemma_run_stage(plan: RunPlan, t: Seq<(RunAsk, RunReply)>, i: int)
    requires
        run_trace(plan, t),
        0 <= i < t.len(),
    ensures
        run_stage(t[i].0) >= i || run_stage(t[i].0) == 8,
    decreases i,
{
    if i > 0 {
        lemma_run_stage(plan, t, i - 1);
        assert(t[i - 1 + 1].0 == run_next(plan, t[i - 1].0, t[i - 1].1));
    }
}

/// A run always ends, within nine steps. One whose every step works, and whose
/// command exits, ends with that exit: it is not given up for another reason.
pub proof fn law_run_goes_through(plan: RunPlan, t: Seq<(RunAsk, RunReply)>, i: int)
    requires
        run_trace(plan, t),
        0 <= i < t.len(),
    ensures
        i >= 8 ==> t[i].0 is End,
        (forall|j: int|
            0 <= j < i && ((#[trigger] t[j]).0 is Mount || t[j].0 is Spawn || t[j].0 is WritePidfile)
                ==> t[j].1 is Worked) ==> !(t[i].0 is Reap) && !(t[i].0 is UnmountUnstarted) && (
        t[i].0 matches RunAsk::End(e) ==> e is Exited || e is WaitFailed) && (
        t[i].0 matches RunAsk::Release(e) ==> e is Exited || e is WaitFailed),
    decreases i,
{
    lemma_run_stage(plan, t, i);
    if i > 0 {
        law_run_goes_through(plan, t, i - 1);
        assert(t[i - 1 + 1].0 == run_next(plan, t[i - 1].0, t[i - 1].1));
        assert(t[i - 1] == t[i - 1]);
    }
}

/// The exit code and the description of a run that gives them.
pub fn run_result(end: RunEnd, command: &str) -> (r: Option<(i32, String)>)
    requires
        end matches RunEnd::Exited { signal: Some(s), code: _ } ==> s <= i32::MAX - 128,
    ensures
        match end {
            RunEnd::Exited { signal, code } => r matches Some(x) && match signal {
                Some(s) => x.0 == 128 + s && x.1@ == "killed by signal "@ + number::decimal_int(
                    s as int,
                ),
                None => {
                    let c = match code {
                        Some(c) => c,
                        None => 1i32,
                    };
                    x.0 == c && x.1@ == "exited with code "@ + number::decimal_int(c as int)
                },
            },
            RunEnd::StartFailed(c) => r matches Some(x) && x.0 == c && x.1@
                == "failed to start '"@ + command@ + "'"@,
            _ => r is None,
        },
{
    match end {
        RunEnd::Exited { signal, code } => Some(exit_code_and_desc(signal, code)),
        RunEnd::StartFailed(c) => Some((c, cat3("failed to start '", command, "'"))),
        _ => None,
    }
}

/// The error for a pid file that a live run holds.
pub fn pidfile_race_message(pid: u32) -> (r: String)
    ensures
        r@ == "another `cowt run` is in progress (pid "@ + number::decimal(pid as nat) + ")"@,
{
    let p = decimal_text(pid as u128);
    cat3("another `cowt run` is in progress (pid ", p.as_str(), ")")
}

// ------------------------------------------------------------- the command

/// Why `run` refuses.
#[derive(Clone, Copy, Debug, PartialEq, Eq, Structural)]
pub enum RunRefusal {
    /// No command was given.
    NoCommand,
    /// A process of the worktree runs already.
    Running(u32),
    /// Something else is mounted on the target.
    ForeignMount,
    /// The system refused; its error is the result.
    System,
}

/// What `run` asks for next.
#[derive(Clone, Copy, Debug, PartialEq, Eq, Structural)]
pub enum RunCmdAsk {
    /// Find the worktree, read its metadata, and check the backend.
    Open,
    /// Which process of the worktree runs?
    CheckRunning,
    /// Is the target mounted, and does the worktree prove that to be a
    /// leftover?
    ProbeMount,
    /// Take the leftover mount down.
    Recover,
    /// Make the layers where they are missing.
    MakeLayers,
    /// Run the command.
    Isolated,
    /// Is the target still mounted?
    CheckMounted(i32),
    /// Does a process of the worktree run?
    CheckSuccessor(i32),
    /// Remove the pid file.
    ClearPidfile(i32),
    /// Say that the target is still mounted.
    WarnMounted(i32),
    /// Does the worktree still hold the host directory?
    CheckReal(i32),
    /// Report the command's end, and exit with this code.
    Report(i32),
    /// Report that the host directory was not put back, and exit with 1.
    ReportStranded,
    Refuse(RunRefusal),
}

/// What came of it.
#[derive(Clone, Copy, Debug, PartialEq, Eq, Structural)]
pub enum RunCmdReply {
    Yes,
    No,
    Pid(Option<u32>),
    Mount { mounted: bool, stale_run: bool, real_exists: bool },
    Code(i32),
}

/// The first step of `run`.
pub open spec fn run_cmd_first(words: nat) -> RunCmdAsk {
    if words == 0 {
        RunCmdAsk::Refuse(RunRefusal::NoCommand)
    } else {
        RunCmdAsk::Open
    }
}

/// The step after a step of `run`.
pub open spec fn run_cmd_next(ask: RunCmdAsk, reply: RunCmdReply) -> RunCmdAsk {
    match ask {
        RunCmdAsk::Open => if reply is Yes {
            RunCmdAsk::CheckRunning
        } else {
            RunCmdAsk::Refuse(RunRefusal::System)
        },
        RunCmdAsk::CheckRunning => match reply {
            RunCmdReply::Pid(Some(p)) => RunCmdAsk::Refuse(RunRefusal::Running(p)),
            _ => RunCmdAsk::ProbeMount,
        },
        RunCmdAsk::ProbeMount => match reply {
            RunCmdReply::Mount { mounted, stale_run, real_exists } => if !mounted {
                RunCmdAsk::MakeLayers
            } else if stale_run || real_exists {
                RunCmdAsk::Recover
            } else {
                RunCmdAsk::Refuse(RunRefusal::ForeignMount)
            },
            _ => RunCmdAsk::Refuse(RunRefusal::System),
        },
        RunCmdAsk::Recover => if reply is Yes {
            RunCmdAsk::MakeLayers
        } else {
            RunCmdAsk::Refuse(RunRefusal::System)
        },
        RunCmdAsk::MakeLayers => if reply is Yes {
            RunCmdAsk::Isolated
        } else {
            RunCmdAsk::Refuse(RunRefusal::System)
        },
        RunCmdAsk::Isolated => match reply {
            RunCmdReply::Code(c) => RunCmdAsk::CheckMounted(c),
            _ => RunCmdAsk::Refuse(RunRefusal::System),
        },
        RunCmdAsk::CheckMounted(c) => if reply is No {
            RunCmdAsk::CheckSuccessor(c)
        } else {
            RunCmdAsk::WarnMounted(c)
        },
        RunCmdAsk::CheckSuccessor(c) => if reply == RunCmdReply::Pid(None) {
            RunCmdAsk::ClearPidfile(c)
        } else {
            RunCmdAsk::CheckReal(c)
        },
        RunCmdAsk::ClearPidfile(c) => RunCmdAsk::CheckReal(c),
        RunCmdAsk::WarnMounted(c) => RunCmdAsk::CheckReal(c),
        RunCmdAsk::CheckReal(c) => if reply is No {
            RunCmdAsk::Report(c)
        } else {
            RunCmdAsk::ReportStranded
        },
        RunCmdAsk::Report(c) => RunCmdAsk::Report(c),
        RunCmdAsk::ReportStranded => RunCmdAsk::ReportStranded,
        RunCmdAsk::Refuse(e) => RunCmdAsk::Refuse(e),
    }
}

/// The first step of `run`, for a command of this many words.
pub fn run_cmd_start(words: usize) -> (r: RunCmdAsk)
    ensures
        r == run_cmd_first(words as nat),
{
    if words == 0 {
        RunCmdAsk::Refuse(RunRefusal::NoCommand)
    } else {
        RunCmdAsk::Open
    }
}

/// The command `run`, one step at a time.
pub fn run(ask: RunCmdAsk, reply: RunCmdReply) -> (r: RunCmdAsk)
    ensures
        r == run_cmd_next(ask, reply),
{
    let yes = match reply {
        RunCmdReply::Yes => true,
        _ => false,
    };
    let no = match reply {
        RunCmdReply::No => true,
        _ => false,
    };
    match ask {
        RunCmdAsk::Open => if yes {
            RunCmdAsk::CheckRunning
        } else {
            RunCmdAsk::Refuse(RunRefusal::System)
        },
        RunCmdAsk::CheckRunning => match reply {
            RunCmdReply::Pid(Some(p)) => RunCmdAsk::Refuse(RunRefusal::Running(p)),
            _ => RunCmdAsk::ProbeMount,
        },
        RunCmdAsk::ProbeMount => match reply {
            RunCmdReply::Mount { mounted, stale_run, real_exists } => match recover_stale_mount(
                mounted,
                stale_run,
                real_exists,
            ) {
                Recovery::NotMounted => RunCmdAsk::MakeLayers,
                Recovery::Unmount => RunCmdAsk::Recover,
                Recovery::Refuse => RunCmdAsk::Refuse(RunRefusal::ForeignMount),
            },
            _ => RunCmdAsk::Refuse(RunRefusal::System),
        },
        RunCmdAsk::Recover => if yes {
            RunCmdAsk::MakeLayers
        } else {
            RunCmdAsk::Refuse(RunRefusal::System)
        },
        RunCmdAsk::MakeLayers => if yes {
            RunCmdAsk::Isolated
        } else {
            RunCmdAsk::Refuse(RunRefusal::System)
        },
        RunCmdAsk::Isolated => match reply {
            RunCmdReply::Code(c) => RunCmdAsk::CheckMounted(c),
            _ => RunCmdAsk::Refuse(RunRefusal::System),
        },
        RunCmdAsk::CheckMounted(c) => if no {
            RunCmdAsk::CheckSuccessor(c)
        } else {
            RunCmdAsk::WarnMounted(c)
        },
        RunCmdAsk::CheckSuccessor(c) => match reply {
            RunCmdReply::Pid(None) => RunCmdAsk::ClearPidfile(c),
            _ => RunCmdAsk::CheckReal(c),
        },
        RunCmdAsk::ClearPidfile(c) => RunCmdAsk::CheckReal(c),
        RunCmdAsk::WarnMounted(c) => RunCmdAsk::CheckReal(c),
        RunCmdAsk::CheckReal(c) => if no {
            RunCmdAsk::Report(c)
        } else {
            RunCmdAsk::ReportStranded
        },
        RunCmdAsk::Report(c) => RunCmdAsk::Report(c),
        RunCmdAsk::ReportStranded => RunCmdAsk::ReportStranded,
        RunCmdAsk::Refuse(e) => RunCmdAsk::Refuse(e),
    }
}

/// The steps of `run`, with what came of each.
pub open spec fn run_cmd_trace(words: nat, t: Seq<(RunCmdAsk, RunCmdReply)>) -> bool {
    &&& t.len() > 0 ==> t[0].0 == run_cmd_first(words)
    &&& forall|i: int|
        0 <= i && i + 1 < t.len() ==> (#[trigger] t[i + 1]).0 == run_cmd_next(t[i].0, t[i].1)
}

/// A command is only run where no process of the worktree was found running,
/// and where the target was not mounted, or mounted by a leftover of this
/// worktree that was taken down.
pub proof fn law_run_is_alone(words: nat, t: Seq<(RunCmdAsk, RunCmdReply)>, i: int)
    requires
        run_cmd_trace(words, t),
        0 <= i < t.len(),
        t[i].0 is Isolated,
    ensures
        words > 0,
        t[1].0 is CheckRunning && !(t[1].1 matches RunCmdReply::Pid(Some(_))),
        t[2].0 is ProbeMount,
        t[2].1 matches RunCmdReply::Mount { mounted, stale_run, real_exists } && (!mounted || ((
        stale_run || real_exists) && t[3] == (RunCmdAsk::Recover, RunCmdReply::Yes))),
{
    assert(i > 0);
    assert(t[i - 1 + 1].0 == run_cmd_next(t[i - 1].0, t[i - 1].1));
    assert(i - 1 > 0);
    assert(t[i - 2 + 1].0 == run_cmd_next(t[i - 2].0, t[i - 2].1));
    assert(i - 2 > 0);
    assert(t[i - 3 + 1].0 == run_cmd_next(t[i - 3].0, t[i - 3].1));
    assert(i - 3 > 0);
    assert(t[i - 4 + 1].0 == run_cmd_next(t[i - 4].0, t[i - 4].1));
    if i - 4 > 0 {
        assert(t[i - 5 + 1].0 == run_cmd_next(t[i - 5].0, t[i - 5].1));
        if i - 5 > 0 {
            assert(t[i - 6 + 1].0 == run_cmd_next(t[i - 6].0, t[i - 6].1));
        }
    }
}

/// The pid file is only removed after the run, once the target is not mounted
/// and no process of the worktree runs. A surviving mount keeps the marker that
/// proves it to be this worktree's, and a later run keeps its own.
pub proof fn law_pidfile_kept_while_needed(words: nat, t: Seq<(RunCmdAsk, RunCmdReply)>, i: int)
    requires
        run_cmd_trace(words, t),
        0 <= i < t.len(),
        t[i].0 is ClearPidfile,
    ensures
        i >= 2,
        t[i - 1].0 is CheckSuccessor && t[i - 1].1 == RunCmdReply::Pid(None),
        t[i - 2].0 is CheckMounted && t[i - 2].1 is No,
{
    assert(i > 0);
    assert(t[i - 1 + 1].0 == run_cmd_next(t[i - 1].0, t[i - 1].1));
    assert(i - 1 > 0);
    assert(t[i - 2 + 1].0 == run_cmd_next(t[i - 2].0, t[i - 2].1));
}

/// A run exits with its command's code only where the host directory is back in
/// its place.
pub proof fn law_stranded_run_fails(words: nat, t: Seq<(RunCmdAsk, RunCmdReply)>, i: int)
    requires
        run_cmd_trace(words, t),
        0 <= i < t.len(),
        t[i].0 is Report,
    ensures
        exists|j: int| 0 <= j < i && (#[trigger] t[j]).0 is CheckReal && t[j].1 is No,
    decreases i,
{
    assert(i > 0);
    assert(t[i - 1 + 1].0 == run_cmd_next(t[i - 1].0, t[i - 1].1));
    if t[i - 1].0 is Report {
        law_stranded_run_fails(words, t, i - 1);
    } else {
        assert(t[i - 1].0 is CheckReal);
    }
}

/// A run of a command that is reported exits with the code that the isolated run
/// gave: nothing that is checked afterwards changes it.
pub proof fn law_run_exits_with_the_code(words: nat, t: Seq<(RunCmdAsk, RunCmdReply)>, i: int)
    requires
        run_cmd_trace(words, t),
        0 <= i < t.len(),
    ensures
        t[i].0 matches RunCmdAsk::Report(c) ==> steps::did(
            t,
            i,
            RunCmdAsk::Isolated,
            RunCmdReply::Code(c),
        ),
        t[i].0 matches RunCmdAsk::CheckMounted(c) ==> steps::did(
            t,
            i,
            RunCmdAsk::Isolated,
            RunCmdReply::Code(c),
        ),
        t[i].0 matches RunCmdAsk::CheckSuccessor(c) ==> steps::did(
            t,
            i,
            RunCmdAsk::Isolated,
            RunCmdReply::Code(c),
        ) && steps::did(t, i, RunCmdAsk::CheckMounted(c), RunCmdReply::No),
        t[i].0 matches RunCmdAsk::ClearPidfile(c) ==> steps::did(
            t,
            i,
            RunCmdAsk::Isolated,
            RunCmdReply::Code(c),
        ),
        t[i].0 matches RunCmdAsk::WarnMounted(c) ==> steps::did(
            t,
            i,
            RunCmdAsk::Isolated,
            RunCmdReply::Code(c),
        ) && i > 0 && t[i - 1].0 == RunCmdAsk::CheckMounted(c) && !(t[i - 1].1 is No),
        t[i].0 matches RunCmdAsk::CheckReal(c) ==> steps::did(
            t,
            i,
            RunCmdAsk::Isolated,
            RunCmdReply::Code(c),
        ),
    decreases i,
{
    if i > 0 {
        law_run_exits_with_the_code(words, t, i - 1);
        assert(t[i - 1 + 1].0 == run_cmd_next(t[i - 1].0, t[i - 1].1));
        assert(t[i - 1] == (t[i - 1].0, t[i - 1].1));
    }
}

/// A run is refused for a reason, and each reason refuses it: no command was
/// given; this process of the worktree runs; something is mounted on the target
/// that the worktree does not prove to be its own; or the system refused.
pub proof fn law_run_is_refused_for_a_reason(words: nat, t: Seq<(RunCmdAsk, RunCmdReply)>, i: int)
    requires
        run_cmd_trace(words, t),
        0 <= i < t.len(),
    ensures
        words == 0 <==> t[i].0 == RunCmdAsk::Refuse(RunRefusal::NoCommand),
        t[i].0 matches RunCmdAsk::Refuse(RunRefusal::Running(p)) ==> steps::did(
            t,
            i,
            RunCmdAsk::CheckRunning,
            RunCmdReply::Pid(Some(p)),
        ),
        t[i].0 == RunCmdAsk::Refuse(RunRefusal::ForeignMount) ==> steps::did(
            t,
            i,
            RunCmdAsk::ProbeMount,
            RunCmdReply::Mount { mounted: true, stale_run: false, real_exists: false },
        ),
        t[i].0 == RunCmdAsk::Refuse(RunRefusal::System) ==> exists|j: int|
            0 <= j < i && match (#[trigger] t[j]).0 {
                RunCmdAsk::Open => !(t[j].1 is Yes),
                RunCmdAsk::ProbeMount => !(t[j].1 is Mount),
                RunCmdAsk::Recover => !(t[j].1 is Yes),
                RunCmdAsk::MakeLayers => !(t[j].1 is Yes),
                RunCmdAsk::Isolated => !(t[j].1 is Code),
                _ => false,
            },
        t[i].0 is ReportStranded ==> exists|j: int|
            0 <= j < i && (#[trigger] t[j]).0 is CheckReal && !(t[j].1 is No),
        i >= 10 ==> t[i].0 is Report || t[i].0 is ReportStranded || t[i].0 is Refuse,
    decreases i,
{
    lemma_run_cmd_stage(words, t, i);
    if i > 0 {
        law_run_is_refused_for_a_reason(words, t, i - 1);
        assert(t[i - 1 + 1].0 == run_cmd_next(t[i - 1].0, t[i - 1].1));
        assert(t[i - 1] == (t[i - 1].0, t[i - 1].1));
        if t[i - 1].0 == RunCmdAsk::Refuse(RunRefusal::System) {
            let j = choose|j: int|
                0 <= j < i - 1 && match (#[trigger] t[j]).0 {
                    RunCmdAsk::Open => !(t[j].1 is Yes),
                    RunCmdAsk::ProbeMount => !(t[j].1 is Mount),
                    RunCmdAsk::Recover => !(t[j].1 is Yes),
                    RunCmdAsk::MakeLayers => !(t[j].1 is Yes),
                    RunCmdAsk::Isolated => !(t[j].1 is Code),
                    _ => false,
                };
            assert(t[j] == t[j]);
        }
        if t[i - 1].0 is ReportStranded {
            let j = choose|j: int|
                0 <= j < i - 1 && (#[trigger] t[j]).0 is CheckReal && !(t[j].1 is No);
            assert(t[j] == t[j]);
        }
    }
}

/// How far a command has come.
spec fn run_cmd_stage(ask: RunCmdAsk) -> int {
    match ask {
        RunCmdAsk::Open => 0,
        RunCmdAsk::CheckRunning => 1,
        RunCmdAsk::ProbeMount => 2,
        RunCmdAsk::Recover => 3,
        RunCmdAsk::MakeLayers => 4,
        RunCmdAsk::Isolated => 5,
        RunCmdAsk::CheckMounted(_) => 6,
        RunCmdAsk::CheckSuccessor(_) => 7,
        RunCmdAsk::ClearPidfile(_) => 8,
        RunCmdAsk::WarnMounted(_) => 8,
        RunCmdAsk::CheckReal(_) => 9,
        _ => 10,
    }
}

proof fn lemma_run_cmd_stage(words: nat, t: Seq<(RunCmdAsk, RunCmdReply)>, i: int)
    requires
        run_cmd_trace(words, t),
        0 <= i < t.len(),
    ensures
        run_cmd_stage(t[i].0) >= i || run_cmd_stage(t[i].0) == 10,
    decreases i,
{
    if i > 0 {
        lemma_run_cmd_stage(words, t, i - 1);
        assert(t[i - 1 + 1].0 == run_cmd_next(t[i - 1].0, t[i - 1].1));
    }
}

/// Each finding of a run has its consequence: a process that runs, and a mount
/// that is not the worktree's, stop it; a leftover is taken down; the pid file is
/// removed where the target is not mounted and no process runs; a target that is
/// still mounted is warned of; and a host directory that is not back is reported.
pub proof fn law_run_heeds_what_it_finds(words: nat, t: Seq<(RunCmdAsk, RunCmdReply)>, i: int)
    requires
        run_cmd_trace(words, t),
        0 <= i,
        i + 1 < t.len(),
    ensures
        t[i].0 is CheckRunning ==> (t[i].1 matches RunCmdReply::Pid(Some(p)) ==> t[i + 1].0
            == RunCmdAsk::Refuse(RunRefusal::Running(p))),
        t[i].0 is ProbeMount ==> (t[i].1 matches RunCmdReply::Mount {
            mounted,
            stale_run,
            real_exists,
        } ==> (!mounted ==> t[i + 1].0 is MakeLayers) && (mounted && (stale_run || real_exists)
            ==> t[i + 1].0 is Recover) && (mounted && !stale_run && !real_exists ==> t[i + 1].0
            == RunCmdAsk::Refuse(RunRefusal::ForeignMount))),
        t[i].0 is Isolated ==> (t[i].1 is Code <==> !(t[i + 1].0 is Refuse)),
        t[i].0 is CheckMounted ==> (t[i].1 is No <==> t[i + 1].0 is CheckSuccessor) && (!(
        t[i].1 is No) <==> t[i + 1].0 is WarnMounted),
        t[i].0 is CheckSuccessor ==> (t[i].1 == RunCmdReply::Pid(None) <==> t[i
            + 1].0 is ClearPidfile),
        t[i].0 is CheckReal ==> (t[i].1 is No <==> t[i + 1].0 is Report) && (!(t[i].1 is No) <==> t[i
            + 1].0 is ReportStranded),
{
    assert(t[i + 1].0 == run_cmd_next(t[i].0, t[i].1));
}

impl RunRefusal {
    /// The text of the error.
    pub open spec fn text(self, id: Seq<char>, target: Seq<char>, system: Seq<char>) -> Seq<char> {
        match self {
            RunRefusal::NoCommand =>
                "no command given; usage: cowt run <ID> -- <CMD> [ARGS...]"@,
            RunRefusal::Running(p) => "worktree '"@ + id + "' already has a running process (pid "@
                + number::decimal(p as nat) + "); wait for it or `cowt drop --force`"@,
            RunRefusal::ForeignMount => target
                + " is already a mountpoint; refusing to stack a second overlay"@,
            RunRefusal::System => system,
        }
    }

    /// The text of the error.
    pub fn message(self, id: &str, target: &str, system: &str) -> (r: String)
        ensures
            r@ == self.text(id@, target@, system@),
            r@ == match self {
                RunRefusal::NoCommand =>
                    "no command given; usage: cowt run <ID> -- <CMD> [ARGS...]"@,
                RunRefusal::Running(p) => "worktree '"@ + id@ + "' already has a running process (pid "@
                    + number::decimal(p as nat) + "); wait for it or `cowt drop --force`"@,
                RunRefusal::ForeignMount => target@
                    + " is already a mountpoint; refusing to stack a second overlay"@,
                RunRefusal::System => system@,
            },
    {
        match self {
            RunRefusal::NoCommand =>
                "no command given; usage: cowt run <ID> -- <CMD> [ARGS...]".to_owned(),
            RunRefusal::Running(p) => {
                let shown = decimal_text(p as u128);
                cat5(
                    "worktree '",
                    id,
                    "' already has a running process (pid ",
                    shown.as_str(),
                    "); wait for it or `cowt drop --force`",
                )
            },
            RunRefusal::ForeignMount => crate::backend::foreign_mount_message(target),
            RunRefusal::System => system.to_owned(),
        }
    }
}

/// The warning for a target that is still mounted after the run.
pub fn still_mounted_message(target: &str) -> (r: String)
    ensures
        r@ == "cowt: warning: "@ + target@
            + " is still mounted after the run; the worktree keeps its run.pid marker so `cowt drop --force` can clean it up"@,
{
    cat3(
        "cowt: warning: ",
        target,
        " is still mounted after the run; the worktree keeps its run.pid marker so `cowt drop --force` can clean it up",
    )
}

/// The report of a host directory that was not put back.
pub fn not_restored_message(aside: &str) -> (r: String)
    ensures
        r@ == "cowt: ERROR: the host directory was NOT restored — it is still at "@ + aside@
            + ". Fix the mount point state before dropping this worktree"@,
{
    cat3(
        "cowt: ERROR: the host directory was NOT restored — it is still at ",
        aside,
        ". Fix the mount point state before dropping this worktree",
    )
}

/// The report of a finished run.
pub fn finished_message(desc: &str) -> (r: String)
    ensures
        r@ == "cowt: process "@ + desc@ + "; changes preserved in upper layer"@,
{
    cat3("cowt: process ", desc, "; changes preserved in upper layer")
}

/// The report of a command that could not be started.
pub fn cannot_run_message(command: &str, error: &str) -> (r: String)
    ensures
        r@ == "cowt: cannot run '"@ + command@ + "': "@ + error@,
{
    text::cat4("cowt: cannot run '", command, "': ", error)
}

/// The warning for a view that could not be taken down.
pub fn unmount_warning(error: &str) -> (r: String)
    ensures
        r@ == "cowt: warning: unmount failed: "@ + error@,
{
    cat2("cowt: warning: unmount failed: ", error)
}

} // verus!
