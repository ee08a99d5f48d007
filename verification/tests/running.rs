use cowt::backend::{Mode, SpawnError};
use cowt::host::HostOs;
use cowt::pidfile::{write_pidfile, PidfileAnswer, PidfileAsk, ProcProbe};
use cowt::running::{
    cannot_run_message, finished_message, not_restored_message, pidfile_race_message, run,
    run_cmd_start, run_isolated, run_plan, run_result, run_start, still_mounted_message,
    unmount_warning, RunAsk, RunCmdAsk, RunCmdReply, RunEnd, RunPlan, RunRefusal, RunReply,
    Waited,
};
use cowt::state::State;

const EXITED: Waited = Waited::Exited { signal: None, code: Some(0) };

fn drive(plan: RunPlan, fails: RunAsk, reply: RunReply) -> (Vec<RunAsk>, RunEnd) {
    let mut ask = run_start(plan);
    let mut seen = Vec::new();
    loop {
        if let RunAsk::End(e) = ask {
            return (seen, e);
        }
        seen.push(ask);
        let r = if ask == fails {
            reply
        } else if ask == RunAsk::Wait {
            RunReply::Waited(EXITED)
        } else {
            RunReply::Worked
        };
        ask = run_isolated(plan, ask, r);
    }
}

const NEVER: RunAsk = RunAsk::End(RunEnd::WaitFailed);

#[test]
fn a_run_goes_through_its_steps() {
    let (seen, end) = drive(run_plan(HostOs::Linux, Mode::KernelDirect), NEVER, RunReply::Failed);
    assert_eq!(
        seen,
        vec![
            RunAsk::Mount,
            RunAsk::Spawn,
            RunAsk::WritePidfile,
            RunAsk::Wait,
            RunAsk::KillGroup(EXITED),
            RunAsk::Materialize(EXITED),
            RunAsk::Unmount(EXITED),
        ]
    );
    assert_eq!(end, RunEnd::Exited { signal: None, code: Some(0) });
    let (seen, _) = drive(run_plan(HostOs::Linux, Mode::KernelUserns), NEVER, RunReply::Failed);
    assert_eq!(seen, vec![RunAsk::Spawn, RunAsk::WritePidfile, RunAsk::Wait]);
    let (seen, _) = drive(run_plan(HostOs::Linux, Mode::Fuse), NEVER, RunReply::Failed);
    assert!(!seen.contains(&RunAsk::Materialize(EXITED)));
    assert!(seen.contains(&RunAsk::KillGroup(EXITED)));
    let (seen, _) = drive(run_plan(HostOs::Windows, Mode::Fuse), NEVER, RunReply::Failed);
    assert!(!seen.contains(&RunAsk::KillGroup(EXITED)));
    assert_eq!(seen[seen.len() - 1], RunAsk::Unmount(EXITED));
}

#[test]
fn every_failure_takes_the_view_down() {
    for mode in [Mode::KernelDirect, Mode::Fuse] {
        let plan = run_plan(HostOs::Linux, mode);
        let (seen, end) =
            drive(plan, RunAsk::Spawn, RunReply::NotStarted(SpawnError::NotFound));
        assert_eq!(end, RunEnd::StartFailed(127));
        assert_eq!(seen[seen.len() - 1], RunAsk::UnmountUnstarted(SpawnError::NotFound));
        let (seen, end) = drive(plan, RunAsk::WritePidfile, RunReply::Failed);
        assert_eq!(end, RunEnd::PidfileFailed);
        assert_eq!(&seen[3..], [RunAsk::Reap, RunAsk::Release(RunEnd::PidfileFailed)]);
        let (seen, end) = drive(plan, RunAsk::Wait, RunReply::Failed);
        assert_eq!(end, RunEnd::WaitFailed);
        assert_eq!(seen[seen.len() - 1], RunAsk::Unmount(Waited::Failed));
        let (seen, _) = drive(plan, RunAsk::Unmount(EXITED), RunReply::Failed);
        assert!(matches!(seen[seen.len() - 1], RunAsk::Release(_)));
        let (seen, end) = drive(plan, RunAsk::Mount, RunReply::Failed);
        assert_eq!((seen.len(), end), (1, RunEnd::MountFailed));
    }
    let mac = run_plan(HostOs::MacOs, Mode::Fuse);
    let (seen, _) = drive(mac, RunAsk::Unmount(EXITED), RunReply::Failed);
    assert_eq!(seen[seen.len() - 1], RunAsk::Unmount(EXITED));
}

#[test]
fn shell_codes_do_not_come_from_the_namespace_wrapper() {
    let plan = run_plan(HostOs::Linux, Mode::KernelUserns);
    let (_, end) = drive(plan, RunAsk::Spawn, RunReply::NotStarted(SpawnError::NotFound));
    assert_eq!(end, RunEnd::SpawnFailed);
    let plan = run_plan(HostOs::MacOs, Mode::Fuse);
    let (_, end) = drive(plan, RunAsk::Spawn, RunReply::NotStarted(SpawnError::PermissionDenied));
    assert_eq!(end, RunEnd::StartFailed(126));
    let (_, end) = drive(plan, RunAsk::Spawn, RunReply::NotStarted(SpawnError::Other));
    assert_eq!(end, RunEnd::SpawnFailed);
}

#[test]
fn results_of_runs() {
    let killed = RunEnd::Exited { signal: Some(15), code: None };
    assert_eq!(run_result(killed, "x"), Some((143, "killed by signal 15".to_string())));
    assert_eq!(
        run_result(RunEnd::StartFailed(127), "nope"),
        Some((127, "failed to start 'nope'".to_string()))
    );
    assert_eq!(run_result(RunEnd::MountFailed, "x"), None);
    assert_eq!(run_result(RunEnd::PidfileFailed, "x"), None);
    assert_eq!(
        pidfile_race_message(7),
        "another `cowt run` is in progress (pid 7)"
    );
    assert_eq!(cannot_run_message("x", "e"), "cowt: cannot run 'x': e");
    assert_eq!(unmount_warning("e"), "cowt: warning: unmount failed: e");
}

fn command(replies: Vec<RunCmdReply>) -> RunCmdAsk {
    let mut ask = run_cmd_start(1);
    for r in replies {
        ask = run(ask, r);
    }
    ask
}

const CLEAR: RunCmdReply =
    RunCmdReply::Mount { mounted: false, stale_run: false, real_exists: false };

#[test]
fn run_refuses_live_pidfile() {
    // A marker whose number another process was given since is replaced.
    let recycled = || Some("4242:1".to_string());
    let alive = ProcProbe { alive: true, starttime: Some(77) };
    assert_eq!(State::running_pid(recycled(), alive), None);
    let a = write_pidfile(PidfileAsk::CreateNew, PidfileAnswer::Exists);
    let b = write_pidfile(a, PidfileAnswer::Content(recycled(), alive));
    assert_eq!(b, PidfileAsk::Remove);
    let c = write_pidfile(write_pidfile(b, PidfileAnswer::Done), PidfileAnswer::Done);
    assert_eq!(c, PidfileAsk::Finished);
    // The run removes its own marker.
    assert_eq!(run(RunCmdAsk::CheckSuccessor(0), RunCmdReply::Pid(None)), RunCmdAsk::ClearPidfile(0));
    let a = command(vec![RunCmdReply::Yes, RunCmdReply::Pid(Some(4242))]);
    assert_eq!(a, RunCmdAsk::Refuse(RunRefusal::Running(4242)));
    assert_eq!(
        RunRefusal::Running(4242).message("abc", "/t", ""),
        "worktree 'abc' already has a running process (pid 4242); wait for it or `cowt drop --force`"
    );
}

#[test]
fn run_checks_before_it_runs() {
    assert_eq!(run_cmd_start(0), RunCmdAsk::Refuse(RunRefusal::NoCommand));
    assert_eq!(
        RunRefusal::NoCommand.message("", "", ""),
        "no command given; usage: cowt run <ID> -- <CMD> [ARGS...]"
    );
    let foreign = RunCmdReply::Mount { mounted: true, stale_run: false, real_exists: false };
    let a = command(vec![RunCmdReply::Yes, RunCmdReply::Pid(None), foreign]);
    assert_eq!(a, RunCmdAsk::Refuse(RunRefusal::ForeignMount));
    let stale = RunCmdReply::Mount { mounted: true, stale_run: true, real_exists: false };
    let b = command(vec![RunCmdReply::Yes, RunCmdReply::Pid(None), stale]);
    assert_eq!(b, RunCmdAsk::Recover);
    assert_eq!(run(b, RunCmdReply::No), RunCmdAsk::Refuse(RunRefusal::System));
    assert_eq!(run(b, RunCmdReply::Yes), RunCmdAsk::MakeLayers);
    assert_eq!(RunRefusal::System.message("", "", "io"), "io");
    assert!(RunRefusal::ForeignMount.message("", "/t", "").starts_with("/t is already"));
}

#[test]
fn run_exits_with_the_commands_code() {
    let start = vec![
        RunCmdReply::Yes,
        RunCmdReply::Pid(None),
        CLEAR,
        RunCmdReply::Yes,
        RunCmdReply::Code(5),
    ];
    let after = |more: Vec<RunCmdReply>| {
        let mut all = start.clone();
        all.extend(more);
        command(all)
    };
    assert_eq!(after(vec![]), RunCmdAsk::CheckMounted(5));
    assert_eq!(
        after(vec![RunCmdReply::No, RunCmdReply::Pid(None)]),
        RunCmdAsk::ClearPidfile(5)
    );
    assert_eq!(
        after(vec![RunCmdReply::No, RunCmdReply::Pid(Some(9))]),
        RunCmdAsk::CheckReal(5)
    );
    assert_eq!(after(vec![RunCmdReply::Yes]), RunCmdAsk::WarnMounted(5));
    assert_eq!(
        after(vec![RunCmdReply::No, RunCmdReply::Pid(None), RunCmdReply::Yes, RunCmdReply::No]),
        RunCmdAsk::Report(5)
    );
    assert_eq!(
        after(vec![RunCmdReply::No, RunCmdReply::Pid(None), RunCmdReply::Yes, RunCmdReply::Yes]),
        RunCmdAsk::ReportStranded
    );
    assert_eq!(
        finished_message("exited with code 5"),
        "cowt: process exited with code 5; changes preserved in upper layer"
    );
    assert!(still_mounted_message("/t").starts_with("cowt: warning: /t is still mounted"));
    assert!(not_restored_message("/s/a/real").contains("it is still at /s/a/real. Fix"));
}
