use cowt::applying::{apply, ApplyAsk, ApplyFacts, ApplyMode, ApplyRefusal, ApplyReply};
use cowt::cowfs::{
    make_start, rename_start, Errno, MakeAsk, NewEntry, RenameAsk, RenameProbe,
};
use cowt::diffing::{diff_cmd, DiffAsk, DiffRefusal, DiffReply};
use cowt::dropping::{drop_cmd, DropAsk, DropReply};
use cowt::forking::{check_bounds, fork, Bounds, ForkAsk, ForkRefusal, ForkReply};
use cowt::host::HostOs;
use cowt::layers::{
    clear_whiteout, delete_merged, merged_dir_entries, resolve, LayerOp, Place,
};
use cowt::pidfile::ProcProbe;
use cowt::running::{run, run_cmd_start, RunCmdAsk, RunCmdReply, RunRefusal};
use cowt::state::State;
use cowt::worktrees::{DirProbe, ResolveError};

fn names(v: &[&str]) -> Vec<String> {
    v.iter().map(|s| s.to_string()).collect()
}

fn state() -> State {
    State::open(Some("/home/u/state".to_string()), None, None, HostOs::Linux).unwrap().0
}

/// Every file that a worktree can have is there.
const EVERYTHING: DirProbe = DirProbe {
    has_meta: true,
    is_dir: true,
    manifest_is_file: true,
    upper_is_dir: true,
    work_is_dir: true,
};

fn refuses(bad: &str) {
    let r = state().resolve(bad, EVERYTHING, &vec![]);
    assert!(matches!(r, Err(ResolveError::Invalid)), "{bad:?} must be refused");
}

#[test]
fn cli_m_drop_refuses_traversal() {
    for bad in ["../victim", "a/../b", "..", ".trash-evil"] {
        refuses(bad);
    }
}

#[test]
fn drop_refuses_traversal_and_never_touches_outside_home() {
    for bad in ["../x", "a/../b", "..", ".trash-evil", "a\\b", "a/b"] {
        refuses(bad);
    }
}

#[test]
fn status_refuses_traversal_id() {
    for bad in ["../x", "a/../b", "..", ".trash-evil", "a\\b"] {
        refuses(bad);
    }
}

#[test]
fn victim_outside_home_survives_traversal_drop() {
    refuses("../escape-target");
}

#[test]
fn cli_m_fork_refuses_outside_home() {
    let home = Some("/tmp/t/home".to_string());
    let lies = check_bounds(HostOs::Linux, "/tmp/t/outside", "/tmp/t/state", home, false);
    assert_eq!(lies, Bounds::OutsideHome);
    assert_eq!(
        fork(ForkAsk::CheckBounds, ForkReply::Lies(lies)),
        ForkAsk::Refuse(ForkRefusal::OutsideHome)
    );
}

#[test]
fn drop_cleans_half_created_fork_dir() {
    let id = "abcdef0123456789";
    let half = DirProbe { has_meta: false, manifest_is_file: false, ..EVERYTHING };
    let dir = state().resolve(id, half, &vec![]).unwrap();
    assert_eq!(dir, "/home/u/state/abcdef0123456789");
    // There is no metadata to read.
    let mut ask = drop_cmd(true, DropAsk::LoadMeta, DropReply::No);
    while ask != DropAsk::Report {
        let reply = match ask {
            DropAsk::CheckRunning { .. } => DropReply::Pid(None),
            DropAsk::CheckHost | DropAsk::CheckMoved => DropReply::No,
            DropAsk::Refuse(e) => panic!("refused: {e:?}"),
            _ => DropReply::Yes,
        };
        ask = drop_cmd(true, ask, reply);
    }
}

#[test]
fn corrupted_state_recovery_paths() {
    let garbage = || Some("not-a-pid\n".to_string());
    let probe = ProcProbe { alive: false, starttime: None };
    assert_eq!(State::running_pid(garbage(), probe), None);
    assert!(!State::stale_run(garbage(), probe));
    let idle = diff_cmd(false, DiffAsk::CheckRunning, DiffReply::No);
    assert_eq!(idle, DiffAsk::ProbeMount);
    let unmounted = DiffReply::Mount { mounted: false, stale_run: false, real_exists: false };
    assert_eq!(diff_cmd(false, idle, unmounted), DiffAsk::Compare);
}

#[test]
fn e2e_concurrent_run_is_refused() {
    let ask = run(run_cmd_start(2), RunCmdReply::Yes);
    assert_eq!(ask, RunCmdAsk::CheckRunning);
    let ask = run(ask, RunCmdReply::Pid(Some(77)));
    assert_eq!(ask, RunCmdAsk::Refuse(RunRefusal::Running(77)));
    assert!(RunRefusal::Running(77).message("id", "/t", "").contains("running"));
}

#[test]
fn e2e_foreign_mount_is_refused() {
    let foreign = RunCmdReply::Mount { mounted: true, stale_run: false, real_exists: false };
    let ask = run(RunCmdAsk::ProbeMount, foreign);
    assert_eq!(ask, RunCmdAsk::Refuse(RunRefusal::ForeignMount));
    let text = RunRefusal::ForeignMount.message("id", "/t", "");
    assert!(text.contains("already a mountpoint"));
    let gone = RunCmdReply::Mount { mounted: false, stale_run: false, real_exists: false };
    assert_eq!(run(RunCmdAsk::ProbeMount, gone), RunCmdAsk::MakeLayers);
}

#[test]
fn e2e_crash_recovery_on_next_run() {
    let dead = ProcProbe { alive: false, starttime: None };
    let recorded = || Some("4242:17".to_string());
    assert!(State::stale_run(recorded(), dead));
    let stale = RunCmdReply::Mount { mounted: true, stale_run: true, real_exists: true };
    let ask = run(RunCmdAsk::ProbeMount, stale);
    assert_eq!(ask, RunCmdAsk::Recover);
    assert_eq!(run(ask, RunCmdReply::Yes), RunCmdAsk::MakeLayers);
}

#[test]
fn e2e_apply_diff_refused_while_running() {
    assert_eq!(
        diff_cmd(false, DiffAsk::CheckRunning, DiffReply::Yes),
        DiffAsk::Refuse(DiffRefusal::Running)
    );
    assert!(DiffRefusal::Running.message("id", "/t", "").contains("is running"));
    let mode = ApplyMode { dry_run: false, folds_case: false };
    assert_eq!(
        apply(mode, ApplyAsk::CheckRunning, ApplyReply::Yes),
        ApplyAsk::Refuse(ApplyRefusal::Running)
    );
    let facts = ApplyFacts {
        id: "id".to_string(),
        target: "/t".to_string(),
        aside: String::new(),
        victim: String::new(),
        collisions: String::new(),
        system: String::new(),
    };
    assert!(ApplyRefusal::Running.message(&facts).contains("is running"));
    // After the run, both work again.
    assert_eq!(diff_cmd(false, DiffAsk::CheckRunning, DiffReply::No), DiffAsk::ProbeMount);
    assert_eq!(apply(mode, ApplyAsk::CheckRunning, ApplyReply::No), ApplyAsk::ProbeMount);
}

#[test]
fn e2e_dir_tree_delete() {
    let ops = delete_merged(&names(&["logs"]), None, true);
    assert!(matches!(ops.last(), Some(LayerOp::WriteMarker(p)) if *p == names(&[".wh.logs"])));
    // The marker is in the layer now, and hides what is below the directory.
    let listings = vec![names(&[".wh.logs"]), vec![]];
    let child = names(&["logs", "session.log"]);
    assert_eq!(resolve(&child, false, true, &listings), Place::Nowhere);
    let root = merged_dir_entries(&names(&[".wh.logs"]), &names(&["logs", "sub"]), false);
    assert_eq!(root, names(&["sub"]));
}

#[test]
fn e2e_dir_recreate_unshadows() {
    let new = names(&["logs", "partial.txt"]);
    let listings = vec![names(&[".wh.logs"]), vec![]];
    let ops = clear_whiteout(&new, &listings);
    assert_eq!(ops.len(), 1);
    assert!(matches!(&ops[0], LayerOp::RemoveFile(p) if *p == names(&[".wh.logs"])));
    // With the marker gone the file of the host shows again.
    let child = names(&["logs", "session.log"]);
    let cleared = vec![names(&["logs"]), names(&["partial.txt"])];
    assert_eq!(resolve(&child, false, true, &cleared), Place::Lower);
}

#[test]
fn e2e_case_recreate() {
    // The marker of the old spelling stays, and hides the file of the host.
    let layer = names(&[".wh.cache.bin"]);
    assert!(clear_whiteout(&names(&["CACHE.BIN"]), &vec![layer]).is_empty());
    let after = names(&[".wh.cache.bin", "CACHE.BIN"]);
    let shown = merged_dir_entries(&after, &names(&["cache.bin"]), false);
    assert_eq!(shown, names(&["CACHE.BIN"]));
    let listings = vec![after];
    assert_eq!(resolve(&names(&["CACHE.BIN"]), true, false, &listings), Place::Upper);
    assert_eq!(resolve(&names(&["cache.bin"]), false, true, &listings), Place::Nowhere);
}

#[test]
fn e2e_wh_prefix_create_refused() {
    let refused = MakeAsk::Fail(Errno::NotPermitted);
    assert_eq!(make_start(NewEntry::File, true, ".wh.probe"), refused);
    assert_eq!(make_start(NewEntry::File, true, "ok.txt"), MakeAsk::ClearMarkers);
}

#[test]
fn e2e_wh_prefix_rename_refused() {
    let probe = |new: &str| RenameProbe {
        known: true,
        reserved: cowt::layers::is_reserved_name(new),
        in_lower: false,
        in_upper: true,
        replaces: true,
        marks_first: false,
    };
    let refused = RenameAsk::Fail(Errno::NotPermitted);
    assert_eq!(rename_start(probe(".wh.victim.txt")), refused);
    assert_eq!(rename_start(probe(".cowt-copy-tmp.victim.txt")), refused);
    assert_ne!(rename_start(probe("moved.txt")), refused);
}

#[test]
fn e2e_path_traversal_blocked() {
    let rel = cowt::windows::rel_of("\\..\\..\\escape-probe.txt");
    assert_eq!(rel, names(&["escape-probe.txt"]));
}
