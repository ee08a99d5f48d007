use cowt::applying::{
    applied_meta, applied_report, apply, backup_note, conflict_report, lost_deletion, print_plan,
    show_all, ApplyAsk, ApplyCounts, ApplyFacts, ApplyMode, ApplyRefusal, ApplyReply, Conflict,
    MergePlan, PlanOp, Victim,
};
use cowt::diffing::{print_human, print_json};
use cowt::forking::new_meta;
use cowt::host::HostOs;
use cowt::json::{applied_json, conflict_json, pretty_text};
use cowt::state::{json_file, Status};

const PLAIN: ApplyMode = ApplyMode { dry_run: false, folds_case: false };

fn drive(mode: ApplyMode, conflicts: usize, at: ApplyAsk, reply: ApplyReply) -> (Vec<ApplyAsk>, ApplyAsk) {
    let mut ask = ApplyAsk::Open;
    let mut seen = Vec::new();
    while !matches!(ask, ApplyAsk::Exit(_) | ApplyAsk::Refuse(_)) {
        seen.push(ask);
        let r = if ask == at {
            reply
        } else {
            match ask {
                ApplyAsk::CheckRunning
                | ApplyAsk::CheckDeletions
                | ApplyAsk::CheckCase
                | ApplyAsk::RecheckRunning
                | ApplyAsk::RecheckMounted
                | ApplyAsk::CheckAfterExecute
                | ApplyAsk::CheckAfterRescan => ApplyReply::No,
                ApplyAsk::ProbeMount => {
                    ApplyReply::Mount { mounted: false, stale_run: false, real_exists: false }
                }
                ApplyAsk::Plan => ApplyReply::Planned { conflicts },
                _ => ApplyReply::Yes,
            }
        };
        ask = apply(mode, ask, r);
    }
    (seen, ask)
}

const NEVER: ApplyAsk = ApplyAsk::Exit(99);

#[test]
fn a_clean_merge_advances_the_baseline() {
    let (seen, end) = drive(PLAIN, 0, NEVER, ApplyReply::Yes);
    assert_eq!(end, ApplyAsk::Exit(0));
    let place = |a: ApplyAsk| seen.iter().position(|s| *s == a).unwrap();
    assert!(place(ApplyAsk::Execute) < place(ApplyAsk::WriteBase));
    assert!(place(ApplyAsk::WriteBase) < place(ApplyAsk::ClearLayer));
    assert!(place(ApplyAsk::ClearLayer) < place(ApplyAsk::MakeLayer));
    assert!(place(ApplyAsk::MakeLayer) < place(ApplyAsk::WriteMeta));
    assert!(place(ApplyAsk::WriteMeta) < place(ApplyAsk::Report));
    assert!(!seen.contains(&ApplyAsk::CheckCase));
    let fold = ApplyMode { folds_case: true, ..PLAIN };
    assert!(drive(fold, 0, NEVER, ApplyReply::Yes).0.contains(&ApplyAsk::CheckCase));
}

#[test]
fn apply_conflict_aborts_with_zero_pollution_and_exit_3() {
    let (seen, end) = drive(PLAIN, 2, NEVER, ApplyReply::Yes);
    assert_eq!(end, ApplyAsk::Exit(3));
    assert!(seen.contains(&ApplyAsk::ShowConflicts));
    for a in [ApplyAsk::Execute, ApplyAsk::WriteBase, ApplyAsk::ClearLayer, ApplyAsk::WriteMeta] {
        assert!(!seen.contains(&a));
    }
    let dry = ApplyMode { dry_run: true, ..PLAIN };
    assert_eq!(drive(dry, 2, NEVER, ApplyReply::Yes).1, ApplyAsk::Exit(3));
    let (seen, end) = drive(dry, 0, NEVER, ApplyReply::Yes);
    assert_eq!(end, ApplyAsk::Exit(0));
    assert!(!seen.contains(&ApplyAsk::Execute));
}

#[test]
fn apply_stops_where_it_must() {
    let cases = [
        (ApplyAsk::CheckRunning, ApplyReply::Yes, ApplyRefusal::Running),
        (
            ApplyAsk::ProbeMount,
            ApplyReply::Mount { mounted: true, stale_run: false, real_exists: false },
            ApplyRefusal::ForeignMount,
        ),
        (ApplyAsk::ScanTarget, ApplyReply::No, ApplyRefusal::ScanFailed),
        (ApplyAsk::CheckDeletions, ApplyReply::Yes, ApplyRefusal::LostDeletion),
        (ApplyAsk::CheckCase, ApplyReply::Yes, ApplyRefusal::CaseCollision),
        (ApplyAsk::RecheckRunning, ApplyReply::Yes, ApplyRefusal::StartedWhilePlanning),
        (ApplyAsk::RecheckMounted, ApplyReply::Yes, ApplyRefusal::MountedAgain),
        (ApplyAsk::CheckAfterExecute, ApplyReply::Yes, ApplyRefusal::StartedWhileWriting),
        (ApplyAsk::CheckAfterRescan, ApplyReply::Yes, ApplyRefusal::StartedWhileWriting),
        (ApplyAsk::CheckState, ApplyReply::No, ApplyRefusal::StateRemoved),
        (ApplyAsk::Execute, ApplyReply::No, ApplyRefusal::System),
        (ApplyAsk::LoadBase, ApplyReply::No, ApplyRefusal::System),
    ];
    let fold = ApplyMode { folds_case: true, ..PLAIN };
    for (at, reply, refusal) in cases {
        let (seen, end) = drive(fold, 0, at, reply);
        assert_eq!(end, ApplyAsk::Refuse(refusal));
        assert!(!seen.contains(&ApplyAsk::ClearLayer));
    }
    let stale = ApplyReply::Mount { mounted: true, stale_run: true, real_exists: false };
    let (seen, end) = drive(PLAIN, 0, ApplyAsk::ProbeMount, stale);
    assert!(seen.contains(&ApplyAsk::Recover));
    assert_eq!(end, ApplyAsk::Exit(0));
}

#[test]
fn apply_refuses_corrupted_base_with_whiteout() {
    let v = |p: &str, in_base: bool, in_current: bool| Victim {
        path: p.to_string(),
        in_base,
        in_current,
    };
    assert_eq!(lost_deletion(&vec![v("config.txt", false, true)]), Some(0));
    let victims = vec![v("a", true, true), v("b", false, false), v("c", false, true)];
    assert_eq!(lost_deletion(&victims), Some(2));
    // A refused merge leaves the layer.
    let (seen, end) = drive(PLAIN, 0, ApplyAsk::CheckDeletions, ApplyReply::Yes);
    assert_eq!(end, ApplyAsk::Refuse(ApplyRefusal::LostDeletion));
    assert!(!seen.contains(&ApplyAsk::ClearLayer) && !seen.contains(&ApplyAsk::Execute));
    let f = ApplyFacts {
        id: "demo".to_string(),
        target: "/t".to_string(),
        aside: String::new(),
        victim: "config.txt".to_string(),
        collisions: String::new(),
        system: String::new(),
    };
    let why = ApplyRefusal::LostDeletion.message(&f);
    assert!(why.contains("corrupt") && why.contains("base"));
    let end = format!("Restore the original {}, or drop the worktree", json_file("manifest"));
    assert!(why.ends_with(&end));
    assert_eq!(lost_deletion(&vec![v("a", true, false)]), None);
    assert_eq!(lost_deletion(&vec![]), None);
}

fn conflict(path: &str) -> Conflict {
    Conflict {
        kind: "both_modified".to_string(),
        path: path.to_string(),
        base_hash: Some("b1".to_string()),
        current_hash: None,
        work_hash: Some("w1".to_string()),
    }
}

#[test]
fn plans_are_shown() {
    let plan = MergePlan {
        operations: vec![
            PlanOp::WriteFile("f\u{1b}".to_string()),
            PlanOp::WriteSymlink { path: "l".to_string(), target: "t".to_string() },
            PlanOp::Mkdir("d".to_string()),
            PlanOp::Delete("x".to_string()),
        ],
        conflicts: vec![conflict("c")],
        kept: vec!["k".to_string()],
    };
    assert!(!plan.is_clean());
    assert_eq!(
        print_plan(&plan),
        vec![
            "dry-run: 4 operation(s), 1 conflict(s)",
            "  write  f\u{fffd}",
            "  symlink l -> t",
            "  mkdir  d",
            "  delete x",
            "  CONFLICT [both_modified] c (base=b1, current=-, worktree=w1)",
            "  keep   k (host changed, worktree untouched)",
        ]
    );
    assert_eq!(
        conflict_report(&plan.conflicts, "abc"),
        vec![
            "merge aborted: 1 conflict(s); host directory was NOT modified",
            "  conflict [both_modified] c (base=b1, current=-, worktree=w1)",
            "resolve manually, or `cowt drop abc` to discard the worktree",
        ]
    );
    let counts = ApplyCounts { written: 1, deleted: 2, kept: 3, converged: 4 };
    assert_eq!(
        applied_report(counts, "abc"),
        vec![
            "applied: 1 written, 2 deleted, 3 kept (host), 4 converged",
            "changes applied and baseline advanced; `cowt drop abc` to discard",
        ]
    );
}

#[test]
fn backups_are_named_in_order() {
    let names: Vec<String> =
        ["z.cowt-old-1", "plain", "a.cowt-old-2"].iter().map(|s| s.to_string()).collect();
    let note = backup_note(&names).unwrap();
    assert!(note.starts_with(
        "note: interrupted-apply backup file(s) found: a.cowt-old-2, z.cowt-old-1; each is"
    ));
    assert_eq!(backup_note(&vec!["plain".to_string()]), None);
}

#[test]
fn an_applied_worktree_says_so() {
    let m = applied_meta(new_meta(HostOs::Linux, "i", None, "/t", 1, "b"));
    assert_eq!((m.status, m.id.as_str(), m.created_epoch), (Status::Applied, "i", 1));
}

#[test]
fn apply_errors() {
    let f = ApplyFacts {
        id: "abc".to_string(),
        target: "/t".to_string(),
        aside: "/s/abc/real".to_string(),
        victim: "v".to_string(),
        collisions: show_all(&vec!["A\u{1b}".to_string(), "b".to_string()]),
        system: "sys".to_string(),
    };
    let m = |e: ApplyRefusal| e.message(&f);
    assert_eq!(m(ApplyRefusal::Running), "worktree 'abc' is running; apply after the process exits");
    assert!(m(ApplyRefusal::ForeignMount).starts_with("/t is already a mountpoint"));
    assert!(m(ApplyRefusal::ScanFailed)
        .starts_with("cannot scan target directory /t: sys; if a crashed run moved it aside it is at /s/abc/real (any"));
    assert!(m(ApplyRefusal::LostDeletion).starts_with("worktree 'abc' has a deletion marker for 'v' but"));
    assert!(m(ApplyRefusal::CaseCollision).contains("by case alone: A\u{fffd}, b; rename one side"));
    assert_eq!(
        m(ApplyRefusal::StartedWhilePlanning),
        "worktree 'abc' started running during planning; apply aborted (nothing written)"
    );
    assert_eq!(m(ApplyRefusal::MountedAgain), "/t is mounted again; apply aborted (nothing written)");
    assert!(m(ApplyRefusal::StartedWhileWriting).ends_with("Run `cowt apply abc` again after it exits"));
    assert!(m(ApplyRefusal::StateRemoved).contains("state was removed during apply"));
    assert_eq!(m(ApplyRefusal::System), "sys");
}

#[test]
fn answers_for_programs() {
    let c = conflict_json(serde_json::Value::from(vec![1u64]));
    assert_eq!(c["status"], "conflict");
    assert_eq!(c["conflicts"][0], 1);
    assert_eq!(c.as_object().unwrap().len(), 2);
    let a = applied_json(serde_json::Value::from(true));
    assert_eq!(
        pretty_text(&a),
        "{\n  \"report\": true,\n  \"status\": \"applied\"\n}"
    );
}

#[test]
fn nothing_is_left_to_show_after_a_merge() {
    let (seen, end) = drive(PLAIN, 0, ApplyAsk::Open, ApplyReply::Yes);
    assert_eq!(end, ApplyAsk::Exit(0));
    let n = seen.len();
    assert_eq!(
        seen[n - 4..],
        [ApplyAsk::ClearLayer, ApplyAsk::MakeLayer, ApplyAsk::WriteMeta, ApplyAsk::Report]
    );
    assert_eq!(print_human(&vec![], false), vec!["no changes"]);
    assert_eq!(print_human(&vec![], true), vec!["no changes"]);
    assert_eq!(print_json(0, "[]"), "[]");
}
