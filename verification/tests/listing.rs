use cowt::cli::exit_code;
use cowt::forking::new_meta;
use cowt::host::HostOs;
use cowt::listing::{
    dir_size, doctor, doctor_residue, doctor_worktree_issues, effective_status, list, list_json,
    pad, row_json, status, status_json, status_value, status_warnings, Checkup, Health, Place,
    Seen, StatusFacts,
};
use cowt::state::{Status, WorktreeMeta};

fn meta() -> WorktreeMeta {
    let mut m = new_meta(HostOs::Linux, "abc", Some("demo".to_string()), "/home/u/app", 12, "winfsp");
    m.status = Status::Applied;
    m
}

fn facts() -> StatusFacts {
    StatusFacts {
        running: None,
        manifest_ok: true,
        target_missing: false,
        upper_missing: false,
        upper_bytes: Some(42),
        dir: "/s/abc".to_string(),
        aside: "/s/abc/real".to_string(),
    }
}

#[test]
fn the_table_of_worktrees() {
    let mut unnamed = meta();
    unnamed.name = None;
    let lines = list("/s", &vec![meta(), unnamed], &vec![false, true]);
    assert_eq!(lines[0], "ID         NAME                 STATUS    BACKEND   TARGET");
    assert_eq!(lines[1], "abc        demo                 applied   winfsp    /home/u/app");
    assert_eq!(lines[2], "abc        -                    running   winfsp    /home/u/app");
    assert_eq!(list("/s", &vec![], &vec![]), vec!["no worktrees (state root: /s)"]);
    assert_eq!(pad("abcdef", 3), "abcdef");
    assert_eq!(pad("é", 3), "é  ");
    assert_eq!(effective_status(Status::Ready, false), "ready");
}

#[test]
fn list_status_sanitize_id_and_backend() {
    let mut m = meta();
    m.backend = "winfsp\u{1b}[33mESC".to_string();
    for line in list("/s", &vec![m], &vec![false]) {
        assert!(!line.contains('\u{1b}'));
    }
    let mut m = meta();
    m.backend = "winfsp\u{1b}[33mESC".to_string();
    for line in status(&m, &facts()) {
        assert!(!line.contains('\u{1b}'));
    }
}

#[test]
fn worktrees_for_programs() {
    let v = row_json(&meta(), false);
    assert_eq!(v["id"], "abc");
    assert_eq!(v["name"], "demo");
    assert_eq!(v["target"], "/home/u/app");
    assert_eq!(v["status"], "applied");
    assert_eq!(v["backend"], "winfsp");
    assert_eq!(v["created_epoch"], 12);
    assert_eq!(v.as_object().unwrap().len(), 6);
    let text = list_json(&vec![meta()], &vec![true]);
    assert_eq!(
        text,
        "[\n  {\n    \"backend\": \"winfsp\",\n    \"created_epoch\": 12,\n    \"id\": \"abc\",\n    \"name\": \"demo\",\n    \"status\": \"running\",\n    \"target\": \"/home/u/app\"\n  }\n]"
    );
    assert_eq!(list_json(&vec![], &vec![]), "[]");
}

#[test]
fn status_human_has_created_line() {
    let lines = status(&meta(), &facts());
    assert_eq!(
        lines,
        vec![
            "id:        abc",
            "name:      demo",
            "target:    /home/u/app",
            "created:   12",
            "status:    applied",
            "backend:   winfsp",
            "upper:     42 bytes of isolated data",
            "state:     /s/abc",
        ]
    );
    let running = StatusFacts { running: Some(7), upper_missing: true, ..facts() };
    let lines = status(&meta(), &running);
    assert!(lines.contains(&"running:   pid 7".to_string()));
    assert!(lines.contains(&"status:    running".to_string()));
    assert!(lines.contains(&"upper:     MISSING (will be recreated on next run)".to_string()));
}

#[test]
fn status_upper_unreadable_is_not_zero() {
    let f = StatusFacts { upper_bytes: None, ..facts() };
    assert!(status(&meta(), &f).contains(&"upper:     unknown (unreadable)".to_string()));
    let v = status_value(&meta(), &f);
    assert!(v["upper_bytes"].is_null());
    assert!(v["running_pid"].is_null());
    assert_eq!(v["manifest_ok"], true);
    assert_eq!(v["state_dir"], "/s/abc");
    assert_eq!(v.as_object().unwrap().len(), 12);
    assert_eq!(status_value(&meta(), &facts())["upper_bytes"], 42);
    let mut unnamed = meta();
    unnamed.name = None;
    assert!(status_value(&unnamed, &f)["name"].is_null());
    assert!(status_json(&meta(), &f).contains("\"upper_missing\": false"));
}

#[test]
fn damage_is_reported() {
    assert!(status_warnings(&meta(), &facts()).is_empty());
    let f = StatusFacts { manifest_ok: false, target_missing: true, ..facts() };
    let w = status_warnings(&meta(), &f);
    assert_eq!(w.len(), 2);
    assert!(w[0].contains("for worktree abc is corrupted or unreadable"));
    assert!(w[0].ends_with("`cowt drop abc --force` to discard the worktree"));
    assert!(w[1].ends_with("run any command to restore it, or check /s/abc/real"));
}

#[test]
fn sizes_are_summed() {
    assert_eq!(dir_size(&vec![]), Some(0));
    assert_eq!(dir_size(&vec![1, 2, 3]), Some(6));
    assert_eq!(dir_size(&vec![u64::MAX, 1]), None);
}

const HEALTHY: Health = Health {
    manifest_ok: true,
    target_is_dir: true,
    real_exists: false,
    running: false,
    stale_run: false,
    upper_exists: true,
};

#[test]
fn health_issues() {
    assert!(doctor_worktree_issues(HEALTHY).is_empty());
    let all = Health {
        manifest_ok: false,
        target_is_dir: false,
        real_exists: true,
        running: false,
        stale_run: true,
        upper_exists: false,
    };
    assert_eq!(
        doctor_worktree_issues(all),
        vec![
            "manifest corrupted",
            "target missing but real/ present (crash strand; auto-restorable)",
            "stale pidfile (self-heals on next run)",
            "upper missing (recreated on next run)",
        ]
    );
    let gone = Health { target_is_dir: false, running: true, stale_run: true, ..HEALTHY };
    assert_eq!(
        doctor_worktree_issues(gone),
        vec!["target missing (externally deleted?)", "running"]
    );
}

#[test]
fn leftovers_are_reported() {
    let names = |v: &[&str]| v.iter().map(|s| s.to_string()).collect::<Vec<_>>();
    let mut out = Vec::new();
    doctor_residue(&mut out, Place::StateRoot, &names(&[".trash-a-1", "abc", "meta.json.tmp-1-2"]));
    doctor_residue(&mut out, Place::BesideTarget, &names(&["app", ".cowt-apply-1-2"]));
    doctor_residue(&mut out, Place::Layer, &names(&[".cowt-copy-tmp.f", ".wh.x"]));
    assert_eq!(
        out,
        vec![
            ".trash-a-1 (leftover drop; cleaned by the next drop, or manually if it holds no real/)",
            "meta.json.tmp-1-2 (crashed write; cleaned by the next write)",
            ".cowt-apply-1-2 (crashed apply staging; cleaned by the next apply)",
            ".cowt-copy-tmp.f (crashed copy-up; ignored by diff, safe to delete)",
        ]
    );
}

#[test]
fn the_doctor_report() {
    let w = vec![
        Checkup { id: "abc".to_string(), health: HEALTHY },
        Checkup { id: "def".to_string(), health: Health { running: true, ..HEALTHY } },
    ];
    let residue = vec!["x (y)".to_string()];
    let found = Seen::Listed { root: "/s".to_string(), worktrees: w, residue };
    let (report, ending) = doctor("fuse-t", &None, &found);
    assert_eq!(
        report,
        vec![
            "backend:   fuse-t",
            "available: yes",
            "state:     /s",
            "worktrees: 2 found",
            "  abc: ok",
            "  def: WARN (running)",
            "residue:   x (y)",
        ]
    );
    assert_eq!(exit_code(ending), 0);
    let empty = Seen::Listed { root: "/s".to_string(), worktrees: vec![], residue: vec![] };
    assert_eq!(
        doctor("none", &Some("why".to_string()), &empty).0,
        vec![
            "backend:   none",
            "available: NO (why)",
            "state:     /s",
            "worktrees: 0 (nothing to check)",
            "residue:   none",
        ]
    );
}

#[test]
fn the_doctor_reports_a_state_that_cannot_be_read() {
    let (report, ending) = doctor("fuse-t", &None, &Seen::NoRoot("no \u{1b}home".to_string()));
    assert_eq!(
        report,
        vec!["backend:   fuse-t", "available: yes", "state:     unknown (no \u{fffd}home)"]
    );
    assert_eq!(exit_code(ending), 0);
    let unlisted = Seen::NoList { root: "/s".to_string(), why: "denied".to_string() };
    let (report, ending) = doctor("none", &Some("why".to_string()), &unlisted);
    assert_eq!(
        report,
        vec![
            "backend:   none",
            "available: NO (why)",
            "state:     /s",
            "worktrees: unknown (denied)",
        ]
    );
    assert_eq!(exit_code(ending), 0);
}
