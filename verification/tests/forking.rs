use cowt::forking::{
    check_bounds, fork, fork_report, new_meta, symlink_warning, Bounds, ForkAsk, ForkRefusal,
    ForkReply, ScanCounts,
};
use cowt::host::HostOs;
use cowt::state::Status;

fn home() -> Option<String> {
    Some("/home/u".to_string())
}

#[test]
fn fork_refuses_directories_outside_home() {
    assert_eq!(check_bounds(HostOs::Linux, "/etc", "/home/u/.s", home(), false), Bounds::OutsideHome);
    assert_eq!(check_bounds(HostOs::Linux, "/home/user2", "/home/u/.s", home(), false), Bounds::OutsideHome);
    assert_eq!(check_bounds(HostOs::Linux, "/etc", "/home/u/.s", home(), true), Bounds::Inside);
    assert_eq!(check_bounds(HostOs::Linux, "/home/u/app", "/home/u/.s", home(), false), Bounds::Inside);
    assert_eq!(check_bounds(HostOs::Linux, "/home/u/app", "/home/u/.s", None, false), Bounds::NoHome);
}

#[test]
fn the_state_root_is_never_isolated() {
    assert_eq!(check_bounds(HostOs::Linux, "/home/u", "/home/u/.s", home(), true), Bounds::HoldsState);
    assert_eq!(check_bounds(HostOs::Linux, "/home/u/.s/x", "/home/u/.s", home(), true), Bounds::HoldsState);
    assert_eq!(check_bounds(HostOs::Linux, "/home/u/.s2", "/home/u/.s", home(), false), Bounds::Inside);
}

#[test]
fn fork_goes_through_its_checks() {
    let scanned = ForkReply::Scanned { entries: 2, warnings: 1 };
    let mut ask = ForkAsk::Canonicalize;
    let replies = [
        ForkReply::Yes,
        ForkReply::Yes,
        ForkReply::Yes,
        ForkReply::Lies(Bounds::Inside),
        ForkReply::No,
        scanned,
        ForkReply::Yes,
    ];
    for r in replies {
        ask = fork(ask, r);
    }
    assert_eq!(ask, ForkAsk::Report);
    assert_eq!(
        fork(ForkAsk::Scan, ForkReply::Scanned { entries: 0, warnings: 2 }),
        ForkAsk::Refuse(ForkRefusal::Unreadable(2))
    );
    assert_eq!(
        fork(ForkAsk::Scan, ForkReply::Scanned { entries: 0, warnings: 0 }),
        ForkAsk::Create
    );
    assert_eq!(
        fork(ForkAsk::CheckMounted, ForkReply::Yes),
        ForkAsk::Refuse(ForkRefusal::Mounted)
    );
    assert_eq!(
        fork(ForkAsk::Canonicalize, ForkReply::No),
        ForkAsk::Refuse(ForkRefusal::NotFound)
    );
    assert_eq!(
        fork(ForkAsk::CheckDirectory, ForkReply::No),
        ForkAsk::Refuse(ForkRefusal::NotADirectory)
    );
    for (b, e) in [
        (Bounds::HoldsState, ForkRefusal::HoldsState),
        (Bounds::OutsideHome, ForkRefusal::OutsideHome),
        (Bounds::NoHome, ForkRefusal::NoHome),
    ] {
        assert_eq!(fork(ForkAsk::CheckBounds, ForkReply::Lies(b)), ForkAsk::Refuse(e));
    }
    assert_eq!(fork(ForkAsk::Create, ForkReply::No), ForkAsk::Refuse(ForkRefusal::System));
}

#[test]
fn fork_errors() {
    let m = |e: ForkRefusal| e.message("/t", "/s", "sys");
    assert_eq!(m(ForkRefusal::NotFound), "target directory /t not found: sys");
    assert_eq!(m(ForkRefusal::NotADirectory), "/t is not a directory");
    assert_eq!(
        m(ForkRefusal::HoldsState),
        "refusing to isolate /t: it contains (or is inside) the cowt state root /s"
    );
    assert!(m(ForkRefusal::OutsideHome).contains("only directories under $HOME are supported"));
    assert_eq!(
        m(ForkRefusal::NoHome),
        "refusing to isolate /t: $HOME is not set and --force-path was not given"
    );
    assert!(m(ForkRefusal::Mounted).starts_with("refusing to fork /t: it is currently mounted"));
    assert!(m(ForkRefusal::Unreadable(2)).contains("found 0 entries with 2 error(s)"));
    assert_eq!(m(ForkRefusal::System), "sys");
}

#[test]
fn new_worktrees_are_ready_and_named() {
    let m = new_meta(HostOs::Linux, "id", None, "/home/u/.config/Code", 9, "fuse-t");
    assert_eq!(m.name.as_deref(), Some("config-Code"));
    assert_eq!((m.status, m.created_epoch), (Status::Ready, 9));
    let n = new_meta(HostOs::Linux, "id", Some("given".to_string()), "/x", 9, "b");
    assert_eq!((n.name.as_deref(), n.backend.as_str()), (Some("given"), "b"));
}

#[test]
fn the_report_lists_five_skipped_entries() {
    let meta = new_meta(HostOs::Linux, "abc", Some("n\u{1b}".to_string()), "/t", 9, "b");
    let warnings =
        (0..7).map(|i| (format!("p{i}"), "denied".to_string())).collect::<Vec<_>>();
    let scan = ScanCounts { entries: 3, files: 2, symlinks: 1, warnings };
    let lines = fork_report(&meta, "/s/abc", &scan, "4", "5.0");
    assert_eq!(lines[0], "forked worktree abc");
    assert_eq!(lines[1], "  name:    n\u{fffd}");
    assert_eq!(lines[5], "  base:    3 entries (2 files) scanned in 4ms");
    assert_eq!(lines[6], "  warnings: 7 entr(y/ies) skipped:");
    assert_eq!(lines[11], "    - p4: denied");
    assert_eq!(lines[12], "  fork completed in 5.0ms");
    assert_eq!(lines.len(), 13);
    let quiet = ScanCounts { entries: 0, files: 0, symlinks: 0, warnings: vec![] };
    assert_eq!(fork_report(&meta, "/s/abc", &quiet, "4", "5.0").len(), 7);
    assert!(symlink_warning(2).unwrap().starts_with("cowt: warning: 2 symlink(s) detected"));
    assert_eq!(symlink_warning(0), None);
}

#[test]
fn windows_bounds() {
    let lies = |t: &str, root: &str, force: bool| {
        check_bounds(HostOs::Windows, t, root, Some("C:\\Users\\u".to_string()), force)
    };
    assert_eq!(lies("C:\\s\\x", "C:\\s", true), Bounds::HoldsState);
    assert_eq!(lies("C:\\s", "C:\\s\\x", true), Bounds::HoldsState);
    assert_eq!(lies("c:/s/x", "C:\\s", true), Bounds::HoldsState);
    assert_eq!(lies("C:\\Users\\u\\app", "C:\\s", false), Bounds::Inside);
    assert_eq!(lies("c:\\Users\\u\\app", "C:\\s", false), Bounds::Inside);
    assert_eq!(lies("D:\\Users\\u\\app", "C:\\s", false), Bounds::OutsideHome);
    assert_eq!(lies("C:\\Users\\u2", "C:\\s", false), Bounds::OutsideHome);
    assert_eq!(lies("D:\\x", "C:\\s", true), Bounds::Inside);
}

#[test]
fn windows_worktrees_are_named_after_their_target() {
    let m = new_meta(HostOs::Windows, "id", None, "C:\\a\\b", 9, "winfsp");
    assert_eq!(m.name.as_deref(), Some("a-b"));
    assert_eq!(m.target, "C:\\a\\b");
}
