use cowt::diffing::{
    compares_content, diff_cmd, diff_note, print_human, print_json, ChangeKind, ContentDiff, DiffAsk,
    DiffRefusal, DiffReply, FileChange, KeyChange,
};

fn change(path: &str, kind: ChangeKind, detail: Option<ContentDiff>) -> FileChange {
    FileChange { path: path.to_string(), kind, detail }
}

fn key(kind: ChangeKind, old: Option<&str>, new: Option<&str>) -> KeyChange {
    KeyChange {
        key: "k".to_string(),
        kind,
        old_value: old.map(|s| s.to_string()),
        new_value: new.map(|s| s.to_string()),
    }
}

#[test]
fn changes_are_shown_and_counted() {
    let changes = vec![
        change("new", ChangeKind::Added, None),
        change(
            "text",
            ChangeKind::Modified,
            Some(ContentDiff::Text { unified: "-a\n+b\u{1b}\n".to_string() }),
        ),
        change(
            "keys",
            ChangeKind::Modified,
            Some(ContentDiff::Keys {
                changes: vec![
                    key(ChangeKind::Modified, Some("1"), Some("2")),
                    key(ChangeKind::Added, None, Some("3")),
                    key(ChangeKind::Deleted, Some("4"), None),
                    key(ChangeKind::Deleted, None, None),
                ],
            }),
        ),
        change("bin", ChangeKind::Modified, Some(ContentDiff::Binary)),
        change("old\u{7}", ChangeKind::Deleted, None),
    ];
    assert_eq!(
        print_human(&changes, false),
        vec![
            "A  new",
            "M  text",
            "    -a",
            "    +b\u{fffd}",
            "M  keys",
            "    ~ k: 1 -> 2",
            "    + k: 3",
            "    - k: (was 4)",
            "M  bin",
            "    (binary content changed)",
            "D  old\u{fffd}",
            "summary: 1 added, 3 modified, 1 deleted",
        ]
    );
    assert_eq!(print_human(&changes, true), vec!["summary: 1 added, 3 modified, 1 deleted"]);
    assert_eq!(print_human(&vec![], true), vec!["no changes"]);
    assert_eq!(print_human(&vec![], false), vec!["no changes"]);
}

#[test]
fn content_is_compared_where_the_host_is_unchanged() {
    assert!(compares_content(ChangeKind::Modified, Some(true)));
    assert!(!compares_content(ChangeKind::Modified, Some(false)));
    assert!(!compares_content(ChangeKind::Modified, None));
    assert!(!compares_content(ChangeKind::Added, Some(true)));
}

#[test]
fn diff_waits_for_the_run_to_end() {
    assert_eq!(
        diff_cmd(false, DiffAsk::CheckRunning, DiffReply::Yes),
        DiffAsk::Refuse(DiffRefusal::Running)
    );
    let foreign = DiffReply::Mount { mounted: true, stale_run: false, real_exists: false };
    assert_eq!(
        diff_cmd(false, DiffAsk::ProbeMount, foreign),
        DiffAsk::Refuse(DiffRefusal::ForeignMount)
    );
    let stale = DiffReply::Mount { mounted: true, stale_run: false, real_exists: true };
    assert_eq!(diff_cmd(false, DiffAsk::ProbeMount, stale), DiffAsk::Recover);
    assert_eq!(diff_cmd(false, DiffAsk::Recover, DiffReply::Yes), DiffAsk::Compare);
    assert_eq!(diff_cmd(false, DiffAsk::Compare, DiffReply::Yes), DiffAsk::Report);
    assert_eq!(diff_cmd(true, DiffAsk::Compare, DiffReply::Yes), DiffAsk::Enrich);
    assert_eq!(diff_cmd(true, DiffAsk::Enrich, DiffReply::No), DiffAsk::Report);
    assert_eq!(
        diff_cmd(true, DiffAsk::Compare, DiffReply::No),
        DiffAsk::Refuse(DiffRefusal::System)
    );
    assert_eq!(
        DiffRefusal::Running.message("abc", "", ""),
        "worktree 'abc' is running; diff is available after the process exits"
    );
    assert!(DiffRefusal::ForeignMount.message("", "/t", "").starts_with("/t is already"));
    assert_eq!(DiffRefusal::System.message("", "", "e"), "e");
    assert_eq!(diff_note("12", 3), "cowt: diff computed in 12ms (3 change(s))");
}

#[test]
fn programs_get_a_list() {
    assert_eq!(print_json(0, "[\n]"), "[]");
    assert_eq!(print_json(1, "[\n  {}\n]"), "[\n  {}\n]");
}
