use cowt::host::HostOs;
use cowt::state::{short_id, State, Status, WorktreeMeta};
use cowt::worktrees::{
    CreateAnswer, CreateAsk, CreateError, DirProbe, EntryProbe, ListWarning, ResolveError,
};

fn meta(id: &str, name: Option<&str>, epoch: u64) -> WorktreeMeta {
    WorktreeMeta {
        id: id.to_string(),
        name: name.map(|n| n.to_string()),
        target: "/x".to_string(),
        created_epoch: epoch,
        status: Status::Ready,
        backend: "test".to_string(),
    }
}

fn entry(name: &str, m: Option<WorktreeMeta>) -> EntryProbe {
    EntryProbe {
        name: name.to_string(),
        is_dir: true,
        has_meta: true,
        has_manifest: true,
        has_upper: true,
        meta: m,
    }
}

fn state() -> State {
    State::open(Some("/s".to_string()), None, None, HostOs::Linux).unwrap().0
}

const NOTHING: DirProbe = DirProbe {
    has_meta: false,
    is_dir: false,
    manifest_is_file: false,
    upper_is_dir: false,
    work_is_dir: false,
};

#[test]
fn list_order_is_deterministic() {
    let same = vec![
        entry("b", Some(meta("b", Some("demo2"), 1000))),
        entry("a", Some(meta("a", Some("demo"), 1000))),
    ];
    let ids: Vec<String> = state().list(&same).metas.iter().map(|m| m.id.clone()).collect();
    assert_eq!(ids, vec!["a", "b"], "same-epoch worktrees are ordered by id");
    let entries = vec![
        entry("b", Some(meta("b", None, 5))),
        entry("a", Some(meta("a", None, 5))),
        entry("z", Some(meta("z", None, 1))),
    ];
    let l = state().list(&entries);
    let ids: Vec<&str> = l.metas.iter().map(|m| m.id.as_str()).collect();
    assert_eq!(ids, vec!["z", "a", "b"]);
    assert!(l.warnings.is_empty());
}

#[test]
fn list_skips_forged_meta_with_escaping_id() {
    let forged = "../../victim";
    let entries = vec![
        entry("0123456789abcdef", Some(meta(forged, Some("evil"), 0))),
        entry("fedcba9876543210", Some(meta("fedcba9876543210", None, 0))),
    ];
    let l = state().list(&entries);
    assert_eq!(l.metas.len(), 1);
    assert_eq!(l.metas[0].id, "fedcba9876543210");
    assert_eq!(l.warnings, vec![("0123456789abcdef".to_string(), ListWarning::ForgedId)]);
    let found = state().resolve("evil", NOTHING, &vec![meta(forged, Some("evil"), 0)]);
    assert!(matches!(found, Err(ResolveError::NotFound)));
}

#[test]
fn entries_that_are_left_out_are_reported() {
    let mut no_meta = entry("half", None);
    no_meta.has_meta = false;
    let mut plain = entry("plain", None);
    plain.has_meta = false;
    plain.has_manifest = false;
    plain.has_upper = false;
    let mut file = entry("file", None);
    file.is_dir = false;
    let entries =
        vec![no_meta, plain, file, entry("bad", None), entry(".trash-x-1", Some(meta("x", None, 0)))];
    let l = state().list(&entries);
    assert!(l.metas.is_empty());
    assert_eq!(
        l.warnings,
        vec![
            ("half".to_string(), ListWarning::NoMeta),
            ("bad".to_string(), ListWarning::Unreadable),
        ]
    );
    assert_eq!(
        ListWarning::NoMeta.message("/s/half", "half", ""),
        "cowt: warning: /s/half has no meta.json (interrupted fork or missing file); its isolated data is not listed. Use `cowt drop half --force` to clean it up"
    );
    assert_eq!(
        ListWarning::Unreadable.message("/s/bad", "bad", "oops"),
        "cowt: warning: unreadable meta.json in /s/bad (oops); use `cowt drop bad --force` to discard"
    );
    assert!(ListWarning::ForgedId.message("/s/f", "f", "").contains("cowt drop f --force"));
}

#[test]
fn resolve_rejects_path_traversal_ids() {
    for bad in ["../victim", "../x", "a/../b", "..", ".trash-evil", "a\\b", "a/b", "", "."] {
        let probe = DirProbe { has_meta: true, ..NOTHING };
        let r = state().resolve(bad, probe, &vec![meta("i", Some(bad), 0)]);
        assert!(matches!(r, Err(ResolveError::Invalid)), "{bad}");
    }
}

#[test]
fn ids_come_before_names() {
    let metas = vec![meta("i1", Some("demo"), 0), meta("i2", Some("i1"), 0)];
    let direct = DirProbe { has_meta: true, ..NOTHING };
    assert_eq!(state().resolve("i1", direct, &metas).unwrap(), "/s/i1");
    assert_eq!(state().resolve("demo", NOTHING, &metas).unwrap(), "/s/i1");
    assert_eq!(state().resolve("i1", NOTHING, &metas).unwrap(), "/s/i2");
}

#[test]
fn half_made_directories_can_be_looked_up() {
    let shapes = [
        DirProbe { is_dir: true, manifest_is_file: true, ..NOTHING },
        DirProbe { is_dir: true, upper_is_dir: true, ..NOTHING },
        DirProbe { is_dir: true, work_is_dir: true, ..NOTHING },
    ];
    for probe in shapes {
        assert_eq!(state().resolve("abc", probe, &vec![]).unwrap(), "/s/abc");
    }
    let empty = DirProbe { is_dir: true, ..NOTHING };
    assert!(matches!(state().resolve("abc", empty, &vec![]), Err(ResolveError::NotFound)));
}

#[test]
fn lookup_errors() {
    let two = vec![meta("i1", Some("n"), 0), meta("i2", Some("n"), 0)];
    let e = state().resolve("n", NOTHING, &two).unwrap_err();
    assert_eq!(e.message("n"), "name 'n' is ambiguous: i1, i2");
    let none = state().resolve("q", NOTHING, &two).unwrap_err();
    assert_eq!(none.message("q"), "no worktree named or identified by 'q'");
    let bad = state().resolve("a/b", NOTHING, &two).unwrap_err();
    assert_eq!(bad.message("a/b"), "invalid worktree id or name 'a/b'");
}

#[test]
fn a_named_worktree_is_created_and_found() {
    let m = meta("new", Some("demo"), 3);
    let mut ask = CreateAsk::MakeDir;
    let mut steps = 0;
    loop {
        let answer = match &ask {
            CreateAsk::MakeDir => CreateAnswer::Done,
            CreateAsk::ListBefore => CreateAnswer::Listed(vec![meta("old", Some("other"), 1)]),
            CreateAsk::Populate => CreateAnswer::Done,
            CreateAsk::ListAfter => {
                CreateAnswer::Listed(vec![meta("old", Some("other"), 1), meta("new", Some("demo"), 3)])
            }
            _ => break,
        };
        ask = state().create(&m, ask, answer);
        steps += 1;
    }
    let CreateAsk::Finished(dir) = ask else { panic!("the worktree is there") };
    assert_eq!(dir, "/s/new");
    assert_eq!(steps, 4);
    let listed = vec![meta("old", Some("other"), 1), meta("new", Some("demo"), 3)];
    assert_eq!(state().resolve("demo", NOTHING, &listed).unwrap(), "/s/new");
}

#[test]
fn an_unnamed_worktree_needs_no_listing() {
    let m = meta("new", None, 3);
    let a = state().create(&m, CreateAsk::MakeDir, CreateAnswer::Done);
    assert!(matches!(a, CreateAsk::Populate));
    let b = state().create(&m, a, CreateAnswer::Done);
    let CreateAsk::Finished(dir) = b else { panic!("the worktree is there") };
    assert_eq!(dir, "/s/new");
}

#[test]
fn fork_rejects_name_colliding_with_existing_id() {
    let id = short_id(Some([1, 2, 3, 4, 5, 6, 7, 8]), 0, 0);
    assert_eq!(id.len(), 16, "ids are 16 hex chars, got {id}");
    let m = meta("new", Some(&id), 3);
    let a = state().create(&m, CreateAsk::ListBefore, CreateAnswer::Listed(vec![meta(&id, None, 0)]));
    assert!(matches!(a, CreateAsk::RemoveEmpty(CreateError::NameTaken)));
    let b = state().create(&m, a, CreateAnswer::Done);
    assert!(matches!(b, CreateAsk::Stop(CreateError::NameTaken)));
}

#[test]
fn fork_rejects_invalid_names() {
    for bad in ["a..b", "dir/name", "..evil", "", "../evil", "a/b", "..", "."] {
        let m = meta("new", Some(bad), 3);
        let a = state().create(&m, CreateAsk::MakeDir, CreateAnswer::Done);
        assert!(matches!(a, CreateAsk::RemoveEmpty(CreateError::InvalidName)), "{bad}");
    }
    // A name that merely holds a dot is fine.
    let m = meta("new", Some("a.b"), 3);
    let a = state().create(&m, CreateAsk::MakeDir, CreateAnswer::Done);
    assert!(matches!(a, CreateAsk::ListBefore));
    let b = state().create(&m, a, CreateAnswer::Listed(vec![]));
    assert!(matches!(b, CreateAsk::Populate));
    assert_eq!(
        CreateError::InvalidName.message("i", "a/b", ""),
        "invalid worktree name 'a/b' (must be a single path component)"
    );
}

#[test]
fn creation_is_undone_when_it_fails() {
    let m = meta("new", Some("demo"), 3);
    let taken = state().create(&m, CreateAsk::MakeDir, CreateAnswer::Exists);
    assert!(matches!(taken, CreateAsk::Stop(CreateError::IdExists)));
    let refused = state().create(&m, CreateAsk::MakeDir, CreateAnswer::Failed);
    assert!(matches!(refused, CreateAsk::Stop(CreateError::Refused)));
    let half = state().create(&m, CreateAsk::Populate, CreateAnswer::Failed);
    assert!(matches!(half, CreateAsk::RemoveAll(CreateError::Refused)));
    let raced = state().create(
        &m,
        CreateAsk::ListAfter,
        CreateAnswer::Listed(vec![meta("new", Some("demo"), 3), meta("rival", Some("demo"), 3)]),
    );
    let CreateAsk::RemoveAll(e) = raced else { panic!("the loser is removed") };
    assert_eq!(
        e.message("new", "demo", ""),
        "a worktree named 'demo' already exists (id rival); pick a different --name"
    );
    assert_eq!(CreateError::IdExists.message("i", "", ""), "worktree 'i' already exists");
    assert_eq!(
        CreateError::NameTaken.message("", "demo", ""),
        "a worktree named 'demo' already exists; pick a different --name"
    );
    assert_eq!(CreateError::Refused.message("", "", "disk full"), "disk full");
}

#[test]
fn damaged_metadata_names_the_worktree() {
    assert_eq!(
        cowt::worktrees::load_meta_error("/s/abc", "abc"),
        "parse meta.json for /s/abc (worktree abc); use `cowt drop abc --force` to discard the damaged worktree"
    );
}

#[test]
fn windows_lookups_stay_in_the_root() {
    let s = State::open(Some("C:\\s".to_string()), None, None, HostOs::Windows).unwrap().0;
    let there = DirProbe { has_meta: true, is_dir: true, ..NOTHING };
    assert_eq!(s.resolve("abc", there, &vec![]).unwrap(), "C:\\s\\abc");
    for bad in ["C:x", "..\\x", "C:\\x", "a/b"] {
        assert!(matches!(s.resolve(bad, there, &vec![]), Err(ResolveError::Invalid)), "{bad}");
    }
    let forged = vec![meta("D:x", Some("demo"), 1), meta("ok", Some("demo"), 1)];
    assert_eq!(s.resolve("demo", NOTHING, &forged).unwrap(), "C:\\s\\ok");
    let entries = vec![entry("a", Some(meta("D:x", None, 1))), entry("b", Some(meta("b", None, 2)))];
    let l = s.list(&entries);
    assert_eq!(l.metas.len(), 1);
    assert_eq!(l.warnings, vec![("a".to_string(), ListWarning::ForgedId)]);
    let m = meta("new", Some("C:x"), 3);
    let a = s.create(&m, CreateAsk::MakeDir, CreateAnswer::Done);
    assert!(matches!(a, CreateAsk::RemoveEmpty(CreateError::InvalidName)));
}

#[test]
fn what_is_created_reads_back() {
    let m = meta("new", Some("demo"), 3);
    let made = state().create(
        &m,
        CreateAsk::ListAfter,
        CreateAnswer::Listed(vec![meta("new", Some("demo"), 3)]),
    );
    let CreateAsk::Finished(dir) = made else { panic!("the worktree is there") };
    assert_eq!(dir, state().dir("new"));
    let entries = vec![
        entry("old", Some(meta("old", Some("other"), 1))),
        entry("new", Some(meta("new", Some("demo"), 3))),
    ];
    let l = state().list(&entries);
    assert_eq!(l.metas.len(), 2);
    let back = l.metas.iter().find(|w| w.id == "new").unwrap();
    assert_eq!((back.name.as_deref(), back.created_epoch), (Some("demo"), 3));
    let there = DirProbe { has_meta: true, is_dir: true, ..NOTHING };
    assert_eq!(state().resolve("new", there, &l.metas).unwrap(), dir);
}
