use cowt::cowfs::{
    attr_of, copy_up_tree, file_offset, listed_kind, make, make_start, open, permissions, readdir,
    readlink, rename, rename_start, setattr, setattr_start, statfs, tree_dirs, wants_write, CowFs, Errno,
    FileKind, FileProbe, Handle, MakeAsk, NamedHandle, NewEntry, RenameAsk, RenameProbe, SetAsk,
    SetAttr, Shown,
};
use cowt::inodes::{InoTable, ROOT_INO};
use cowt::layers::Place;

#[test]
fn paths_keep_their_numbers() {
    let mut t = InoTable::new();
    assert_eq!(t.path_of(ROOT_INO), Some(String::new()));
    assert_eq!(t.ino_of(""), Some(ROOT_INO));
    let a = t.assign("a");
    let b = t.assign("a/b");
    assert_eq!((a, b), (2, 3));
    assert_eq!(t.assign("a"), a);
    assert_eq!(t.path_of(b), Some("a/b".to_string()));
    assert_eq!(t.ino_of("a/b"), Some(3));
    assert_eq!(t.path_of(9), None);
    assert_eq!(t.ino_of("c"), None);
}

#[test]
fn a_filesystem_knows_its_layers_and_handles() {
    let mut fs = CowFs::new("/low".to_string(), "/up".to_string());
    assert_eq!(fs.upper_of("a/b"), "/up/a/b");
    assert_eq!(fs.lower_of("a/b"), "/low/a/b");
    assert_eq!(fs.child(ROOT_INO, "a"), Some("a".to_string()));
    assert_eq!(fs.child(77, "a"), None);
    let a = fs.number("a");
    assert_eq!(fs.child(a, "b"), Some("a/b".to_string()));
    assert_eq!(fs.path_of(a), Some("a".to_string()));
    let f = fs.open_handle(Handle::File);
    let d = fs.open_handle(Handle::Dir);
    assert_eq!((f, d), (2, 3));
    assert_eq!(fs.handle_of(f), Some(Handle::File));
    assert_eq!(fs.handle_of(d), Some(Handle::Dir));
    fs.release(f);
    assert_eq!(fs.handle_of(f), None);
    assert_eq!(fs.handle_of(d), Some(Handle::Dir));
    assert_eq!(fs.open_handle(Handle::File), 4);
}

#[test]
fn attributes_are_the_files_own() {
    let p = FileProbe { is_dir: false, is_symlink: false, len: 513, mode: 0o100600 };
    let a = attr_of(7, p);
    assert_eq!((a.ino, a.size, a.blocks, a.perm), (7, 513, 2, 0o600));
    assert_eq!((a.kind, a.nlink, a.blksize), (FileKind::File, 1, 4096));
    assert_eq!(attr_of(1, FileProbe { len: 512, ..p }).blocks, 1);
    assert_eq!(attr_of(1, FileProbe { len: 0, ..p }).blocks, 0);
    assert_eq!(attr_of(1, FileProbe { len: u64::MAX, ..p }).blocks, 1 << 55);
    let d = FileProbe { is_dir: true, ..p };
    assert_eq!(attr_of(1, d).kind, FileKind::Directory);
    let l = FileProbe { is_symlink: true, mode: 0o107777, ..p };
    assert_eq!((attr_of(1, l).kind, attr_of(1, l).perm), (FileKind::Symlink, 0o7777));
    assert_eq!(listed_kind(Some(d)), FileKind::Directory);
    assert_eq!(listed_kind(Some(l)), FileKind::File);
    assert_eq!(listed_kind(None), FileKind::File);
    assert_eq!(permissions(0o140755), 0o755);
}

#[test]
fn listings_continue_where_they_were_cut() {
    let all = ["a", "b", "c", "d"];
    let mut got = Vec::new();
    let mut offset = 0;
    loop {
        let start = readdir(all.len(), offset);
        if start == all.len() {
            break;
        }
        got.push(all[start]);
        offset = start as i64 + 1;
    }
    assert_eq!(got, all);
    assert_eq!(readdir(4, -5), 0);
    assert_eq!(readdir(4, 4), 4);
    assert_eq!(readdir(4, i64::MAX), 4);
    assert_eq!(file_offset(-1), 0);
    assert_eq!(file_offset(12), 12);
}

#[test]
fn writing_copies_up() {
    let p = open(true, Place::Lower, true).unwrap();
    assert!(p.copy_up && p.from_upper && p.write);
    let p = open(true, Place::Lower, false).unwrap();
    assert!(!p.copy_up && !p.from_upper && !p.write);
    let p = open(true, Place::Upper, true).unwrap();
    assert!(!p.copy_up && p.from_upper);
    assert_eq!(open(true, Place::Nowhere, false), Err(Errno::NoEntry));
    assert_eq!(open(false, Place::Upper, false), Err(Errno::NoEntry));
    assert!(wants_write(0o2001, 0o3) && !wants_write(0o2000, 0o3));
}

#[test]
fn entries_are_made_step_by_step() {
    let drive = |what: NewEntry| {
        let mut ask = make_start(what, true, "x");
        let mut seen = Vec::new();
        while !matches!(ask, MakeAsk::Answer | MakeAsk::Fail(_)) {
            seen.push(ask);
            ask = make(what, ask, true);
        }
        seen
    };
    assert_eq!(
        drive(NewEntry::Directory),
        vec![MakeAsk::ClearMarkers, MakeAsk::Make, MakeAsk::SetMode, MakeAsk::Look]
    );
    assert_eq!(
        drive(NewEntry::File),
        vec![MakeAsk::ClearMarkers, MakeAsk::MakeParents, MakeAsk::Make, MakeAsk::Look]
    );
    assert_eq!(make(NewEntry::File, MakeAsk::Look, false), MakeAsk::Fail(Errno::Io));
    assert_eq!(make(NewEntry::File, MakeAsk::Make, false), MakeAsk::Fail(Errno::System));
    assert_eq!(make(NewEntry::Directory, MakeAsk::SetMode, false), MakeAsk::Fail(Errno::System));
    assert_eq!(make(NewEntry::Symlink, MakeAsk::MakeParents, false), MakeAsk::Fail(Errno::System));
}

#[test]
fn reserved_and_special_entries_are_refused() {
    let refused = MakeAsk::Fail(Errno::NotPermitted);
    for what in [NewEntry::Directory, NewEntry::Symlink, NewEntry::File, NewEntry::Node(0o100644)] {
        assert_eq!(make_start(what, true, ".wh.notes.txt"), refused);
        assert_eq!(make_start(what, true, ".cowt-copy-tmp.x"), refused);
        assert_eq!(make_start(what, false, "x"), MakeAsk::Fail(Errno::NoEntry));
        assert_eq!(make_start(what, true, "x"), MakeAsk::ClearMarkers);
    }
    assert_eq!(make_start(NewEntry::Node(0o010644), true, "x"), refused);
    assert_eq!(make_start(NewEntry::Node(0o020644), false, "x"), refused);
}

const MOVE: RenameProbe = RenameProbe {
    known: true,
    reserved: false,
    in_lower: true,
    in_upper: false,
    replaces: true,
    marks_first: true,
};

fn rename_all(p: RenameProbe) -> Vec<RenameAsk> {
    let mut ask = rename_start(p);
    let mut seen = Vec::new();
    while !matches!(ask, RenameAsk::Answer | RenameAsk::Fail(_)) {
        seen.push(ask);
        ask = rename(p, ask, true);
    }
    seen.push(ask);
    seen
}

#[test]
fn renames_mark_the_old_path() {
    assert_eq!(
        rename_all(MOVE),
        vec![
            RenameAsk::CopyUpTree,
            RenameAsk::CheckSource,
            RenameAsk::MakeParents,
            RenameAsk::DeleteTarget,
            RenameAsk::WriteMarker,
            RenameAsk::Rename,
            RenameAsk::Answer
        ]
    );
    let late = RenameProbe { marks_first: false, replaces: false, in_upper: true, ..MOVE };
    assert_eq!(
        rename_all(late),
        vec![
            RenameAsk::CheckSource,
            RenameAsk::MakeParents,
            RenameAsk::Rename,
            RenameAsk::WriteMarker,
            RenameAsk::Answer
        ]
    );
    let fresh = RenameProbe { in_lower: false, in_upper: true, ..MOVE };
    assert!(!rename_all(fresh).contains(&RenameAsk::WriteMarker));
    let reserved = RenameProbe { reserved: true, ..MOVE };
    assert_eq!(rename_all(reserved), vec![RenameAsk::Fail(Errno::NotPermitted)]);
    let unknown = RenameProbe { known: false, ..MOVE };
    assert_eq!(rename_all(unknown), vec![RenameAsk::Fail(Errno::NoEntry)]);
    assert_eq!(rename(MOVE, RenameAsk::CheckSource, false), RenameAsk::Fail(Errno::NoEntry));
    assert_eq!(rename(MOVE, RenameAsk::CopyUpTree, false), RenameAsk::Fail(Errno::System));
    assert_eq!(rename(MOVE, RenameAsk::DeleteTarget, false), RenameAsk::WriteMarker);
}

#[test]
fn attributes_change_in_the_upper_layer() {
    let r = SetAttr {
        mode: Some(0o107755),
        size: Some(9),
        known: true,
        handle: NamedHandle::Absent,
    };
    let mut ask = setattr_start(r);
    let mut seen = Vec::new();
    while !matches!(ask, SetAsk::Answer | SetAsk::Fail(_)) {
        seen.push(ask);
        ask = setattr(r, ask, true);
    }
    assert_eq!(
        seen,
        vec![
            SetAsk::CopyUpForMode(0o7755),
            SetAsk::SetMode(0o7755),
            SetAsk::CopyUpForSize(9),
            SetAsk::TruncateFile(9),
            SetAsk::Look
        ]
    );
    let h = SetAttr { mode: None, handle: NamedHandle::File, ..r };
    assert_eq!(setattr_start(h), SetAsk::TruncateHandle(9));
    let o = SetAttr { mode: None, handle: NamedHandle::Other, ..r };
    assert_eq!(setattr_start(o), SetAsk::Look);
    let unknown = SetAttr { known: false, ..r };
    assert_eq!(setattr_start(unknown), SetAsk::Fail(Errno::NoEntry));
    assert_eq!(setattr(r, SetAsk::SetMode(1), false), SetAsk::Fail(Errno::System));
    assert_eq!(setattr(r, SetAsk::TruncateFile(9), false), SetAsk::Fail(Errno::System));
    assert_eq!(setattr(r, SetAsk::Look, false), SetAsk::Fail(Errno::NoEntry));
}

#[test]
fn links_and_volumes() {
    assert_eq!(readlink(true, Place::Lower, true), None);
    assert_eq!(readlink(true, Place::Lower, false), Some(Errno::Invalid));
    assert_eq!(readlink(true, Place::Nowhere, true), Some(Errno::NoEntry));
    assert_eq!(readlink(false, Place::Upper, true), Some(Errno::NoEntry));
    let v = statfs();
    assert_eq!((v.blocks, v.free, v.block_size), (1 << 30, 1 << 29, 4096));
    assert_eq!((v.files, v.name_length, v.fragment_size), (1 << 20, 255, 4096));
}

#[test]
fn whole_trees_are_copied() {
    let name = |s: &str| s.to_string();
    let tree = Shown::Dir(vec![
        (name("a"), Shown::File),
        (name("d"), Shown::Dir(vec![(name("x"), Shown::File), (name("y"), Shown::File)])),
        (name("empty"), Shown::Dir(vec![])),
    ]);
    let all: Vec<String> =
        copy_up_tree(&vec![name("logs")], &tree).iter().map(|p| p.join("/")).collect();
    assert_eq!(all, vec!["logs/a", "logs/d/x", "logs/d/y"]);
    assert_eq!(copy_up_tree(&vec![name("f")], &Shown::File), vec![vec![name("f")]]);
    let dirs: Vec<String> =
        tree_dirs(&vec![name("logs")], &tree).iter().map(|p| p.join("/")).collect();
    assert_eq!(dirs, vec!["logs", "logs/d", "logs/empty"]);
    assert!(tree_dirs(&vec![name("f")], &Shown::File).is_empty());
    let nothing = Shown::Dir(vec![]);
    assert!(copy_up_tree(&vec![name("e")], &nothing).is_empty());
    assert_eq!(tree_dirs(&vec![name("e")], &nothing), vec![vec![name("e")]]);
}
