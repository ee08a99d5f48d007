use cowt::host::HostOs;
use cowt::state::{
    default_name, dos_path, hex, home_dir, sanitize_display, short_id, valid_id_or_name, State,
    Status,
};
use cowt::worktrees::DirProbe;

#[test]
fn default_name_slug() {
    assert_eq!(default_name(HostOs::Linux, "/home/u/.config/Code"), "config-Code");
    assert_eq!(default_name(HostOs::Linux, "/"), "worktree");
}

#[test]
fn default_name_takes_the_last_two_parts() {
    assert_eq!(default_name(HostOs::Linux, "/a/b/c/d"), "c-d");
    assert_eq!(default_name(HostOs::Linux, "/solo"), "solo");
    assert_eq!(default_name(HostOs::Linux, "/home/.../x"), "home-x");
    assert_eq!(default_name(HostOs::Linux, ""), "worktree");
}

#[test]
fn control_and_layout_characters_are_replaced() {
    assert_eq!(sanitize_display("a\u{1b}[31mb"), "a\u{fffd}[31mb");
    assert_eq!(sanitize_display("a\tb\nc\rd"), "a\tb\nc\rd");
    assert_eq!(sanitize_display("x\u{202e}y\u{200b}z\u{feff}"), "x\u{fffd}y\u{fffd}z\u{fffd}");
    assert_eq!(sanitize_display("\u{85}"), "\u{fffd}");
    assert_eq!(sanitize_display("a\u{61c}b"), "a\u{fffd}b");
    for c in [
        '\u{ad}', '\u{600}', '\u{605}', '\u{6dd}', '\u{70f}', '\u{890}', '\u{8e2}', '\u{180e}',
        '\u{2064}', '\u{206f}', '\u{fff9}', '\u{fffb}', '\u{110bd}', '\u{110cd}', '\u{13430}',
        '\u{1343f}', '\u{1bca0}', '\u{1d17a}', '\u{e0001}', '\u{e0020}', '\u{e007f}',
    ] {
        assert_eq!(sanitize_display(&c.to_string()), "\u{fffd}", "{c:?}");
    }
    for c in ['\u{ac}', '\u{606}', '\u{61b}', '\u{2010}', '\u{fffc}', '\u{e0000}', '\u{e0080}'] {
        assert_eq!(sanitize_display(&c.to_string()), c.to_string(), "{c:?}");
    }
    assert_eq!(sanitize_display("plain 日本"), "plain 日本");
    let once = sanitize_display("\u{7}");
    assert_eq!(sanitize_display(&once), once);
}

#[test]
fn names_are_single_components() {
    for good in ["vscode", "a.b", "x-1", "名"] {
        assert!(valid_id_or_name(HostOs::Linux, good), "{good}");
    }
    for bad in [
        "", ".", "..", "../x", "a/../b", "a\\b", "a/b", "a..b", ".trash-evil", "a\nb", "a\u{1b}",
    ] {
        assert!(!valid_id_or_name(HostOs::Linux, bad), "{bad:?}");
    }
}

#[test]
fn fork_rejects_control_char_names() {
    for bad in ["bad\nname", "tab\tname", "esc\u{1b}name"] {
        assert!(!valid_id_or_name(HostOs::Linux, bad), "{bad:?}");
    }
}

#[test]
fn resolve_rejects_dot_id() {
    let state = State::open(Some("/s".to_string()), None, None, HostOs::Linux).unwrap().0;
    let there = DirProbe {
        has_meta: true,
        is_dir: true,
        manifest_is_file: true,
        upper_is_dir: true,
        work_is_dir: true,
    };
    for bad in [".", ".."] {
        assert!(!valid_id_or_name(HostOs::Linux, bad));
        let Err(e) = state.resolve(bad, there, &vec![]) else { panic!("{bad} must be refused") };
        assert!(e.message(bad).contains("invalid worktree id or name"));
    }
}

#[test]
fn hexadecimal_ids() {
    assert_eq!(hex(&[0x00, 0xff, 0x1a]), "00ff1a");
    assert_eq!(hex(&[]), "");
    assert_eq!(short_id(Some([1, 2, 3, 4, 5, 6, 7, 0xab]), 9, 9), "01020304050607ab");
    let clock = short_id(None, 0x0102, 1);
    assert_eq!(clock, "0201000001000000");
    assert!(valid_id_or_name(HostOs::Linux, &clock));
}

#[test]
fn verbatim_prefix_is_stripped() {
    assert_eq!(dos_path("\\\\?\\C:\\Users\\u"), "C:\\Users\\u");
    assert_eq!(dos_path("C:\\Users\\u"), "C:\\Users\\u");
}

#[test]
fn state_root_is_chosen() {
    let given = State::open(Some("/s".to_string()), None, None, HostOs::Linux).unwrap();
    assert_eq!(given.0.root(), "/s");
    assert!(!given.1);
    let home = Some("/home/u".to_string());
    let default = State::open(None, home.clone(), None, HostOs::Linux).unwrap();
    assert_eq!(default.0.root(), "/home/u/.local/state/cowt");
    assert!(!default.1);
    let empty = State::open(Some(String::new()), home.clone(), None, HostOs::MacOs).unwrap();
    assert_eq!(empty.0.root(), "/home/u/.local/state/cowt");
    assert!(empty.1);
    assert!(State::open(None, None, None, HostOs::Linux).is_err());
    assert!(State::open(Some(String::new()), None, None, HostOs::Linux).is_err());
    let local = Some("/l".to_string());
    let win = State::open(None, home.clone(), local, HostOs::Windows).unwrap();
    assert_eq!(win.0.root(), "/l\\cowt");
    let bare = State::open(None, home, None, HostOs::Windows).unwrap();
    assert_eq!(bare.0.root(), "/home/u\\.cowt\\cowt");
}

#[test]
fn home_directory() {
    let h = Some("/h".to_string());
    let p = Some("/p".to_string());
    assert_eq!(home_dir(h.clone(), p.clone(), HostOs::Windows), h);
    assert_eq!(home_dir(None, p.clone(), HostOs::Windows), p);
    assert_eq!(home_dir(None, p, HostOs::Linux), None);
}

#[test]
fn worktree_directories_lie_in_the_root() {
    let s = State::open(Some("/s".to_string()), None, None, HostOs::Linux).unwrap().0;
    assert_eq!(s.dir("abc"), "/s/abc");
    let t = State::open(Some("/s/".to_string()), None, None, HostOs::Linux).unwrap().0;
    assert_eq!(t.dir("abc"), "/s/abc");
}

#[test]
fn a_new_status_is_ready() {
    assert_eq!(Status::default(), Status::Ready);
}

#[test]
fn windows_names_leave_the_drive_out() {
    let name = |t: &str| default_name(HostOs::Windows, t);
    assert_eq!(name("C:\\a\\b"), "a-b");
    assert_eq!(name("C:\\Users\\u\\.config\\Code"), "config-Code");
    assert_eq!(name("C:/a"), "a");
    assert_eq!(name("C:\\"), "worktree");
    assert_eq!(name("\\\\server\\share\\x"), "x");
}

#[test]
fn windows_roots_and_directories() {
    let local = Some("C:\\Users\\u\\AppData\\Local".to_string());
    let home = Some("C:\\Users\\u".to_string());
    let s = State::open(None, home.clone(), local, HostOs::Windows).unwrap().0;
    assert_eq!(s.root(), "C:\\Users\\u\\AppData\\Local\\cowt");
    assert_eq!(s.dir("abc"), "C:\\Users\\u\\AppData\\Local\\cowt\\abc");
    assert_eq!(s.os(), HostOs::Windows);
    let bare = State::open(None, home, None, HostOs::Windows).unwrap().0;
    assert_eq!(bare.root(), "C:\\Users\\u\\.cowt\\cowt");
    let given = State::open(Some("C:\\s\\".to_string()), None, None, HostOs::Windows).unwrap().0;
    assert_eq!(given.dir("abc"), "C:\\s\\abc");
}

#[test]
fn a_drive_is_no_part_of_a_name() {
    assert!(!valid_id_or_name(HostOs::Windows, "C:x"));
    assert!(valid_id_or_name(HostOs::Linux, "C:x"));
    assert!(valid_id_or_name(HostOs::Windows, "vscode"));
    assert!(valid_id_or_name(HostOs::Windows, &short_id(None, 0x0102, 1)));
}
