use cowt::host::HostOs;
use cowt::path::{
    components, file_name, is_single_component, is_within, join_path, names, parent, same_path,
    Component, PrefixKind,
};

const UNIX: HostOs = HostOs::Linux;
const WIN: HostOs = HostOs::Windows;

fn shown(os: HostOs, p: &str) -> Vec<String> {
    components(os, p)
        .into_iter()
        .map(|c| match c {
            Component::Prefix(k, t) => format!("{k:?} {t}"),
            Component::Root => "/".to_string(),
            Component::Current => ".".to_string(),
            Component::Parent => "..".to_string(),
            Component::Name(n) => n,
        })
        .collect()
}

#[test]
fn paths_are_components() {
    assert_eq!(shown(UNIX, "/a//b/./c/"), vec!["/", "a", "b", "c"]);
    assert_eq!(shown(UNIX, "./a"), vec![".", "a"]);
    assert_eq!(shown(UNIX, "C:\\a"), vec!["C:\\a"]);
    assert_eq!(names(UNIX, "/a/../b/."), vec!["a", "b"]);
    assert_eq!(join_path(UNIX, "/a", "b"), "/a/b");
    assert_eq!(join_path(UNIX, "", "b"), "b");
    assert_eq!(join_path(UNIX, "/a", "/b"), "/b");
    assert_eq!(parent(UNIX, "/a/b"), Some("/a".to_string()));
    assert_eq!(parent(UNIX, "a"), Some(String::new()));
    assert_eq!(parent(UNIX, "/"), None);
    assert_eq!(file_name(UNIX, "/a/b/"), Some("b".to_string()));
    assert_eq!(file_name(UNIX, ".."), None);
    assert!(is_within(UNIX, "/a/b", "/a") && is_within(UNIX, "/a", "/a"));
    assert!(!is_within(UNIX, "/ab", "/a"));
    assert!(same_path(UNIX, "/a/b/", "/a//b") && !same_path(UNIX, "a", "/a"));
    assert!(is_single_component(UNIX, "x") && !is_single_component(UNIX, "x/y"));
}

/// Paths that are read as the standard library reads them where `/` parts the
/// components.
#[test]
fn paths_are_those_of_the_host() {
    if std::path::MAIN_SEPARATOR != '/' {
        return;
    }
    let pieces = ["", "/", ".", "..", "a", "b.c", "//", "/.", "./", "\\", "C:", "a/"];
    let mut paths: Vec<String> = Vec::new();
    for x in pieces {
        for y in pieces {
            for z in pieces {
                paths.push(format!("{x}{y}{z}"));
                paths.push(format!("{x}/{y}/{z}"));
            }
        }
    }
    for p in &paths {
        let path = std::path::Path::new(p);
        let theirs: Vec<String> =
            path.components().map(|c| c.as_os_str().to_string_lossy().into_owned()).collect();
        assert_eq!(shown(UNIX, p), theirs, "{p:?}");
        let up = path.parent().map(|q| q.to_string_lossy().into_owned());
        assert_eq!(parent(UNIX, p), up, "{p:?}");
        let name = path.file_name().map(|q| q.to_string_lossy().into_owned());
        assert_eq!(file_name(UNIX, p), name, "{p:?}");
    }
    for p in paths.iter().step_by(7) {
        for q in paths.iter().step_by(11) {
            let (x, y) = (std::path::Path::new(p), std::path::Path::new(q));
            assert_eq!(join_path(UNIX, p, q), x.join(y).to_string_lossy(), "{p:?} {q:?}");
            assert_eq!(is_within(UNIX, p, q), x.starts_with(y), "{p:?} {q:?}");
            assert_eq!(same_path(UNIX, p, q), x == y, "{p:?} {q:?}");
        }
    }
}

#[test]
fn windows_paths_have_prefixes() {
    assert_eq!(shown(WIN, "C:\\a\\b"), vec!["Drive C:", "/", "a", "b"]);
    assert_eq!(shown(WIN, "c:/a/./b/"), vec!["Drive C:", "/", "a", "b"]);
    assert_eq!(shown(WIN, "C:a"), vec!["Drive C:", "a"]);
    assert_eq!(shown(WIN, "C:.\\a"), vec!["Drive C:", "a"]);
    assert_eq!(shown(WIN, "\\a/b"), vec!["/", "a", "b"]);
    assert_eq!(shown(WIN, ".\\a"), vec![".", "a"]);
    assert_eq!(shown(WIN, "..\\a"), vec!["..", "a"]);
    assert_eq!(shown(WIN, "1:\\a"), vec!["1:", "a"]);
    assert_eq!(
        shown(WIN, "\\\\server\\share\\x"),
        vec!["Share \\\\server\\share", "/", "x"]
    );
    assert_eq!(shown(WIN, "//server/share"), vec!["Share \\\\server\\share", "/"]);
    assert_eq!(shown(WIN, "\\\\server"), vec!["/", "server"]);
    assert_eq!(shown(WIN, "\\\\.\\COM1"), vec!["Device \\\\.\\COM1", "/"]);
    assert_eq!(shown(WIN, "\\\\?\\c:\\a"), vec!["Verbatim \\\\?\\C:", "/", "a"]);
    assert_eq!(
        shown(WIN, "\\\\?\\C:\\a/b\\."),
        vec!["Verbatim \\\\?\\C:", "/", "a/b", "."]
    );
    assert_eq!(
        shown(WIN, "\\\\?\\UNC\\server\\share\\x"),
        vec!["Verbatim \\\\?\\UNC\\server\\share", "/", "x"]
    );
    assert_eq!(shown(WIN, "\\\\?\\pictures\\x"), vec!["Verbatim \\\\?\\pictures", "/", "x"]);
    let Component::Prefix(k, _) = &components(WIN, "C:\\")[0] else { panic!("a drive") };
    assert_eq!(*k, PrefixKind::Drive);
    assert_eq!(names(WIN, "C:\\a\\..\\b/c"), vec!["a", "b", "c"]);
}

#[test]
fn windows_paths_are_joined() {
    let j = |a: &str, b: &str| join_path(WIN, a, b);
    assert_eq!(j("C:\\s", "id"), "C:\\s\\id");
    assert_eq!(j("C:\\s\\", "id"), "C:\\s\\id");
    assert_eq!(j("C:/s/", "id"), "C:/s/id");
    assert_eq!(j("C:", "id"), "C:id");
    assert_eq!(j("", "id"), "id");
    assert_eq!(j("C:\\s", "D:\\t"), "D:\\t");
    assert_eq!(j("C:\\s", "D:t"), "D:t");
    assert_eq!(j("C:\\s", "\\t"), "C:\\t");
    assert_eq!(j("\\\\server\\share", "id"), "\\\\server\\share\\id");
    assert_eq!(j("\\\\?\\C:\\s", "id"), "\\\\?\\C:\\s\\id");
    assert_eq!(j("\\\\?\\C:\\s\\", "a/../b/./c"), "\\\\?\\C:\\s\\b\\c");
    assert_eq!(j("\\\\?\\C:\\s\\t", "\\x"), "\\\\?\\C:\\x");
    assert_eq!(j("\\\\?\\C:\\s\\\\t", "x"), "\\\\?\\C:\\s\\t\\x");
    assert_eq!(j("\\\\?\\pictures", "x"), "\\\\?\\pictures\\x");
}

#[test]
fn windows_paths_have_parents() {
    let up = |p: &str| parent(WIN, p);
    assert_eq!(up("C:\\st\\id\\upper").as_deref(), Some("C:\\st\\id"));
    assert_eq!(up("C:/st/id/").as_deref(), Some("C:/st"));
    assert_eq!(up("C:\\st").as_deref(), Some("C:\\"));
    assert_eq!(up("C:st").as_deref(), Some("C:"));
    assert_eq!(up("C:\\"), None);
    assert_eq!(up("C:"), None);
    assert_eq!(up("\\\\server\\share\\x").as_deref(), Some("\\\\server\\share\\"));
    assert_eq!(up("\\\\server\\share"), None);
    assert_eq!(file_name(WIN, "C:\\st\\id\\view").as_deref(), Some("view"));
    assert_eq!(file_name(WIN, "C:\\"), None);
}

#[test]
fn windows_paths_lie_in_others() {
    assert!(is_within(WIN, "C:\\s\\x", "C:\\s"));
    assert!(is_within(WIN, "c:/s/x", "C:\\s"));
    assert!(!is_within(WIN, "D:\\s\\x", "C:\\s"));
    assert!(!is_within(WIN, "C:\\sx", "C:\\s"));
    assert!(!is_within(WIN, "C:\\S\\x", "C:\\s"));
    assert!(!is_within(WIN, "C:s\\x", "C:\\s"));
    assert!(!is_within(WIN, "\\\\?\\C:\\s\\x", "C:\\s"));
    assert!(same_path(WIN, "c:/s//x/", "C:\\s\\x"));
    assert!(!same_path(UNIX, "c:/s", "C:/s"));
}

#[test]
fn a_drive_before_a_name_is_no_component() {
    assert!(!is_single_component(WIN, "C:x"));
    assert!(is_single_component(UNIX, "C:x"));
    assert!(is_single_component(WIN, "Cx"));
    assert!(is_single_component(WIN, "1:x"));
    assert!(!is_single_component(WIN, "a\\b") && !is_single_component(WIN, "a/b"));
}
