use cowt::completing::{materialize_lazy_upper, CopyKind, Found};

fn dir(entries: Vec<(&str, Found)>) -> Found {
    Found::Dir(list(entries))
}

fn list(entries: Vec<(&str, Found)>) -> Vec<(String, Found)> {
    entries.into_iter().map(|(n, f)| (n.to_string(), f)).collect()
}

fn steps(view: Vec<(&str, Found)>, upper: Vec<(&str, Found)>) -> Vec<(CopyKind, String)> {
    materialize_lazy_upper(&list(view), &list(upper))
        .iter()
        .map(|s| (s.kind, s.path.join("/")))
        .collect()
}

#[test]
fn a_renamed_directory_is_filled() {
    let view = vec![(
        "new",
        dir(vec![
            ("a", Found::File),
            ("sub", dir(vec![("b", Found::File), ("socket", Found::Other)])),
            ("kept", Found::File),
        ]),
    )];
    let upper = vec![("new", dir(vec![("kept", Found::File)]))];
    assert_eq!(
        steps(view, upper),
        vec![
            (CopyKind::CopyFile, "new/a".to_string()),
            (CopyKind::MakeDir, "new/sub".to_string()),
            (CopyKind::CopyFile, "new/sub/b".to_string()),
        ]
    );
}

#[test]
fn only_directories_of_the_layer_are_filled() {
    let view = vec![
        ("below", dir(vec![("x", Found::File)])),
        ("f", Found::File),
        ("d", dir(vec![("e", dir(vec![("g", Found::File)]))])),
    ];
    let upper = vec![("f", Found::File), ("d", dir(vec![("e", dir(vec![]))])), ("gone", dir(vec![]))];
    assert_eq!(steps(view, upper), vec![(CopyKind::CopyFile, "d/e/g".to_string())]);
}

#[test]
fn markers_and_what_is_there_are_left() {
    let view = vec![
        ("d", dir(vec![(".wh.x", Found::File), ("y", dir(vec![("z", Found::File)]))])),
        (".wh.d", dir(vec![("q", Found::File)])),
    ];
    let upper = vec![("d", dir(vec![("y", Found::File)])), (".wh.d", dir(vec![]))];
    assert!(steps(view, upper).is_empty());
}

#[test]
fn a_clash_ends_the_copy() {
    let view = vec![("d", dir(vec![("a", Found::File), ("e", Found::File)]))];
    let upper = vec![("d", dir(vec![("e", dir(vec![]))]))];
    assert_eq!(
        steps(view, upper),
        vec![(CopyKind::CopyFile, "d/a".to_string()), (CopyKind::Clash, "d/e".to_string())]
    );
    let top = steps(vec![("d", Found::Other)], vec![("d", dir(vec![]))]);
    assert_eq!(top, vec![(CopyKind::Clash, "d".to_string())]);
}
