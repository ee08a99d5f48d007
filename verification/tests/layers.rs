use cowt::host::HostOs;
use cowt::layers::{
    clear_whiteout, copy_tmp_name, copy_up, delete_merged, find_folded, is_reserved_name,
    is_shadowed, merged_dir_entries, resolve, respelled, whiteout_path, CopyUp, LayerOp, Place,
};

fn names(v: &[&str]) -> Vec<String> {
    v.iter().map(|s| s.to_string()).collect()
}

#[test]
fn reserved_names() {
    assert!(is_reserved_name(".wh.x"));
    assert!(is_reserved_name(".cowt-copy-tmp.x"));
    assert!(!is_reserved_name(".whx"));
    assert!(!is_reserved_name("x.wh."));
}

#[test]
fn the_upper_layer_wins() {
    let rel = names(&["d", "f"]);
    let none = vec![vec![], vec![]];
    assert_eq!(resolve(&rel, true, true, &none), Place::Upper);
    assert_eq!(resolve(&rel, false, true, &none), Place::Lower);
    assert_eq!(resolve(&rel, false, false, &none), Place::Nowhere);
    assert_eq!(resolve(&vec![], false, false, &vec![]), Place::Root);
}

#[test]
fn markers_hide_names_without_regard_to_case() {
    let rel = names(&["Dir", "File.TXT"]);
    let own = vec![vec![], names(&[".wh.file.txt"])];
    assert!(is_shadowed(&rel, &own));
    assert_eq!(resolve(&rel, false, true, &own), Place::Nowhere);
    assert_eq!(resolve(&rel, true, true, &own), Place::Upper);
    let above = vec![names(&["x", ".wh.dir"]), vec![]];
    assert!(is_shadowed(&rel, &above));
    let other = vec![names(&[".wh.di"]), names(&["file.txt"])];
    assert!(!is_shadowed(&rel, &other));
    let unicode = vec![names(&[".wh.ÄPFEL"])];
    assert!(is_shadowed(&names(&["äpfel"]), &unicode));
}

#[test]
fn directories_are_merged() {
    let upper = names(&["b", ".wh.gone", "Case"]);
    let lower = names(&["z", "gone", "case", "a", "GONE"]);
    assert_eq!(merged_dir_entries(&upper, &lower, false), names(&["Case", "a", "b", "z"]));
    assert_eq!(merged_dir_entries(&upper, &lower, true), names(&["Case", "b"]));
    assert_eq!(merged_dir_entries(&vec![], &vec![], false), names(&[]));
}

#[test]
fn folded_lookup() {
    let entries = names(&["Alpha", "alpha", "Beta"]);
    assert_eq!(find_folded(&entries, "ALPHA"), Some(0));
    assert_eq!(find_folded(&entries, "beta"), Some(2));
    assert_eq!(find_folded(&entries, "gamma"), None);
    let found = respelled(&names(&["d", "BETA"]), &entries);
    assert_eq!(found, Some(names(&["d", "Beta"])));
    assert_eq!(respelled(&names(&["d", "gamma"]), &entries), None);
}

fn shown(ops: &[LayerOp]) -> Vec<String> {
    ops.iter()
        .map(|o| match o {
            LayerOp::RemoveTree(p) => format!("tree {}", p.join("/")),
            LayerOp::RemoveFile(p) => format!("file {}", p.join("/")),
            LayerOp::MakeDirs(p) => format!("dirs {}", p.join("/")),
            LayerOp::WriteMarker(p) => format!("mark {}", p.join("/")),
        })
        .collect()
}

#[test]
fn deletions_hide_what_lies_below() {
    let rel = names(&["d", "f"]);
    assert_eq!(
        shown(&delete_merged(&rel, Some(false), true)),
        names(&["file d/f", "dirs d", "mark d/.wh.f"])
    );
    assert_eq!(shown(&delete_merged(&rel, Some(true), false)), names(&["tree d/f"]));
    assert_eq!(shown(&delete_merged(&rel, None, true)), names(&["dirs d", "mark d/.wh.f"]));
    assert_eq!(shown(&delete_merged(&rel, None, false)), names(&[]));
    assert_eq!(whiteout_path(&names(&["f"])), names(&[".wh.f"]));
}

#[test]
fn recreating_clears_exact_markers_only() {
    let rel = names(&["d", "f"]);
    let listings =
        vec![names(&[".wh.d", ".wh.D"]), names(&[".wh.f", ".wh.F", "other", ".wh.f2"])];
    assert_eq!(
        shown(&clear_whiteout(&rel, &listings)),
        names(&["file d/.wh.f", "file .wh.d"])
    );
}

#[test]
fn torn_copies_are_not_trusted() {
    let mac = HostOs::MacOs;
    assert_eq!(copy_up(mac, Some(10), Some(10)), CopyUp::Trust);
    assert_eq!(copy_up(mac, Some(9), Some(10)), CopyUp::Copy);
    assert_eq!(copy_up(mac, None, Some(10)), CopyUp::Copy);
    assert_eq!(copy_up(mac, None, None), CopyUp::Copy);
    assert_eq!(copy_up(mac, Some(1), None), CopyUp::Fail);
    assert_eq!(copy_up(HostOs::Windows, Some(9), Some(10)), CopyUp::Trust);
    assert_eq!(copy_up(HostOs::Windows, Some(9), None), CopyUp::Trust);
    assert_eq!(copy_up(HostOs::Windows, None, Some(10)), CopyUp::CopyInPlace);
    assert_eq!(copy_tmp_name("f"), ".cowt-copy-tmp.f");
}
