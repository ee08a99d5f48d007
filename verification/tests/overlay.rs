use std::collections::BTreeMap;

use cowt::layers::{
    clear_whiteout, delete_merged, is_shadowed, merged_dir_entries, resolve, whiteout_path,
    LayerOp, Place,
};

type Layer = BTreeMap<Vec<String>, bool>;

/// Two layers in memory: what exists, and whether it is a directory.
struct Layers {
    upper: Layer,
    lower: Layer,
}

fn path(s: &str) -> Vec<String> {
    s.split('/').filter(|c| !c.is_empty()).map(|c| c.to_string()).collect()
}

/// A layer with these files, and the directories that they lie in.
fn layer(files: &[&str]) -> Layer {
    let mut all = Layer::new();
    for f in files {
        let p = path(f);
        for k in 0..p.len() {
            all.insert(p[..k].to_vec(), true);
        }
        all.insert(p, false);
    }
    all
}

fn listing(l: &Layer, dir: &[String]) -> Vec<String> {
    l.keys()
        .filter(|p| p.len() == dir.len() + 1 && p.starts_with(dir))
        .map(|p| p[dir.len()].clone())
        .collect()
}

impl Layers {
    fn listings(&self, rel: &[String]) -> Vec<Vec<String>> {
        (0..rel.len()).map(|k| listing(&self.upper, &rel[..k])).collect()
    }

    fn sees(&self, s: &str) -> Place {
        let rel = path(s);
        let (up, low) = (self.upper.contains_key(&rel), self.lower.contains_key(&rel));
        resolve(&rel, up, low, &self.listings(&rel))
    }

    fn list(&self, s: &str) -> Vec<String> {
        let rel = path(s);
        let hidden = is_shadowed(&rel, &self.listings(&rel));
        merged_dir_entries(&listing(&self.upper, &rel), &listing(&self.lower, &rel), hidden)
    }

    fn make_dirs(&mut self, p: &[String]) {
        for k in 0..p.len() + 1 {
            self.upper.entry(p[..k].to_vec()).or_insert(true);
        }
    }

    fn apply(&mut self, ops: Vec<LayerOp>) {
        for op in ops {
            match op {
                LayerOp::RemoveTree(p) => self.upper.retain(|q, _| !q.starts_with(&p)),
                LayerOp::RemoveFile(p) => {
                    self.upper.remove(&p);
                }
                LayerOp::MakeDirs(p) => self.make_dirs(&p),
                LayerOp::WriteMarker(p) => {
                    self.upper.insert(p, false);
                }
            }
        }
    }

    fn delete(&mut self, s: &str) {
        let rel = path(s);
        let upper = self.upper.get(&rel).copied();
        let ops = delete_merged(&rel, upper, self.lower.contains_key(&rel));
        self.apply(ops);
    }

    fn make(&mut self, s: &str, is_dir: bool) {
        let rel = path(s);
        let ops = clear_whiteout(&rel, &self.listings(&rel));
        self.apply(ops);
        self.make_dirs(&rel[..rel.len() - 1]);
        self.upper.insert(rel, is_dir);
    }

    fn copy(&mut self, s: &str) {
        let rel = path(s);
        self.make_dirs(&rel[..rel.len() - 1]);
        self.upper.insert(rel, false);
    }

    fn rename(&mut self, from: &str, to: &str) {
        let (f, t) = (path(from), path(to));
        self.make_dirs(&t[..t.len() - 1]);
        self.delete(to);
        if self.lower.contains_key(&f) {
            self.apply(vec![LayerOp::WriteMarker(whiteout_path(&f))]);
        }
        let inside: Vec<_> = self.upper.keys().filter(|q| q.starts_with(&f)).cloned().collect();
        for q in inside {
            let kind = self.upper.remove(&q).unwrap();
            let mut new = t.clone();
            new.extend_from_slice(&q[f.len()..]);
            self.upper.insert(new, kind);
        }
    }
}

fn host() -> Layers {
    Layers {
        upper: layer(&["d/new"]),
        lower: layer(&["d/a", "d/b", "d/sub/c", "top"]),
    }
}

#[test]
fn what_is_deleted_is_hidden_and_nothing_else() {
    let mut l = host();
    l.delete("d/a");
    assert_eq!(l.sees("d/a"), Place::Nowhere);
    assert_eq!(l.sees("d/b"), Place::Lower);
    assert_eq!(l.sees("d/new"), Place::Upper);
    assert_eq!(l.list("d"), vec!["b", "new", "sub"]);
    l.delete("d");
    for gone in ["d", "d/a", "d/b", "d/new", "d/sub", "d/sub/c"] {
        assert_eq!(l.sees(gone), Place::Nowhere, "{}", gone);
    }
    assert_eq!(l.sees("top"), Place::Lower);
    assert_eq!(l.list(""), vec!["top"]);
}

#[test]
fn what_is_made_again_shows_again() {
    let mut l = host();
    l.delete("d");
    l.make("d", true);
    assert_eq!(l.sees("d"), Place::Upper);
    assert_eq!(l.sees("d/sub/c"), Place::Lower);
    assert_eq!(l.sees("d/new"), Place::Nowhere);
    l.delete("d/a");
    l.make("d/a", false);
    assert_eq!(l.sees("d/a"), Place::Upper);
}

#[test]
fn copying_changes_no_view() {
    let mut l = host();
    let all = ["d", "d/a", "d/b", "d/sub", "d/sub/c", "d/new", "top", "none"];
    let before: Vec<bool> = all.iter().map(|p| l.sees(p) == Place::Nowhere).collect();
    l.copy("d/sub/c");
    let after: Vec<bool> = all.iter().map(|p| l.sees(p) == Place::Nowhere).collect();
    assert_eq!(before, after);
    assert_eq!(l.sees("d/sub/c"), Place::Upper);
}

#[test]
fn a_rename_moves_what_is_shown() {
    let mut l = host();
    l.copy("d/a");
    l.rename("d/a", "top");
    assert_eq!(l.sees("d/a"), Place::Nowhere);
    assert_eq!(l.sees("top"), Place::Upper);
    assert_eq!(l.list("d"), vec!["b", "new", "sub"]);
}

#[test]
fn the_host_is_untouched() {
    let mut l = host();
    l.copy("d/b");
    l.rename("d/b", "d/sub/c");
    l.delete("d/a");
    l.make("d/a", true);
    l.delete("d");
    assert_eq!(l.lower, host().lower);
}
