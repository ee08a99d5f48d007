//! Completing the layer while the view is still mounted.
//!
//! The kernel moves a renamed directory into the layer without what is in it:
//! the view shows the rest through the layer below. Once the view is gone, the
//! layer alone says what a worktree changed, so whatever the view shows in a
//! directory of the layer is copied there first.

use vstd::prelude::*;
use crate::layers;
use crate::text;
use crate::text::{same, starts_with};

verus! {

/// What is found at a path.
#[derive(Debug)]
pub enum Found {
    File,
    /// Neither a file nor a directory.
    Other,
    /// A directory with these entries.
    Dir(Vec<(String, Found)>),
}

/// How an entry comes into the layer.
#[derive(Clone, Copy, Debug, PartialEq, Eq, Structural)]
pub enum CopyKind {
    MakeDir,
    CopyFile,
    /// It cannot: the layer has a directory where the view shows something
    /// else. Copying fails here.
    Clash,
}

/// One entry that comes into the layer.
#[derive(Debug)]
pub struct Step {
    pub kind: CopyKind,
    pub path: Vec<String>,
}

impl View for Step {
    type V = (CopyKind, Seq<Seq<char>>);

    open spec fn view(&self) -> (CopyKind, Seq<Seq<char>>) {
        (self.kind, text::texts(self.path@))
    }
}

/// The steps of a list.
pub open spec fn steps(v: Seq<Step>) -> Seq<(CopyKind, Seq<Seq<char>>)> {
    v.map_values(|s: Step| s@)
}

/// The name of a deletion marker.
pub open spec fn marker(name: Seq<char>) -> bool {
    ".wh."@.is_prefix_of(name)
}

/// What a listing has under a name.
pub open spec fn entry(d: Seq<(String, Found)>, name: Seq<char>) -> Option<Found>
    decreases d.len(),
{
    if d.len() == 0 {
        None
    } else {
        match entry(d.drop_last(), name) {
            Some(f) => Some(f),
            None => if d.last().0@ == name {
                Some(d.last().1)
            } else {
                None
            },
        }
    }
}

/// The listing of a directory; nothing where there is none.
pub open spec fn children(f: Option<Found>) -> Seq<(String, Found)> {
    match f {
        Some(Found::Dir(v)) => v@,
        _ => Seq::empty(),
    }
}

/// It is a directory.
pub open spec fn is_dir(f: Option<Found>) -> bool {
    f is Some && f->0 is Dir
}

/// What is found below, at this path.
pub open spec fn at(f: Option<Found>, path: Seq<Seq<char>>) -> Option<Found>
    decreases path.len(),
{
    if path.len() == 0 {
        f
    } else {
        at(entry(children(f), path[0]), path.skip(1))
    }
}

/// More than the number of entries of a directory.
pub open spec fn rank(t: Found) -> int {
    match t {
        Found::Dir(v) => v@.len() as int + 1,
        _ => 0,
    }
}

/// Where the layer has a directory, and the view does not show one.
pub open spec fn clash(rel: Seq<Seq<char>>, up: Option<Found>) -> Seq<
    (CopyKind, Seq<Seq<char>>),
> {
    if is_dir(up) {
        seq![(CopyKind::Clash, rel)]
    } else {
        Seq::empty()
    }
}

/// What is copied of what the view shows at a path, where the layer has `up`:
/// what the layer lacks, each directory before what is in it.
pub open spec fn copies(rel: Seq<Seq<char>>, t: Found, up: Option<Found>) -> Seq<
    (CopyKind, Seq<Seq<char>>),
>
    decreases t, rank(t),
{
    match t {
        Found::File => if up is None {
            seq![(CopyKind::CopyFile, rel)]
        } else {
            clash(rel, up)
        },
        Found::Other => clash(rel, up),
        Found::Dir(v) => match up {
            None => seq![(CopyKind::MakeDir, rel)] + copies_below(rel, t, up, v@.len() as int),
            Some(Found::Dir(_)) => copies_below(rel, t, up, v@.len() as int),
            _ => Seq::empty(),
        },
    }
}

/// What is copied of the first `n` entries of a directory.
pub open spec fn copies_below(
    rel: Seq<Seq<char>>,
    t: Found,
    up: Option<Found>,
    n: int,
) -> Seq<(CopyKind, Seq<Seq<char>>)>
    decreases t, n,
{
    match t {
        Found::Dir(v) => if n <= 0 || n > v@.len() {
            Seq::empty()
        } else {
            copies_below(rel, t, up, n - 1) + if marker(v@[n - 1].0@) {
                Seq::empty()
            } else {
                copies(rel.push(v@[n - 1].0@), v@[n - 1].1, entry(children(up), v@[n - 1].0@))
            }
        },
        _ => Seq::empty(),
    }
}

/// What is copied of what the view shows in the directories among the first `n`
/// entries of the layer.
pub open spec fn completion(
    view: Seq<(String, Found)>,
    upper: Seq<(String, Found)>,
    n: int,
) -> Seq<(CopyKind, Seq<Seq<char>>)>
    decreases n,
{
    if n <= 0 {
        Seq::empty()
    } else {
        completion(view, upper, n - 1) + completion_of(view, upper[n - 1])
    }
}

/// What is copied of what the view shows in one entry of the layer.
pub open spec fn completion_of(view: Seq<(String, Found)>, e: (String, Found)) -> Seq<
    (CopyKind, Seq<Seq<char>>),
> {
    match (e.1, entry(view, e.0@)) {
        (Found::Dir(_), Some(t)) => if marker(e.0@) {
            Seq::empty()
        } else {
            copies(seq![e.0@], t, Some(e.1))
        },
        _ => Seq::empty(),
    }
}

/// What is found, as a value.
pub open spec fn value(f: Option<&Found>) -> Option<Found> {
    match f {
        Some(t) => Some(*t),
        None => None,
    }
}

fn find_entry<'a>(d: &'a Vec<(String, Found)>, name: &str) -> (r: Option<&'a Found>)
    ensures
        value(r) == entry(d@, name@),
{
    let mut i: usize = 0;
    assert(d@.take(0) =~= Seq::empty());
    while i < d.len()
        invariant
            i <= d@.len(),
            entry(d@.take(i as int), name@) is None,
        decreases d@.len() - i,
    {
        assert(d@.take(i + 1).drop_last() =~= d@.take(i as int));
        if same(d[i].0.as_str(), name) {
            proof {
                lemma_entry_stays(d@, name@, i + 1);
            }
            return Some(&d[i].1);
        }
        i = i + 1;
    }
    assert(d@.take(i as int) =~= d@);
    None
}

/// A name that is found in the first entries is found so in all.
proof fn lemma_entry_stays(d: Seq<(String, Found)>, name: Seq<char>, n: int)
    requires
        0 <= n <= d.len(),
        entry(d.take(n), name) is Some,
    ensures
        entry(d, name) == entry(d.take(n), name),
    decreases d.len(),
{
    if n == d.len() {
        assert(d.take(n) =~= d);
    } else {
        assert(d.drop_last().take(n) =~= d.take(n));
        lemma_entry_stays(d.drop_last(), name, n);
    }
}

fn push_step(out: &mut Vec<Step>, kind: CopyKind, rel: &Vec<String>)
    ensures
        steps(final(out)@) == steps(old(out)@).push((kind, text::texts(rel@))),
{
    let ghost before = out@;
    let path = layers::copy_path(rel, rel.len());
    assert(text::texts(rel@).take(rel@.len() as int) =~= text::texts(rel@));
    out.push(Step { kind, path });
    assert(steps(out@) =~= steps(before).push((kind, text::texts(rel@))));
}

fn collect(rel: &Vec<String>, t: &Found, up: Option<&Found>, out: &mut Vec<Step>)
    ensures
        steps(final(out)@) == steps(old(out)@) + copies(text::texts(rel@), *t, value(up)),
    decreases *t,
{
    let ghost first = out@;
    match t {
        Found::File => {
            if up.is_none() {
                push_step(out, CopyKind::CopyFile, rel);
            } else if let Some(Found::Dir(_)) = up {
                push_step(out, CopyKind::Clash, rel);
            }
            assert(steps(out@) =~= steps(first) + copies(text::texts(rel@), *t, value(up)));
        },
        Found::Other => {
            if let Some(Found::Dir(_)) = up {
                push_step(out, CopyKind::Clash, rel);
            }
            assert(steps(out@) =~= steps(first) + copies(text::texts(rel@), *t, value(up)));
        },
        Found::Dir(v) => {
            let none: Vec<(String, Found)> = Vec::new();
            let u: &Vec<(String, Found)> = match up {
                None => {
                    push_step(out, CopyKind::MakeDir, rel);
                    &none
                },
                Some(Found::Dir(u)) => u,
                Some(_) => {
                    assert(steps(out@) =~= steps(first) + copies(text::texts(rel@), *t, value(up)));
                    return ;
                },
            };
            assert(u@ =~= children(value(up)));
            let ghost second = out@;
            let mut i: usize = 0;
            assert(steps(out@) =~= steps(second) + copies_below(
                text::texts(rel@),
                *t,
                value(up),
                0,
            ));
            while i < v.len()
                invariant
                    i <= v@.len(),
                    *t == Found::Dir(*v),
                    u@ == children(value(up)),
                    steps(out@) == steps(second) + copies_below(
                        text::texts(rel@),
                        *t,
                        value(up),
                        i as int,
                    ),
                decreases v@.len() - i,
            {
                let name = v[i].0.as_str();
                if !starts_with(name, ".wh.") {
                    let mut child = layers::copy_path(rel, rel.len());
                    let ghost c0 = child@;
                    child.push(v[i].0.clone());
                    assert(text::texts(rel@).take(rel@.len() as int) =~= text::texts(rel@));
                    assert(text::texts(child@) =~= text::texts(c0).push(v@[i as int].0@));
                    assert(decreases_to!(*t => v@[i as int].1));
                    collect(&child, &v[i].1, find_entry(u, name), out);
                }
                i = i + 1;
                assert(steps(out@) =~= steps(second) + copies_below(
                    text::texts(rel@),
                    *t,
                    value(up),
                    i as int,
                ));
            }
            assert(steps(out@) =~= steps(first) + copies(text::texts(rel@), *t, value(up)));
        },
    }
}

/// What is to be copied from the view into the layer, given what both hold:
/// everything that the view shows in a directory of the layer and that the
/// layer lacks. What is not in a directory of the layer stays where it is.
/// Where the layer has a directory and the view something else, copying ends.
pub fn materialize_lazy_upper(view: &Vec<(String, Found)>, upper: &Vec<(String, Found)>) -> (r: Vec<
    Step,
>)
    ensures
        steps(r@) == completion(view@, upper@, upper@.len() as int),
{
    let mut out: Vec<Step> = Vec::new();
    let mut i: usize = 0;
    assert(steps(out@) =~= completion(view@, upper@, 0));
    while i < upper.len()
        invariant
            i <= upper@.len(),
            steps(out@) == completion(view@, upper@, i as int),
        decreases upper@.len() - i,
    {
        let ghost before = out@;
        let name = upper[i].0.as_str();
        if let Found::Dir(_) = &upper[i].1 {
            if !starts_with(name, ".wh.") {
                if let Some(t) = find_entry(view, name) {
                    let mut rel: Vec<String> = Vec::new();
                    rel.push(upper[i].0.clone());
                    assert(text::texts(rel@) =~= seq![upper@[i as int].0@]);
                    collect(&rel, t, Some(&upper[i].1), &mut out);
                }
            }
        }
        i = i + 1;
        assert(steps(out@) =~= completion(view@, upper@, i as int));
    }
    out
}

// --------------------------------------------------------------------- laws

/// No name on the path is that of a deletion marker.
pub open spec fn no_marker(path: Seq<Seq<char>>) -> bool {
    forall|i: int| 0 <= i < path.len() ==> !marker(#[trigger] path[i])
}

/// Only directories lie on the way to this path, as far as anything does.
pub open spec fn passable(f: Option<Found>, path: Seq<Seq<char>>) -> bool
    decreases path.len(),
{
    path.len() == 0 || ((f is None || f->0 is Dir) && passable(
        entry(children(f), path[0]),
        path.skip(1),
    ))
}

/// How what is found at a path comes into the layer.
pub open spec fn kind_of(t: Found) -> CopyKind {
    if t is Dir {
        CopyKind::MakeDir
    } else {
        CopyKind::CopyFile
    }
}

/// Where a listing has a name.
proof fn lemma_entry_index(d: Seq<(String, Found)>, name: Seq<char>) -> (k: int)
    requires
        entry(d, name) is Some,
    ensures
        0 <= k < d.len(),
        d[k].0@ == name,
        entry(d, name) == Some(d[k].1),
    decreases d.len(),
{
    if entry(d.drop_last(), name) is Some {
        lemma_entry_index(d.drop_last(), name)
    } else {
        d.len() - 1
    }
}

/// What is copied of one entry of a directory is copied of the directory.
proof fn lemma_below_has(
    rel: Seq<Seq<char>>,
    t: Found,
    up: Option<Found>,
    k: int,
    n: int,
    s: (CopyKind, Seq<Seq<char>>),
)
    requires
        t is Dir,
        0 <= k < n <= t->Dir_0@.len(),
        !marker(t->Dir_0@[k].0@),
        copies(
            rel.push(t->Dir_0@[k].0@),
            t->Dir_0@[k].1,
            entry(children(up), t->Dir_0@[k].0@),
        ).contains(s),
    ensures
        copies_below(rel, t, up, n).contains(s),
    decreases n,
{
    let v = t->Dir_0@;
    let a = copies_below(rel, t, up, n - 1);
    let b = copies_below(rel, t, up, n);
    if k < n - 1 {
        lemma_below_has(rel, t, up, k, n - 1, s);
        let i = choose|i: int| 0 <= i < a.len() && a[i] == s;
        assert(b[i] == s);
    } else {
        let c = copies(rel.push(v[k].0@), v[k].1, entry(children(up), v[k].0@));
        let i = choose|i: int| 0 <= i < c.len() && c[i] == s;
        assert(b[a.len() + i] == s);
    }
}

proof fn lemma_complete(rel: Seq<Seq<char>>, t: Found, up: Option<Found>, path: Seq<Seq<char>>)
    requires
        no_marker(path),
        passable(up, path),
        at(Some(t), path) is Some,
        !(at(Some(t), path)->0 is Other),
        at(up, path) is None,
    ensures
        copies(rel, t, up).contains((kind_of(at(Some(t), path)->0), rel + path)),
    decreases path.len(),
{
    if path.len() == 0 {
        assert(rel + path =~= rel);
        assert(copies(rel, t, up)[0] == (kind_of(t), rel));
    } else {
        lemma_at_none(entry(children(Some(t)), path[0]), path.skip(1));
        let k = lemma_entry_index(children(Some(t)), path[0]);
        let v = t->Dir_0@;
        let s = (kind_of(at(Some(t), path)->0), rel + path);
        lemma_complete(rel.push(path[0]), v[k].1, entry(children(up), path[0]), path.skip(1));
        assert(rel.push(path[0]) + path.skip(1) =~= rel + path);
        lemma_below_has(rel, t, up, k, v.len() as int, s);
        let b = copies_below(rel, t, up, v.len() as int);
        let i = choose|i: int| 0 <= i < b.len() && b[i] == s;
        if up is None {
            assert(copies(rel, t, up)[i + 1] == s);
        } else {
            assert(copies(rel, t, up)[i] == s);
        }
    }
}

/// Nothing is found below nothing.
proof fn lemma_at_none(f: Option<Found>, path: Seq<Seq<char>>)
    ensures
        f is None ==> at(f, path) is None,
    decreases path.len(),
{
    if path.len() > 0 {
        lemma_at_none(entry(children(f), path[0]), path.skip(1));
    }
}

/// Whatever file or directory the view shows below a directory of the layer is
/// then in the layer: it was there, or it is copied, as what it is. (Left out
/// are deletion markers, and what the layer has no room for, because it has
/// something else than a directory on the way.)
pub proof fn law_layer_shows_the_view(
    view: Seq<(String, Found)>,
    upper: Seq<(String, Found)>,
    path: Seq<Seq<char>>,
)
    requires
        path.len() > 0,
        no_marker(path),
        is_dir(entry(upper, path[0])),
        passable(entry(upper, path[0]), path.skip(1)),
        at(entry(view, path[0]), path.skip(1)) is Some,
        !(at(entry(view, path[0]), path.skip(1))->0 is Other),
    ensures
        at(entry(upper, path[0]), path.skip(1)) is Some || completion(
            view,
            upper,
            upper.len() as int,
        ).contains((kind_of(at(entry(view, path[0]), path.skip(1))->0), path)),
{
    let rest = path.skip(1);
    if at(entry(upper, path[0]), rest) is None {
        lemma_at_none(entry(view, path[0]), rest);
        let k = lemma_entry_index(upper, path[0]);
        let t = entry(view, path[0])->0;
        lemma_complete(seq![path[0]], t, Some(upper[k].1), rest);
        assert(seq![path[0]] + rest =~= path);
        lemma_completion_has(
            view,
            upper,
            k,
            upper.len() as int,
            (kind_of(at(entry(view, path[0]), rest)->0), path),
        );
    }
}

proof fn lemma_completion_has(
    view: Seq<(String, Found)>,
    upper: Seq<(String, Found)>,
    k: int,
    n: int,
    s: (CopyKind, Seq<Seq<char>>),
)
    requires
        0 <= k < n <= upper.len(),
        completion_of(view, upper[k]).contains(s),
    ensures
        completion(view, upper, n).contains(s),
    decreases n,
{
    let a = completion(view, upper, n - 1);
    let b = completion(view, upper, n);
    if k < n - 1 {
        lemma_completion_has(view, upper, k, n - 1, s);
        let i = choose|i: int| 0 <= i < a.len() && a[i] == s;
        assert(b[i] == s);
    } else {
        let c = completion_of(view, upper[k]);
        let i = choose|i: int| 0 <= i < c.len() && c[i] == s;
        assert(b[a.len() + i] == s);
    }
}

/// `x` is found in `t` at this path.
pub open spec fn holds(t: Found, path: Seq<Seq<char>>, x: Found) -> bool
    decreases path.len(),
{
    if path.len() == 0 {
        t == x
    } else {
        t is Dir && exists|k: int|
            0 <= k < t->Dir_0@.len() && (#[trigger] t->Dir_0@[k]).0@ == path[0] && holds(
                t->Dir_0@[k].1,
                path.skip(1),
                x,
            )
    }
}

/// Nothing is copied but what the view shows, as what it is: a directory is made
/// for a directory, a file is copied for a file, and copying ends only at what is no
/// directory. The first name on its path is that of a directory of the layer, and no
/// name on it is that of a deletion marker.
pub proof fn law_steps_are_of_the_view(
    view: Seq<(String, Found)>,
    upper: Seq<(String, Found)>,
    n: int,
    i: int,
)
    requires
        0 <= n <= upper.len(),
        0 <= i < completion(view, upper, n).len(),
    ensures
        ({
            let (kind, p) = completion(view, upper, n)[i];
            &&& p.len() > 0
            &&& exists|k: int| 0 <= k < upper.len() && (#[trigger] upper[k]).0@ == p[0] && upper[k].1 is Dir
            &&& forall|j: int| 0 <= j < p.len() ==> !".wh."@.is_prefix_of(#[trigger] p[j])
            &&& entry(view, p[0]) is Some
            &&& exists|x: Found| #[trigger]
                holds(entry(view, p[0])->0, p.skip(1), x) && match kind {
                    CopyKind::MakeDir => x is Dir,
                    CopyKind::CopyFile => x is File,
                    CopyKind::Clash => !(x is Dir),
                }
        }),
    decreases n,
{
    if n > 0 {
        let all = completion(view, upper, n);
        let a = completion(view, upper, n - 1);
        if i < a.len() {
            law_steps_are_of_the_view(view, upper, n - 1, i);
            assert(all[i] == a[i]);
        } else {
            let e = upper[n - 1];
            let rel = seq![e.0@];
            let t = entry(view, e.0@)->0;
            let c = copies(rel, t, Some(e.1));
            assert(all[i] == c[i - a.len()]);
            lemma_step_of(rel, t, Some(e.1), i - a.len());
            let p = all[i].1;
            assert(p.subrange(0, 1) =~= rel);
            assert(p[0] == rel[0]);
            assert(upper[n - 1].0@ == p[0]);
            assert forall|j: int| 0 <= j < p.len() implies !".wh."@.is_prefix_of(
                #[trigger] p[j],
            ) by {
                if j > 0 {
                    assert(p.skip(1)[j - 1] == p[j]);
                    assert(!marker(p.skip(1)[j - 1]));
                }
            }
        }
    }
}

/// The step belongs to what `t` holds below the directory `rel`.
spec fn step_of(rel: Seq<Seq<char>>, t: Found, s: (CopyKind, Seq<Seq<char>>)) -> bool {
    &&& rel.is_prefix_of(s.1)
    &&& no_marker(s.1.skip(rel.len() as int))
    &&& exists|x: Found| #[trigger]
        holds(t, s.1.skip(rel.len() as int), x) && match s.0 {
            CopyKind::MakeDir => x is Dir,
            CopyKind::CopyFile => x is File,
            CopyKind::Clash => !(x is Dir),
        }
}

proof fn lemma_step_of(rel: Seq<Seq<char>>, t: Found, up: Option<Found>, i: int)
    requires
        0 <= i < copies(rel, t, up).len(),
    ensures
        step_of(rel, t, copies(rel, t, up)[i]),
    decreases t, rank(t),
{
    let s = copies(rel, t, up)[i];
    if s.1 == rel {
        assert(rel.subrange(0, rel.len() as int) =~= rel);
        assert(rel.skip(rel.len() as int) =~= Seq::<Seq<char>>::empty());
    }
    match t {
        Found::Dir(v) => {
            let b = copies_below(rel, t, up, v@.len() as int);
            if up is None {
                if i == 0 {
                    assert(s == (CopyKind::MakeDir, rel));
                    assert(holds(t, rel.skip(rel.len() as int), t));
                } else {
                    assert(s == b[i - 1]);
                    lemma_step_of_below(rel, t, up, v@.len() as int, i - 1);
                }
            } else {
                assert(s == b[i]);
                lemma_step_of_below(rel, t, up, v@.len() as int, i);
            }
        },
        _ => {
            assert(s.1 == rel);
            assert(holds(t, rel.skip(rel.len() as int), t));
        },
    }
}

proof fn lemma_step_of_below(rel: Seq<Seq<char>>, t: Found, up: Option<Found>, n: int, i: int)
    requires
        0 <= i < copies_below(rel, t, up, n).len(),
    ensures
        step_of(rel, t, copies_below(rel, t, up, n)[i]),
    decreases t, n,
{
    if let Found::Dir(v) = t {
        if 0 < n <= v@.len() {
            let a = copies_below(rel, t, up, n - 1);
            let b = copies_below(rel, t, up, n);
            if i < a.len() {
                lemma_step_of_below(rel, t, up, n - 1, i);
                assert(b[i] == a[i]);
            } else {
                let name = v@[n - 1].0@;
                let child = rel.push(name);
                let c = copies(child, v@[n - 1].1, entry(children(up), name));
                lemma_step_of(child, v@[n - 1].1, entry(children(up), name), i - a.len());
                let s = c[i - a.len()];
                assert(b[i] == s);
                let p = s.1;
                assert(child =~= p.subrange(0, child.len() as int));
                assert(rel =~= p.subrange(0, rel.len() as int));
                assert(p[rel.len() as int] == child[rel.len() as int]);
                let below = p.skip(rel.len() as int);
                assert(below.skip(1) =~= p.skip(child.len() as int));
                assert(below[0] == name);
                assert forall|j: int| 0 <= j < below.len() implies !marker(#[trigger] below[j]) by {
                    if j > 0 {
                        assert(below.skip(1)[j - 1] == below[j]);
                        assert(!marker(p.skip(child.len() as int)[j - 1]));
                    }
                }
                let x = choose|x: Found| #[trigger]
                    holds(v@[n - 1].1, p.skip(child.len() as int), x) && match s.0 {
                        CopyKind::MakeDir => x is Dir,
                        CopyKind::CopyFile => x is File,
                        CopyKind::Clash => !(x is Dir),
                    };
                assert(t->Dir_0@[n - 1].0@ == below[0]);
                assert(holds(t, below, x));
            }
        }
    }
}

/// Where the layer has a directory and the view shows something else, copying ends.
pub proof fn law_clash_is_told(
    view: Seq<(String, Found)>,
    upper: Seq<(String, Found)>,
    path: Seq<Seq<char>>,
)
    requires
        path.len() > 0,
        no_marker(path),
        is_dir(entry(upper, path[0])),
        is_dir(at(entry(upper, path[0]), path.skip(1))),
        at(entry(view, path[0]), path.skip(1)) is Some,
        !is_dir(at(entry(view, path[0]), path.skip(1))),
    ensures
        completion(view, upper, upper.len() as int).contains((CopyKind::Clash, path)),
{
    let rest = path.skip(1);
    lemma_at_none(entry(view, path[0]), rest);
    let k = lemma_entry_index(upper, path[0]);
    let t = entry(view, path[0])->0;
    lemma_clash(seq![path[0]], t, Some(upper[k].1), rest);
    assert(seq![path[0]] + rest =~= path);
    lemma_completion_has(view, upper, k, upper.len() as int, (CopyKind::Clash, path));
}

proof fn lemma_clash(rel: Seq<Seq<char>>, t: Found, up: Option<Found>, path: Seq<Seq<char>>)
    requires
        no_marker(path),
        is_dir(at(up, path)),
        at(Some(t), path) is Some,
        !is_dir(at(Some(t), path)),
    ensures
        copies(rel, t, up).contains((CopyKind::Clash, rel + path)),
    decreases path.len(),
{
    let s = (CopyKind::Clash, rel + path);
    if path.len() == 0 {
        assert(rel + path =~= rel);
        assert(copies(rel, t, up)[0] == s);
    } else {
        lemma_at_none(entry(children(Some(t)), path[0]), path.skip(1));
        lemma_at_none(entry(children(up), path[0]), path.skip(1));
        let k = lemma_entry_index(children(Some(t)), path[0]);
        let v = t->Dir_0@;
        lemma_clash(rel.push(path[0]), v[k].1, entry(children(up), path[0]), path.skip(1));
        assert(rel.push(path[0]) + path.skip(1) =~= rel + path);
        assert(!marker(path[0]));
        lemma_below_has(rel, t, up, k, v.len() as int, s);
        let b = copies_below(rel, t, up, v.len() as int);
        let i = choose|i: int| 0 <= i < b.len() && b[i] == s;
        assert(copies(rel, t, up)[i] == s);
    }
}

/// No two entries have the same name.
pub open spec fn distinct(d: Seq<(String, Found)>) -> bool {
    forall|i: int, j: int| 0 <= i < j < d.len() ==> (#[trigger] d[i]).0@ != (#[trigger] d[j]).0@
}

/// What a step does, seen from the directory `rel`, where the layer has `up`
/// and the steps are `all`: it meets a directory of the layer, or it fills a place that is empty, and the directory
/// that it fills is there, or was made by an earlier step.
spec fn fits(
    rel: Seq<Seq<char>>,
    up: Option<Found>,
    all: Seq<(CopyKind, Seq<Seq<char>>)>,
    i: int,
) -> bool {
    let p = all[i].1;
    &&& rel.is_prefix_of(p)
    &&& all[i].0 is Clash ==> is_dir(at(up, p.skip(rel.len() as int)))
    &&& !(all[i].0 is Clash) ==> at(up, p.skip(rel.len() as int)) is None
    &&& !(all[i].0 is Clash) && p.len() > rel.len() ==> {
        let q = p.drop_last();
        ||| is_dir(at(up, q.skip(rel.len() as int)))
        ||| exists|j: int| 0 <= j < i && #[trigger] all[j] == (CopyKind::MakeDir, q)
    }
}

proof fn lemma_fits(rel: Seq<Seq<char>>, t: Found, up: Option<Found>, i: int)
    requires
        0 <= i < copies(rel, t, up).len(),
    ensures
        fits(rel, up, copies(rel, t, up), i),
    decreases t, rank(t),
{
    let all = copies(rel, t, up);
    match t {
        Found::Dir(v) => {
            let b = copies_below(rel, t, up, v@.len() as int);
            if up is None {
                assert(all[0] == (CopyKind::MakeDir, rel));
                if i == 0 {
                    assert(rel.is_prefix_of(rel)) by {
                        assert(rel.subrange(0, rel.len() as int) =~= rel);
                    }
                    assert(rel.skip(rel.len() as int) =~= Seq::empty());
                } else {
                    lemma_fits_below(rel, t, up, v@.len() as int, i - 1);
                    assert(all[i] == b[i - 1]);
                    let p = all[i].1;
                    let q = p.drop_last();
                    if exists|j: int| 0 <= j < i - 1 && #[trigger] b[j] == (CopyKind::MakeDir, q) {
                        let j = choose|j: int|
                            0 <= j < i - 1 && #[trigger] b[j] == (CopyKind::MakeDir, q);
                        assert(all[j + 1] == (CopyKind::MakeDir, q));
                    }
                    if q == rel {
                        assert(all[0] == (CopyKind::MakeDir, q));
                    } else if at(up, q.skip(rel.len() as int)) is Some {
                        lemma_at_none(up, q.skip(rel.len() as int));
                    }
                }
            } else {
                lemma_fits_below(rel, t, up, v@.len() as int, i);
                assert(all[i] == b[i]);
                if all[i].1.drop_last() == rel {
                    assert(rel.skip(rel.len() as int) =~= Seq::empty());
                }
            }
        },
        _ => {
            assert(rel.subrange(0, rel.len() as int) =~= rel);
            assert(rel.skip(rel.len() as int) =~= Seq::empty());
        },
    }
}

/// The same of the steps below a directory, which is there, or has been made.
proof fn lemma_fits_below(rel: Seq<Seq<char>>, t: Found, up: Option<Found>, n: int, i: int)
    requires
        0 <= i < copies_below(rel, t, up, n).len(),
    ensures
        ({
            let b = copies_below(rel, t, up, n);
            let p = b[i].1;
            let q = p.drop_last();
            &&& rel.is_prefix_of(p)
            &&& p.len() > rel.len()
            &&& b[i].0 is Clash ==> is_dir(at(up, p.skip(rel.len() as int)))
            &&& !(b[i].0 is Clash) ==> at(up, p.skip(rel.len() as int)) is None
            &&& b[i].0 is Clash || q == rel || is_dir(at(up, q.skip(rel.len() as int)))
                || exists|j: int| 0 <= j < i && #[trigger] b[j] == (CopyKind::MakeDir, q)
        }),
    decreases t, n,
{
    if let Found::Dir(v) = t {
        if 0 < n <= v@.len() {
            let a = copies_below(rel, t, up, n - 1);
            let b = copies_below(rel, t, up, n);
            if i < a.len() {
                lemma_fits_below(rel, t, up, n - 1, i);
                assert(b[i] == a[i]);
                let q = a[i].1.drop_last();
                if exists|j: int| 0 <= j < i && #[trigger] a[j] == (CopyKind::MakeDir, q) {
                    let j = choose|j: int| 0 <= j < i && #[trigger] a[j] == (CopyKind::MakeDir, q);
                    assert(b[j] == (CopyKind::MakeDir, q));
                }
            } else {
                let name = v@[n - 1].0@;
                let child = rel.push(name);
                let e = entry(children(up), name);
                let c = copies(child, v@[n - 1].1, e);
                let m = i - a.len();
                lemma_fits(child, v@[n - 1].1, e, m);
                assert(b[i] == c[m]);
                let p = c[m].1;
                let q = p.drop_last();
                assert(child =~= p.subrange(0, child.len() as int));
                assert(rel =~= p.subrange(0, rel.len() as int));
                assert(p[rel.len() as int] == child[rel.len() as int]);
                assert(p.skip(rel.len() as int).skip(1) =~= p.skip(child.len() as int));
                assert(p.skip(rel.len() as int)[0] == name);
                if p.len() == child.len() {
                    assert(q =~= rel);
                } else {
                    assert(q.skip(rel.len() as int).skip(1) =~= q.skip(child.len() as int));
                    assert(q.skip(rel.len() as int)[0] == name);
                    if exists|j: int| 0 <= j < m && #[trigger] c[j] == (CopyKind::MakeDir, q) {
                        let j = choose|j: int|
                            0 <= j < m && #[trigger] c[j] == (CopyKind::MakeDir, q);
                        assert(b[a.len() + j] == (CopyKind::MakeDir, q));
                    }
                }
            }
        }
    }
}

/// Nothing that the layer has is replaced, and each step can be done when its
/// turn comes: the place that it fills is empty in the layer, and the directory
/// around that place is in the layer, or was made by an earlier step. Where
/// copying ends, the layer has a directory.
pub proof fn law_steps_fit(view: Seq<(String, Found)>, upper: Seq<(String, Found)>, n: int, i: int)
    requires
        distinct(upper),
        0 <= n <= upper.len(),
        0 <= i < completion(view, upper, n).len(),
    ensures
        ({
            let all = completion(view, upper, n);
            let p = all[i].1;
            let q = p.drop_last();
            &&& p.len() > 0
            &&& all[i].0 is Clash ==> is_dir(at(entry(upper, p[0]), p.skip(1)))
            &&& !(all[i].0 is Clash) ==> p.len() > 1 && at(entry(upper, p[0]), p.skip(1)) is None
            &&& all[i].0 is Clash || is_dir(at(entry(upper, q[0]), q.skip(1))) || exists|j: int|
                0 <= j < i && #[trigger] all[j] == (CopyKind::MakeDir, q)
        }),
    decreases n,
{
    if n > 0 {
        let all = completion(view, upper, n);
        let a = completion(view, upper, n - 1);
        if i < a.len() {
            law_steps_fit(view, upper, n - 1, i);
            assert(all[i] == a[i]);
            let q = a[i].1.drop_last();
            if exists|j: int| 0 <= j < i && #[trigger] a[j] == (CopyKind::MakeDir, q) {
                let j = choose|j: int| 0 <= j < i && #[trigger] a[j] == (CopyKind::MakeDir, q);
                assert(all[j] == (CopyKind::MakeDir, q));
            }
        } else {
            let e = upper[n - 1];
            let rel = seq![e.0@];
            let t = entry(view, e.0@)->0;
            let c = copies(rel, t, Some(e.1));
            let m = i - a.len();
            lemma_fits(rel, t, Some(e.1), m);
            assert(all[i] == c[m]);
            let p = c[m].1;
            let q = p.drop_last();
            assert(rel =~= p.subrange(0, 1));
            assert(p[0] == rel[0]);
            lemma_entry_distinct(upper, n - 1);
            if p.len() == 1 {
                assert(p.skip(1) =~= Seq::empty());
            }
            if !(c[m].0 is Clash) {
                assert(q[0] == rel[0]);
            }
            if exists|j: int| 0 <= j < m && #[trigger] c[j] == (CopyKind::MakeDir, q) {
                let j = choose|j: int| 0 <= j < m && #[trigger] c[j] == (CopyKind::MakeDir, q);
                assert(all[a.len() + j] == (CopyKind::MakeDir, q));
            }
        }
    }
}

/// Where names differ, each entry is found under its name.
proof fn lemma_entry_distinct(d: Seq<(String, Found)>, k: int)
    requires
        distinct(d),
        0 <= k < d.len(),
    ensures
        entry(d, d[k].0@) == Some(d[k].1),
{
    lemma_entry_there(d, k);
    let j = lemma_entry_index(d, d[k].0@);
    assert(j == k);
}

proof fn lemma_entry_there(d: Seq<(String, Found)>, k: int)
    requires
        0 <= k < d.len(),
    ensures
        entry(d, d[k].0@) is Some,
    decreases d.len(),
{
    if k < d.len() - 1 {
        lemma_entry_there(d.drop_last(), k);
    }
}

} // verus!
