//! The two layers of a merged view: the host directory below, which is only
//! read, and the layer above, which takes every write.
//!
//! A name in the upper layer wins over the same name below. An entry
//! `.wh.<name>` in the upper layer is a deletion marker: it hides `<name>`, and
//! everything under it, in the lower layer. Names are matched to markers
//! without regard to case, as the host's own lookup does.

use vstd::prelude::*;
use crate::host::HostOs;
use crate::order;
use crate::text;
use crate::text::{same, starts_with, strip_prefix, to_lower};

verus! {

/// What a deletion marker's name starts with.
pub open spec fn marker_prefix() -> Seq<char> {
    ".wh."@
}

/// What the name of an unfinished copy starts with.
pub open spec fn copy_prefix() -> Seq<char> {
    ".cowt-copy-tmp."@
}

/// The deletion marker of a name.
pub open spec fn marker(name: Seq<char>) -> Seq<char> {
    marker_prefix() + name
}

/// A name that the layer keeps for itself. A user's file of such a name would
/// be taken for a deletion, or never be seen again.
pub open spec fn reserved(name: Seq<char>) -> bool {
    marker_prefix().is_prefix_of(name) || copy_prefix().is_prefix_of(name)
}

/// A name that the layer keeps for itself.
pub fn is_reserved_name(name: &str) -> (r: bool)
    ensures
        r == reserved(name@),
        r <==> ".wh."@.is_prefix_of(name@) || ".cowt-copy-tmp."@.is_prefix_of(name@),
{
    starts_with(name, ".wh.") || starts_with(name, ".cowt-copy-tmp.")
}

/// `entry` is a deletion marker that hides `name`.
pub open spec fn hidden_by(entry: Seq<char>, name: Seq<char>) -> bool {
    text::after_prefix(entry, marker_prefix()) matches Some(v) && text::lowercase(v)
        == text::lowercase(name)
}

/// One of these entries hides `name`.
pub open spec fn hides(entries: Seq<Seq<char>>, name: Seq<char>) -> bool {
    exists|i: int| 0 <= i < entries.len() && hidden_by(#[trigger] entries[i], name)
}

/// The entries of the upper layer's directories on the way to a path: those of
/// the root, of its first component, and so on, down to its parent.
pub open spec fn listings_view(v: Seq<Vec<String>>) -> Seq<Seq<Seq<char>>> {
    v.map_values(|l: Vec<String>| text::texts(l@))
}

/// A path is hidden: a marker hides it or something that it lies under.
pub open spec fn shadowed(rel: Seq<Seq<char>>, listings: Seq<Seq<Seq<char>>>) -> bool {
    exists|k: int| 0 <= k < rel.len() && hides(#[trigger] listings[k], rel[k])
}

/// Where the merged view finds a path.
#[derive(Clone, Copy, Debug, PartialEq, Eq, Structural)]
pub enum Place {
    /// It is the view itself, which shows the host directory.
    Root,
    Upper,
    Lower,
    Nowhere,
}

/// Where the merged view finds a path, from what the layers hold of it.
pub open spec fn place(
    rel: Seq<Seq<char>>,
    in_upper: bool,
    in_lower: bool,
    listings: Seq<Seq<Seq<char>>>,
) -> Place {
    if rel.len() == 0 {
        Place::Root
    } else if in_upper {
        Place::Upper
    } else if in_lower && !shadowed(rel, listings) {
        Place::Lower
    } else {
        Place::Nowhere
    }
}

/// A deletion marker is `.wh.` and a name. It hides that name, and the same name
/// but for case; nothing else hides anything. A path is hidden if and only if it, or
/// something it lies under, is hidden by an entry of the directory that this lies
/// in.
pub proof fn law_markers(
    rel: Seq<Seq<char>>,
    listings: Seq<Seq<Seq<char>>>,
    victim: Seq<char>,
    name: Seq<char>,
    other: Seq<char>,
)
    ensures
        marker(name) == ".wh."@ + name,
        hidden_by(".wh."@ + victim, name) <==> text::lowercase(victim) == text::lowercase(name),
        hidden_by(".wh."@ + name, name),
        !".wh."@.is_prefix_of(other) ==> !hidden_by(other, name),
        shadowed(rel, listings) <==> exists|k: int, i: int|
            #![trigger listings[k][i]]
            0 <= k < rel.len() && 0 <= i < listings[k].len() && hidden_by(listings[k][i], rel[k]),
{
    lemma_marker_entry(".wh."@ + victim, victim);
    lemma_marker_entry(".wh."@ + name, name);
    if shadowed(rel, listings) {
        let k = choose|k: int| 0 <= k < rel.len() && hides(#[trigger] listings[k], rel[k]);
        let i = choose|i: int|
            0 <= i < listings[k].len() && hidden_by(#[trigger] listings[k][i], rel[k]);
        assert(hidden_by(listings[k][i], rel[k]));
    }
    if exists|k: int, i: int|
        #![trigger listings[k][i]]
        0 <= k < rel.len() && 0 <= i < listings[k].len() && hidden_by(listings[k][i], rel[k]) {
        let (k, i) = choose|k: int, i: int|
            #![trigger listings[k][i]]
            0 <= k < rel.len() && 0 <= i < listings[k].len() && hidden_by(listings[k][i], rel[k]);
        assert(hides(listings[k], rel[k]));
    }
}

/// What the upper layer has is found there, whatever the lower one has; what only
/// the lower one has is found there unless it is hidden; and the view itself is
/// always there.
pub proof fn law_place(
    rel: Seq<Seq<char>>,
    in_upper: bool,
    in_lower: bool,
    listings: Seq<Seq<Seq<char>>>,
)
    ensures
        place(rel, in_upper, in_lower, listings) is Root <==> rel.len() == 0,
        place(rel, in_upper, in_lower, listings) is Upper <==> rel.len() > 0 && in_upper,
        place(rel, in_upper, in_lower, listings) is Lower <==> rel.len() > 0 && !in_upper && in_lower
            && !shadowed(rel, listings),
{
}

fn entry_hides(entry: &str, folded: &str, Ghost(name): Ghost<Seq<char>>) -> (r: bool)
    requires
        folded@ == text::lowercase(name),
    ensures
        r == hidden_by(entry@, name),
{
    match strip_prefix(entry, ".wh.") {
        Some(victim) => {
            let v = to_lower(victim.as_str());
            same(v.as_str(), folded)
        },
        None => false,
    }
}

/// One of these entries hides `name`.
pub fn any_hides(entries: &Vec<String>, name: &str) -> (r: bool)
    ensures
        r == hides(text::texts(entries@), name@),
{
    let folded = to_lower(name);
    let mut i: usize = 0;
    while i < entries.len()
        invariant
            i <= entries@.len(),
            folded@ == text::lowercase(name@),
            forall|j: int|
                0 <= j < i ==> !hidden_by(#[trigger] text::texts(entries@)[j], name@),
        decreases entries@.len() - i,
    {
        assert(text::texts(entries@)[i as int] == entries@[i as int]@);
        if entry_hides(entries[i].as_str(), folded.as_str(), Ghost(name@)) {
            return true;
        }
        i = i + 1;
    }
    false
}

/// A path is hidden: a marker hides it or something that it lies under.
pub fn is_shadowed(rel: &Vec<String>, listings: &Vec<Vec<String>>) -> (r: bool)
    requires
        rel@.len() == listings@.len(),
    ensures
        r == shadowed(text::texts(rel@), listings_view(listings@)),
{
    let ghost ls = listings_view(listings@);
    let ghost names = text::texts(rel@);
    let mut k: usize = 0;
    while k < rel.len()
        invariant
            k <= rel@.len() == listings@.len(),
            ls == listings_view(listings@),
            names == text::texts(rel@),
            forall|j: int| 0 <= j < k ==> !hides(#[trigger] ls[j], names[j]),
        decreases rel@.len() - k,
    {
        assert(ls[k as int] == text::texts(listings@[k as int]@));
        assert(names[k as int] == rel@[k as int]@);
        if any_hides(&listings[k], rel[k].as_str()) {
            return true;
        }
        k = k + 1;
    }
    false
}

/// Where the merged view finds a path. The view itself is served from the host
/// directory; above it, the upper layer wins.
pub fn resolve(rel: &Vec<String>, in_upper: bool, in_lower: bool, listings: &Vec<Vec<String>>) -> (r:
    Place)
    requires
        rel@.len() == listings@.len(),
    ensures
        r == place(text::texts(rel@), in_upper, in_lower, listings_view(listings@)),
{
    if rel.len() == 0 {
        return Place::Root;
    }
    if in_upper {
        return Place::Upper;
    }
    if is_shadowed(rel, listings) {
        return Place::Nowhere;
    }
    if in_lower {
        Place::Lower
    } else {
        Place::Nowhere
    }
}

// ------------------------------------------------------------------ listing

/// The entries of an upper directory that are not deletion markers.
pub open spec fn shown_upper(upper: Seq<Seq<char>>) -> Seq<Seq<char>>
    decreases upper.len(),
{
    if upper.len() == 0 {
        Seq::empty()
    } else if marker_prefix().is_prefix_of(upper.last()) {
        shown_upper(upper.drop_last())
    } else {
        shown_upper(upper.drop_last()).push(upper.last())
    }
}

/// One of these names is `name` but for case.
pub open spec fn folded_in(names: Seq<Seq<char>>, name: Seq<char>) -> bool {
    exists|i: int|
        0 <= i < names.len() && text::lowercase(#[trigger] names[i]) == text::lowercase(name)
}

/// The entries of a merged directory in the order they are found: those of the
/// upper layer that are no markers, then those of the lower layer that neither
/// another entry nor a marker takes the place of. `dir_hidden` says that the
/// directory itself is hidden in the lower layer.
pub open spec fn merged(
    upper: Seq<Seq<char>>,
    lower: Seq<Seq<char>>,
    dir_hidden: bool,
) -> Seq<Seq<char>>
    decreases lower.len(),
{
    if lower.len() == 0 {
        shown_upper(upper)
    } else {
        let rest = merged(upper, lower.drop_last(), dir_hidden);
        if folded_in(rest, lower.last()) || dir_hidden || hides(upper, lower.last()) {
            rest
        } else {
            rest.push(lower.last())
        }
    }
}

fn has_folded(names: &Vec<String>, name: &str) -> (r: bool)
    ensures
        r == folded_in(text::texts(names@), name@),
{
    let folded = to_lower(name);
    let mut i: usize = 0;
    while i < names.len()
        invariant
            i <= names@.len(),
            folded@ == text::lowercase(name@),
            forall|j: int|
                0 <= j < i ==> text::lowercase(#[trigger] text::texts(names@)[j])
                    != text::lowercase(name@),
        decreases names@.len() - i,
    {
        assert(text::texts(names@)[i as int] == names@[i as int]@);
        let f = to_lower(names[i].as_str());
        if same(f.as_str(), folded.as_str()) {
            return true;
        }
        i = i + 1;
    }
    false
}

/// The entries of a merged directory, sorted.
pub fn merged_dir_entries(upper: &Vec<String>, lower: &Vec<String>, dir_hidden: bool) -> (r: Vec<
    String,
>)
    ensures
        order::in_order(text::texts(r@)),
        text::texts(r@).to_multiset() == merged(
            text::texts(upper@),
            text::texts(lower@),
            dir_hidden,
        ).to_multiset(),
{
    let ghost us = text::texts(upper@);
    let ghost los = text::texts(lower@);
    let mut names: Vec<String> = Vec::new();
    let mut i: usize = 0;
    assert(text::texts(names@) =~= shown_upper(us.take(0)));
    while i < upper.len()
        invariant
            i <= upper@.len(),
            us == text::texts(upper@),
            text::texts(names@) == shown_upper(us.take(i as int)),
        decreases upper@.len() - i,
    {
        let ghost n0 = names@;
        proof {
            assert(us.take(i + 1).drop_last() =~= us.take(i as int));
            assert(us.take(i + 1).last() == upper@[i as int]@);
        }
        if !starts_with(upper[i].as_str(), ".wh.") {
            names.push(upper[i].clone());
            assert(text::texts(names@) =~= text::texts(n0).push(upper@[i as int]@));
        }
        i = i + 1;
    }
    assert(us.take(us.len() as int) =~= us);
    let mut k: usize = 0;
    assert(los.take(0) =~= Seq::empty());
    while k < lower.len()
        invariant
            k <= lower@.len(),
            us == text::texts(upper@),
            los == text::texts(lower@),
            text::texts(names@) == merged(us, los.take(k as int), dir_hidden),
        decreases lower@.len() - k,
    {
        let ghost n0 = names@;
        proof {
            assert(los.take(k + 1).drop_last() =~= los.take(k as int));
            assert(los.take(k + 1).last() == lower@[k as int]@);
        }
        let name = lower[k].as_str();
        if !has_folded(&names, name) && !dir_hidden && !any_hides(upper, name) {
            names.push(lower[k].clone());
            assert(text::texts(names@) =~= text::texts(n0).push(lower@[k as int]@));
        }
        k = k + 1;
    }
    assert(los.take(los.len() as int) =~= los);
    order::sort_texts(names)
}

proof fn lemma_shown_upper(upper: Seq<Seq<char>>, n: Seq<char>)
    ensures
        shown_upper(upper).contains(n) <==> upper.contains(n) && !marker_prefix().is_prefix_of(n),
    decreases upper.len(),
{
    if upper.len() > 0 {
        let init = upper.drop_last();
        lemma_shown_upper(init, n);
        assert(upper =~= init.push(upper.last()));
        if upper.contains(n) {
            let i = choose|i: int| 0 <= i < upper.len() && upper[i] == n;
            if i < init.len() {
                assert(init[i] == n);
            }
        }
        if init.contains(n) {
            let i = choose|i: int| 0 <= i < init.len() && init[i] == n;
            assert(upper[i] == n);
        }
        let s = shown_upper(init);
        if !marker_prefix().is_prefix_of(upper.last()) {
            let p = s.push(upper.last());
            if s.contains(n) {
                let i = choose|i: int| 0 <= i < s.len() && s[i] == n;
                assert(p[i] == n);
            }
            if p.contains(n) {
                let i = choose|i: int| 0 <= i < p.len() && p[i] == n;
                if i < s.len() {
                    assert(s[i] == n);
                } else {
                    assert(upper[upper.len() - 1] == n);
                }
            }
            assert(p[s.len() as int] == upper.last());
        }
    }
}

/// Every name that the upper layer shows is listed. A name of the lower layer
/// is listed unless a listed name equals it but for case, or the directory or
/// the name is hidden. Nothing else is listed, and no deletion marker of the
/// upper layer ever is.
pub proof fn law_listing(
    upper: Seq<Seq<char>>,
    lower: Seq<Seq<char>>,
    dir_hidden: bool,
    n: Seq<char>,
)
    ensures
        upper.contains(n) && !marker_prefix().is_prefix_of(n) ==> merged(
            upper,
            lower,
            dir_hidden,
        ).contains(n),
        merged(upper, lower, dir_hidden).contains(n) ==> (upper.contains(n)
            && !marker_prefix().is_prefix_of(n)) || (lower.contains(n) && !dir_hidden && !hides(
            upper,
            n,
        )),
        lower.contains(n) && !dir_hidden && !hides(upper, n) ==> folded_in(
            merged(upper, lower, dir_hidden),
            n,
        ),
    decreases lower.len(),
{
    lemma_shown_upper(upper, n);
    let all = merged(upper, lower, dir_hidden);
    if lower.len() == 0 {
    } else {
        let init = lower.drop_last();
        let rest = merged(upper, init, dir_hidden);
        law_listing(upper, init, dir_hidden, n);
        assert(lower =~= init.push(lower.last()));
        if init.contains(n) {
            let i = choose|i: int| 0 <= i < init.len() && init[i] == n;
            assert(lower[i] == n);
        }
        assert(lower[lower.len() - 1] == lower.last());
        if rest.contains(n) {
            let i = choose|i: int| 0 <= i < rest.len() && rest[i] == n;
            assert(all[i] == n);
        }
        if all.contains(n) {
            let i = choose|i: int| 0 <= i < all.len() && all[i] == n;
            if i < rest.len() {
                assert(rest[i] == n);
            }
        }
        if lower.contains(n) && !dir_hidden && !hides(upper, n) {
            let i = choose|i: int| 0 <= i < lower.len() && lower[i] == n;
            if i < init.len() {
                assert(init[i] == n);
                let j = choose|j: int|
                    0 <= j < rest.len() && text::lowercase(#[trigger] rest[j]) == text::lowercase(n);
                assert(text::lowercase(all[j]) == text::lowercase(n));
            } else if folded_in(rest, n) {
                let j = choose|j: int|
                    0 <= j < rest.len() && text::lowercase(#[trigger] rest[j]) == text::lowercase(n);
                assert(text::lowercase(all[j]) == text::lowercase(n));
            } else {
                assert(all[all.len() - 1] == n);
                assert(text::lowercase(all[all.len() - 1]) == text::lowercase(n));
            }
        }
    }
}

/// Where no two names of the upper layer are the same but for case, no two names of
/// the merged directory are.
pub proof fn law_listing_has_no_twins(
    upper: Seq<Seq<char>>,
    lower: Seq<Seq<char>>,
    dir_hidden: bool,
    i: int,
    j: int,
)
    requires
        0 <= i < j < merged(upper, lower, dir_hidden).len(),
        forall|a: int, b: int|
            0 <= a < b < upper.len() ==> text::lowercase(#[trigger] upper[a]) != text::lowercase(
                #[trigger] upper[b],
            ),
    ensures
        text::lowercase(merged(upper, lower, dir_hidden)[i]) != text::lowercase(
            merged(upper, lower, dir_hidden)[j],
        ),
    decreases lower.len(),
{
    if lower.len() == 0 {
        lemma_shown_twins(upper, i, j);
    } else {
        let rest = merged(upper, lower.drop_last(), dir_hidden);
        if j < rest.len() {
            law_listing_has_no_twins(upper, lower.drop_last(), dir_hidden, i, j);
        } else {
            assert(merged(upper, lower, dir_hidden)[i] == rest[i]);
            assert(!folded_in(rest, lower.last()));
        }
    }
}

proof fn lemma_shown_twins(upper: Seq<Seq<char>>, i: int, j: int)
    requires
        0 <= i < j < shown_upper(upper).len(),
        forall|a: int, b: int|
            0 <= a < b < upper.len() ==> text::lowercase(#[trigger] upper[a]) != text::lowercase(
                #[trigger] upper[b],
            ),
    ensures
        text::lowercase(shown_upper(upper)[i]) != text::lowercase(shown_upper(upper)[j]),
    decreases upper.len(),
{
    let init = upper.drop_last();
    let rest = shown_upper(init);
    assert forall|a: int, b: int| 0 <= a < b < init.len() implies text::lowercase(
        #[trigger] init[a],
    ) != text::lowercase(#[trigger] init[b]) by {
        assert(upper[a] == init[a] && upper[b] == init[b]);
    }
    if j < rest.len() {
        lemma_shown_twins(init, i, j);
    } else {
        let n = rest[i];
        assert(rest.contains(n));
        lemma_shown_upper(init, n);
        let a = choose|a: int| 0 <= a < init.len() && init[a] == n;
        assert(upper[a] == n);
        assert(upper[upper.len() - 1] == upper.last());
    }
}

/// Entry `i` is the first that is `name` but for case.
pub open spec fn first_folded(entries: Seq<Seq<char>>, name: Seq<char>, i: int) -> bool {
    &&& 0 <= i < entries.len()
    &&& text::lowercase(entries[i]) == text::lowercase(name)
    &&& forall|j: int|
        0 <= j < i ==> text::lowercase(#[trigger] entries[j]) != text::lowercase(name)
}

/// The first entry of a merged directory that is `name` but for case: what the
/// lookup of a system without regard to case falls back to.
pub fn find_folded(entries: &Vec<String>, name: &str) -> (r: Option<usize>)
    ensures
        match r {
            Some(i) => first_folded(text::texts(entries@), name@, i as int),
            None => !folded_in(text::texts(entries@), name@),
        },
{
    let folded = to_lower(name);
    let mut i: usize = 0;
    while i < entries.len()
        invariant
            i <= entries@.len(),
            folded@ == text::lowercase(name@),
            forall|j: int|
                0 <= j < i ==> text::lowercase(#[trigger] text::texts(entries@)[j])
                    != text::lowercase(name@),
        decreases entries@.len() - i,
    {
        assert(text::texts(entries@)[i as int] == entries@[i as int]@);
        let f = to_lower(entries[i].as_str());
        if same(f.as_str(), folded.as_str()) {
            return Some(i);
        }
        i = i + 1;
    }
    None
}

// ------------------------------------------------------------------- writes

/// A change to the upper layer. There is none to the lower one. Paths are
/// components below the layer's root.
#[derive(Debug)]
pub enum LayerOp {
    /// Remove a directory with everything in it.
    RemoveTree(Vec<String>),
    /// Remove an entry that is no directory.
    RemoveFile(Vec<String>),
    /// Make a directory and those that it lies in, where they are missing.
    MakeDirs(Vec<String>),
    /// Write an empty file.
    WriteMarker(Vec<String>),
}

/// A change to the upper layer.
pub enum Change {
    RemoveTree(Seq<Seq<char>>),
    RemoveFile(Seq<Seq<char>>),
    MakeDirs(Seq<Seq<char>>),
    WriteMarker(Seq<Seq<char>>),
}

impl View for LayerOp {
    type V = Change;

    open spec fn view(&self) -> Change {
        match self {
            LayerOp::RemoveTree(p) => Change::RemoveTree(text::texts(p@)),
            LayerOp::RemoveFile(p) => Change::RemoveFile(text::texts(p@)),
            LayerOp::MakeDirs(p) => Change::MakeDirs(text::texts(p@)),
            LayerOp::WriteMarker(p) => Change::WriteMarker(text::texts(p@)),
        }
    }
}

/// The changes of a list.
pub open spec fn changes(v: Seq<LayerOp>) -> Seq<Change> {
    v.map_values(|o: LayerOp| o@)
}

/// The path of the deletion marker of `rel`.
pub open spec fn marker_path(rel: Seq<Seq<char>>) -> Seq<Seq<char>> {
    rel.drop_last().push(marker(rel.last()))
}

/// What deleting a path does: what the upper layer has of it goes, and a marker
/// hides what the lower layer has. `upper` says whether the upper layer has the
/// path, and whether it is a directory there.
pub open spec fn deletion(rel: Seq<Seq<char>>, upper: Option<bool>, in_lower: bool) -> Seq<Change> {
    let first = match upper {
        Some(is_dir) => if is_dir {
            seq![Change::RemoveTree(rel)]
        } else {
            seq![Change::RemoveFile(rel)]
        },
        None => Seq::empty(),
    };
    if in_lower {
        first.push(Change::MakeDirs(rel.drop_last())).push(Change::WriteMarker(marker_path(rel)))
    } else {
        first
    }
}

/// A copy of a path.
pub fn copy_path(p: &Vec<String>, n: usize) -> (r: Vec<String>)
    requires
        n <= p@.len(),
    ensures
        text::texts(r@) == text::texts(p@).take(n as int),
{
    let mut out: Vec<String> = Vec::new();
    let mut i: usize = 0;
    assert(text::texts(out@) =~= text::texts(p@).take(0));
    while i < n
        invariant
            i <= n <= p@.len(),
            text::texts(out@) == text::texts(p@).take(i as int),
        decreases n - i,
    {
        let ghost o = out@;
        out.push(p[i].clone());
        assert(text::texts(out@) =~= text::texts(o).push(p@[i as int]@));
        assert(text::texts(out@) =~= text::texts(p@).take(i + 1));
        i = i + 1;
    }
    out
}

/// The path of the deletion marker of `rel`.
pub fn whiteout_path(rel: &Vec<String>) -> (r: Vec<String>)
    requires
        rel@.len() > 0,
    ensures
        text::texts(r@) == marker_path(text::texts(rel@)),
        text::texts(r@) == text::texts(rel@).drop_last().push(".wh."@ + text::texts(rel@).last()),
{
    let n: usize = rel.len();
    let mut p = copy_path(rel, n - 1);
    let name = text::cat2(".wh.", rel[n - 1].as_str());
    let ghost p0 = p@;
    p.push(name);
    assert(text::texts(p@) =~= text::texts(p0).push(marker(rel@[n - 1]@)));
    assert(text::texts(rel@).drop_last() =~= text::texts(rel@).take(n - 1));
    p
}

/// A path as its directory spells it: the last component is the first of the
/// directory's entries that equals it but for case, if one does.
pub fn respelled(rel: &Vec<String>, entries: &Vec<String>) -> (r: Option<Vec<String>>)
    requires
        rel@.len() > 0,
    ensures
        match r {
            Some(p) => exists|i: int|
                #[trigger] first_folded(text::texts(entries@), rel@.last()@, i) && text::texts(p@)
                    == text::texts(rel@).drop_last().push(text::texts(entries@)[i]),
            None => !folded_in(text::texts(entries@), rel@.last()@),
        },
{
    let n: usize = rel.len();
    match find_folded(entries, rel[n - 1].as_str()) {
        Some(i) => {
            let mut p = copy_path(rel, n - 1);
            let ghost p0 = p@;
            p.push(entries[i].clone());
            assert(text::texts(p@) =~= text::texts(p0).push(text::texts(entries@)[i as int]));
            assert(text::texts(rel@).drop_last() =~= text::texts(rel@).take(n - 1));
            assert(first_folded(text::texts(entries@), rel@.last()@, i as int));
            Some(p)
        },
        None => None,
    }
}

/// Deletes a path from the merged view. The view itself cannot be deleted.
pub fn delete_merged(rel: &Vec<String>, upper: Option<bool>, in_lower: bool) -> (r: Vec<LayerOp>)
    requires
        rel@.len() > 0,
    ensures
        changes(r@) == deletion(text::texts(rel@), upper, in_lower),
{
    let n: usize = rel.len();
    let mut ops: Vec<LayerOp> = Vec::new();
    let ghost p = text::texts(rel@);
    assert(p.take(n as int) =~= p);
    if let Some(is_dir) = upper {
        if is_dir {
            ops.push(LayerOp::RemoveTree(copy_path(rel, n)));
        } else {
            ops.push(LayerOp::RemoveFile(copy_path(rel, n)));
        }
    }
    let ghost first = deletion(p, upper, false);
    assert(changes(ops@) =~= first);
    if in_lower {
        let ghost o0 = ops@;
        ops.push(LayerOp::MakeDirs(copy_path(rel, n - 1)));
        assert(p.drop_last() =~= p.take(n - 1));
        assert(changes(ops@) =~= changes(o0).push(Change::MakeDirs(p.drop_last())));
        let ghost o1 = ops@;
        ops.push(LayerOp::WriteMarker(whiteout_path(rel)));
        assert(changes(ops@) =~= changes(o1).push(Change::WriteMarker(marker_path(p))));
    }
    ops
}

/// What deleting a path does, case by case.
pub proof fn law_deletion(rel: Seq<Seq<char>>)
    requires
        rel.len() > 0,
    ensures
        deletion(rel, None, false) == Seq::<Change>::empty(),
        deletion(rel, Some(true), false) == seq![Change::RemoveTree(rel)],
        deletion(rel, Some(false), false) == seq![Change::RemoveFile(rel)],
        forall|upper: Option<bool>| #[trigger]
            deletion(rel, upper, true) == deletion(rel, upper, false) + seq![
                Change::MakeDirs(rel.drop_last()),
                Change::WriteMarker(rel.drop_last().push(".wh."@ + rel.last())),
            ],
{
    assert forall|upper: Option<bool>| #[trigger]
        deletion(rel, upper, true) == deletion(rel, upper, false) + seq![
            Change::MakeDirs(rel.drop_last()),
            Change::WriteMarker(rel.drop_last().push(".wh."@ + rel.last())),
        ] by {
        assert(deletion(rel, upper, true) =~= deletion(rel, upper, false) + seq![
            Change::MakeDirs(rel.drop_last()),
            Change::WriteMarker(rel.drop_last().push(".wh."@ + rel.last())),
        ]);
    }
}

/// The markers of exactly this name among these entries, each as the path
/// `dir/entry`.
pub open spec fn exact_markers(
    dir: Seq<Seq<char>>,
    entries: Seq<Seq<char>>,
    name: Seq<char>,
) -> Seq<Change>
    decreases entries.len(),
{
    if entries.len() == 0 {
        Seq::empty()
    } else {
        let rest = exact_markers(dir, entries.drop_last(), name);
        if entries.last() == marker(name) {
            rest.push(Change::RemoveFile(dir.push(entries.last())))
        } else {
            rest
        }
    }
}

/// What recreating a path does to the markers: those of exactly its name and of
/// exactly the names that it lies under go, from the path upwards. A marker of
/// the same name but for case stays.
pub open spec fn unhiding(
    rel: Seq<Seq<char>>,
    listings: Seq<Seq<Seq<char>>>,
    n: int,
) -> Seq<Change>
    decreases n,
{
    if n <= 0 || n > rel.len() {
        Seq::empty()
    } else {
        exact_markers(rel.take(n - 1), listings[n - 1], rel[n - 1]) + unhiding(rel, listings, n - 1)
    }
}

proof fn lemma_marker_entry(entry: Seq<char>, name: Seq<char>)
    ensures
        text::after_prefix(entry, marker_prefix()) == Some(name) <==> entry == marker(name),
{
    if entry == marker(name) {
        assert(entry.skip(marker_prefix().len() as int) =~= name);
    }
    if let Some(v) = text::after_prefix(entry, marker_prefix()) {
        assert(entry =~= marker_prefix() + v);
    }
}

/// Making a path again removes the markers of exactly the path's names that are
/// there, and nothing else.
pub proof fn law_unhiding(
    rel: Seq<Seq<char>>,
    listings: Seq<Seq<Seq<char>>>,
    n: int,
    c: Change,
)
    requires
        0 <= n <= rel.len(),
    ensures
        unhiding(rel, listings, n).contains(c) <==> exists|k: int|
            0 <= k < n && (#[trigger] listings[k]).contains(".wh."@ + rel[k]) && c
                == Change::RemoveFile(rel.take(k).push(".wh."@ + rel[k])),
    decreases n,
{
    if n > 0 {
        law_unhiding(rel, listings, n - 1, c);
        let a = exact_markers(rel.take(n - 1), listings[n - 1], rel[n - 1]);
        let b = unhiding(rel, listings, n - 1);
        let all = unhiding(rel, listings, n);
        lemma_exact_markers(rel.take(n - 1), listings[n - 1], rel[n - 1], c);
        if all.contains(c) {
            let i = choose|i: int| 0 <= i < all.len() && all[i] == c;
            if i < a.len() {
                assert(a[i] == c);
                assert(listings[n - 1].contains(".wh."@ + rel[n - 1]));
            } else {
                assert(b[i - a.len()] == c);
                assert(b.contains(c));
            }
        }
        if a.contains(c) {
            let i = choose|i: int| 0 <= i < a.len() && a[i] == c;
            assert(all[i] == c);
        }
        if b.contains(c) {
            let i = choose|i: int| 0 <= i < b.len() && b[i] == c;
            assert(all[a.len() + i] == c);
        }
    }
}

proof fn lemma_exact_markers(
    dir: Seq<Seq<char>>,
    entries: Seq<Seq<char>>,
    name: Seq<char>,
    c: Change,
)
    ensures
        exact_markers(dir, entries, name).contains(c) <==> entries.contains(marker(name)) && c
            == Change::RemoveFile(dir.push(marker(name))),
    decreases entries.len(),
{
    if entries.len() > 0 {
        let init = entries.drop_last();
        lemma_exact_markers(dir, init, name, c);
        let rest = exact_markers(dir, init, name);
        let all = exact_markers(dir, entries, name);
        if all.contains(c) {
            let i = choose|i: int| 0 <= i < all.len() && all[i] == c;
            if i < rest.len() {
                assert(rest[i] == c);
                assert(rest.contains(c));
                let k = choose|k: int| 0 <= k < init.len() && init[k] == marker(name);
                assert(entries[k] == marker(name));
            } else {
                assert(entries[entries.len() - 1] == marker(name));
            }
        }
        if entries.contains(marker(name)) && c == Change::RemoveFile(dir.push(marker(name))) {
            let k = choose|k: int| 0 <= k < entries.len() && entries[k] == marker(name);
            if k < init.len() {
                assert(init[k] == marker(name));
                assert(rest.contains(c));
                let i = choose|i: int| 0 <= i < rest.len() && rest[i] == c;
                assert(all[i] == c);
            } else {
                assert(all[all.len() - 1] == c);
            }
        }
    }
}

/// Removes the deletion markers for a path that is made again.
pub fn clear_whiteout(rel: &Vec<String>, listings: &Vec<Vec<String>>) -> (r: Vec<LayerOp>)
    requires
        rel@.len() == listings@.len(),
    ensures
        changes(r@) == unhiding(text::texts(rel@), listings_view(listings@), rel@.len() as int),
{
    let ghost p = text::texts(rel@);
    let ghost ls = listings_view(listings@);
    let mut ops: Vec<LayerOp> = Vec::new();
    let mut n: usize = rel.len();
    assert(changes(ops@) + unhiding(p, ls, n as int) =~= unhiding(p, ls, n as int));
    while n > 0
        invariant
            n <= rel@.len() == listings@.len(),
            p == text::texts(rel@),
            ls == listings_view(listings@),
            changes(ops@) + unhiding(p, ls, n as int) == unhiding(p, ls, rel@.len() as int),
        decreases n,
    {
        let k: usize = n - 1;
        let ghost before = changes(ops@);
        let ghost es = ls[k as int];
        let ghost dir = p.take(k as int);
        assert(es == text::texts(listings@[k as int]@));
        let entries = &listings[k];
        let mut i: usize = 0;
        assert(changes(ops@) =~= before + exact_markers(dir, es.take(0), p[k as int]));
        while i < entries.len()
            invariant
                i <= entries@.len(),
                k < rel@.len(),
                p == text::texts(rel@),
                dir == p.take(k as int),
                es == text::texts(entries@),
                changes(ops@) == before + exact_markers(dir, es.take(i as int), p[k as int]),
            decreases entries@.len() - i,
        {
            let ghost o = ops@;
            proof {
                assert(es.take(i + 1).drop_last() =~= es.take(i as int));
                assert(es.take(i + 1).last() == entries@[i as int]@);
                assert(p[k as int] == rel@[k as int]@);
                lemma_marker_entry(entries@[i as int]@, p[k as int]);
            }
            if let Some(victim) = strip_prefix(entries[i].as_str(), ".wh.") {
                if same(victim.as_str(), rel[k].as_str()) {
                    let mut path = copy_path(rel, k);
                    let ghost p0 = path@;
                    path.push(entries[i].clone());
                    assert(text::texts(path@) =~= dir.push(entries@[i as int]@));
                    ops.push(LayerOp::RemoveFile(path));
                    assert(changes(ops@) =~= changes(o).push(
                        Change::RemoveFile(dir.push(entries@[i as int]@)),
                    ));
                    assert(changes(ops@) =~= before + exact_markers(
                        dir,
                        es.take(i + 1),
                        p[k as int],
                    ));
                }
            }
            i = i + 1;
        }
        assert(es.take(es.len() as int) =~= es);
        assert(changes(ops@) + unhiding(p, ls, k as int) =~= before + unhiding(p, ls, n as int));
        n = k;
    }
    assert(changes(ops@) + unhiding(p, ls, 0) =~= changes(ops@));
    ops
}

/// What to do for a file that is to be written and lies in the lower layer.
#[derive(Clone, Copy, Debug, PartialEq, Eq, Structural)]
pub enum CopyUp {
    /// The upper layer has a complete copy.
    Trust,
    /// Copy it to a temporary name and rename that.
    Copy,
    /// Copy it to its place.
    CopyInPlace,
    /// The file below cannot be looked at.
    Fail,
}

/// Copies a file into the upper layer. On Windows a copy that is there already
/// is kept. Elsewhere it is only trusted where it is as long as the file: a
/// crash may have left a part of one.
pub fn copy_up(os: HostOs, upper_len: Option<u64>, lower_len: Option<u64>) -> (r: CopyUp)
    ensures
        r == if os == HostOs::Windows {
            if upper_len is Some {
                CopyUp::Trust
            } else {
                CopyUp::CopyInPlace
            }
        } else if upper_len is None {
            CopyUp::Copy
        } else if lower_len is None {
            CopyUp::Fail
        } else if upper_len == lower_len {
            CopyUp::Trust
        } else {
            CopyUp::Copy
        },
{
    if os == HostOs::Windows {
        return match upper_len {
            Some(_) => CopyUp::Trust,
            None => CopyUp::CopyInPlace,
        };
    }
    match upper_len {
        None => CopyUp::Copy,
        Some(u) => match lower_len {
            None => CopyUp::Fail,
            Some(l) => {
                if u == l {
                    CopyUp::Trust
                } else {
                    CopyUp::Copy
                }
            },
        },
    }
}

/// The temporary name of an unfinished copy.
pub fn copy_tmp_name(name: &str) -> (r: String)
    ensures
        r@ == copy_prefix() + name@,
        r@ == ".cowt-copy-tmp."@ + name@,
        reserved(r@),
{
    let r = text::cat2(".cowt-copy-tmp.", name);
    assert(copy_prefix().is_prefix_of(r@));
    r
}

} // verus!
