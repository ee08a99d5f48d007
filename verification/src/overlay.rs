//! What the merged view shows of two layers, and what the changes to the upper
//! layer do to it.

use vstd::prelude::*;
use crate::layers;
use crate::layers::{Change, Place};
use crate::text;

verus! {

/// The contents of two layers: what exists, and whether it is a directory.
pub struct Layers {
    pub upper: Map<Seq<Seq<char>>, bool>,
    pub lower: Map<Seq<Seq<char>>, bool>,
}

/// What lies in a directory of a layer lies in something that the layer holds.
pub open spec fn rooted(m: Map<Seq<Seq<char>>, bool>) -> bool {
    forall|p: Seq<Seq<char>>, k: int|
        #![trigger m.contains_key(p), p.take(k)]
        m.contains_key(p) && 0 <= k <= p.len() ==> m.contains_key(p.take(k))
}

/// `entries` are the names in a directory of a layer.
pub open spec fn lists(
    m: Map<Seq<Seq<char>>, bool>,
    dir: Seq<Seq<char>>,
    entries: Seq<Seq<char>>,
) -> bool {
    forall|n: Seq<char>| #[trigger] entries.contains(n) <==> m.contains_key(dir.push(n))
}

/// `listings` are the names in the upper layer's directories on the way to a
/// path.
pub open spec fn listings_of(
    upper: Map<Seq<Seq<char>>, bool>,
    rel: Seq<Seq<char>>,
    listings: Seq<Seq<Seq<char>>>,
) -> bool {
    &&& listings.len() == rel.len()
    &&& forall|k: int| 0 <= k < rel.len() ==> lists(upper, rel.take(k), #[trigger] listings[k])
}

/// The upper layer has a marker that hides component `k` of a path.
pub open spec fn hidden_at(
    upper: Map<Seq<Seq<char>>, bool>,
    rel: Seq<Seq<char>>,
    k: int,
) -> bool {
    exists|v: Seq<char>|
        upper.contains_key(rel.take(k).push(#[trigger] layers::marker(v))) && text::lowercase(v)
            == text::lowercase(rel[k])
}

/// The upper layer hides a path: a marker hides it or something it lies under.
pub open spec fn hidden(upper: Map<Seq<Seq<char>>, bool>, rel: Seq<Seq<char>>) -> bool {
    exists|k: int| 0 <= k < rel.len() && #[trigger] hidden_at(upper, rel, k)
}

/// No component of a path is a deletion marker.
pub open spec fn unmarked(rel: Seq<Seq<char>>) -> bool {
    forall|i: int|
        0 <= i < rel.len() ==> !layers::marker_prefix().is_prefix_of(#[trigger] rel[i])
}

/// Where the merged view of these layers shows a path.
pub open spec fn sees(l: Layers, rel: Seq<Seq<char>>) -> Place {
    if rel.len() == 0 {
        Place::Root
    } else if l.upper.contains_key(rel) {
        Place::Upper
    } else if l.lower.contains_key(rel) && !hidden(l.upper, rel) {
        Place::Lower
    } else {
        Place::Nowhere
    }
}

proof fn lemma_hides_at(
    upper: Map<Seq<Seq<char>>, bool>,
    rel: Seq<Seq<char>>,
    entries: Seq<Seq<char>>,
    k: int,
)
    requires
        0 <= k < rel.len(),
        lists(upper, rel.take(k), entries),
    ensures
        layers::hides(entries, rel[k]) == hidden_at(upper, rel, k),
{
    if layers::hides(entries, rel[k]) {
        let i = choose|i: int|
            0 <= i < entries.len() && layers::hidden_by(#[trigger] entries[i], rel[k]);
        let v = text::after_prefix(entries[i], layers::marker_prefix())->0;
        assert(entries[i] =~= layers::marker(v));
        assert(entries.contains(layers::marker(v)));
    }
    if hidden_at(upper, rel, k) {
        let v = choose|v: Seq<char>|
            upper.contains_key(rel.take(k).push(#[trigger] layers::marker(v))) && text::lowercase(v)
                == text::lowercase(rel[k]);
        assert(entries.contains(layers::marker(v)));
        let i = choose|i: int| 0 <= i < entries.len() && entries[i] == layers::marker(v);
        assert(layers::marker(v).skip(layers::marker_prefix().len() as int) =~= v);
        assert(layers::hidden_by(entries[i], rel[k]));
    }
}

/// Looking a path up from what the layers hold of it, and from listings of the
/// upper layer's directories, finds it where the merged view of the layers
/// shows it.
pub proof fn law_resolve_sees(l: Layers, rel: Seq<Seq<char>>, listings: Seq<Seq<Seq<char>>>)
    requires
        listings_of(l.upper, rel, listings),
    ensures
        layers::place(
            rel,
            l.upper.contains_key(rel),
            l.lower.contains_key(rel),
            listings,
        ) == sees(l, rel),
{
    if layers::shadowed(rel, listings) {
        let k = choose|k: int| 0 <= k < rel.len() && layers::hides(#[trigger] listings[k], rel[k]);
        lemma_hides_at(l.upper, rel, listings[k], k);
        assert(hidden_at(l.upper, rel, k));
    }
    if hidden(l.upper, rel) {
        let k = choose|k: int| 0 <= k < rel.len() && #[trigger] hidden_at(l.upper, rel, k);
        lemma_hides_at(l.upper, rel, listings[k], k);
        assert(layers::hides(listings[k], rel[k]));
    }
}

/// The upper layer after a change.
pub open spec fn applied(upper: Map<Seq<Seq<char>>, bool>, c: Change) -> Map<Seq<Seq<char>>, bool> {
    match c {
        Change::RemoveTree(p) => Map::new(
            |q: Seq<Seq<char>>| upper.contains_key(q) && !p.is_prefix_of(q),
            |q: Seq<Seq<char>>| upper[q],
        ),
        Change::RemoveFile(p) => upper.remove(p),
        Change::MakeDirs(p) => Map::new(
            |q: Seq<Seq<char>>| upper.contains_key(q) || q.is_prefix_of(p),
            |q: Seq<Seq<char>>|
                if upper.contains_key(q) {
                    upper[q]
                } else {
                    true
                },
        ),
        Change::WriteMarker(p) => upper.insert(p, false),
    }
}

/// The upper layer after these changes.
pub open spec fn applied_all(upper: Map<Seq<Seq<char>>, bool>, cs: Seq<Change>) -> Map<
    Seq<Seq<char>>,
    bool,
>
    decreases cs.len(),
{
    if cs.len() == 0 {
        upper
    } else {
        applied(applied_all(upper, cs.drop_last()), cs.last())
    }
}

/// What the upper layer has of a path, as a deletion is told.
pub open spec fn upper_of(l: Layers, rel: Seq<Seq<char>>) -> Option<bool> {
    if l.upper.contains_key(rel) {
        Some(l.upper[rel])
    } else {
        None
    }
}

/// The layers after a path was deleted.
pub open spec fn deleted(l: Layers, rel: Seq<Seq<char>>) -> Layers {
    Layers {
        upper: applied_all(
            l.upper,
            layers::deletion(rel, upper_of(l, rel), l.lower.contains_key(rel)),
        ),
        lower: l.lower,
    }
}

/// An upper layer without a path: a directory goes with what it holds.
pub open spec fn without(l: Layers, rel: Seq<Seq<char>>) -> Map<Seq<Seq<char>>, bool> {
    match upper_of(l, rel) {
        Some(is_dir) => if is_dir {
            applied(l.upper, Change::RemoveTree(rel))
        } else {
            applied(l.upper, Change::RemoveFile(rel))
        },
        None => l.upper,
    }
}

proof fn lemma_deleted(l: Layers, rel: Seq<Seq<char>>)
    ensures
        deleted(l, rel).upper == if l.lower.contains_key(rel) {
            applied(
                applied(without(l, rel), Change::MakeDirs(rel.drop_last())),
                Change::WriteMarker(layers::marker_path(rel)),
            )
        } else {
            without(l, rel)
        },
{
    let up = upper_of(l, rel);
    let first = layers::deletion(rel, up, false);
    match up {
        Some(is_dir) => {
            assert(first.drop_last() =~= Seq::empty());
            assert(applied_all(l.upper, first.drop_last()) == l.upper);
            assert(applied_all(l.upper, first) == without(l, rel));
        },
        None => {
            assert(applied_all(l.upper, first) == without(l, rel));
        },
    }
    if l.lower.contains_key(rel) {
        let second = first.push(Change::MakeDirs(rel.drop_last()));
        let third = second.push(Change::WriteMarker(layers::marker_path(rel)));
        assert(second.drop_last() =~= first);
        assert(third.drop_last() =~= second);
        assert(layers::deletion(rel, up, true) =~= third);
        assert(applied_all(l.upper, second) == applied(
            without(l, rel),
            Change::MakeDirs(rel.drop_last()),
        ));
    }
}

proof fn lemma_marker_differs(rel: Seq<Seq<char>>)
    requires
        rel.len() > 0,
    ensures
        layers::marker_path(rel) != rel,
        layers::marker_path(rel).len() == rel.len(),
        !rel.is_prefix_of(layers::marker_path(rel)),
{
    reveal_strlit(".wh.");
    let m = layers::marker_path(rel);
    assert(m[rel.len() - 1] == layers::marker(rel.last()));
    assert(layers::marker(rel.last()).len() == rel.last().len() + 4);
    if rel.is_prefix_of(m) {
        assert(m.subrange(0, rel.len() as int)[rel.len() - 1] == rel[rel.len() - 1]);
    }
}

/// A path that was deleted is not shown any more, whichever layer had it.
pub proof fn law_deleted_is_hidden(l: Layers, rel: Seq<Seq<char>>)
    requires
        rel.len() > 0,
    ensures
        sees(deleted(l, rel), rel) is Nowhere,
{
    lemma_deleted(l, rel);
    lemma_marker_differs(rel);
    let d = deleted(l, rel);
    assert(rel =~= rel.subrange(0, rel.len() as int));
    assert(!without(l, rel).contains_key(rel));
    if l.lower.contains_key(rel) {
        let n = rel.len() - 1;
        assert(!rel.is_prefix_of(rel.drop_last()));
        assert(!d.upper.contains_key(rel));
        assert(rel.take(n).push(layers::marker(rel[n])) =~= layers::marker_path(rel));
        assert(d.upper.contains_key(rel.take(n).push(layers::marker(rel[n]))));
        assert(hidden_at(d.upper, rel, n));
    }
}

/// A path that was deleted takes nothing else with it: what is shown elsewhere
/// is still shown, and nothing new appears. The names that the marker hides
/// with the path, those that equal it but for case, are left out, and so is the
/// marker itself; and so are paths that are markers, whose removal shows what
/// they hid.
pub proof fn law_deletion_leaves_the_rest(l: Layers, rel: Seq<Seq<char>>, q: Seq<Seq<char>>)
    requires
        rooted(l.upper),
        rooted(l.lower),
        rel.len() > 0,
        unmarked(rel),
        !(sees(l, rel) is Nowhere),
        !rel.is_prefix_of(q),
        q != layers::marker_path(rel),
        !(q.len() >= rel.len() && q.take(rel.len() - 1) == rel.take(rel.len() - 1)
            && text::lowercase(q[rel.len() - 1]) == text::lowercase(rel[rel.len() - 1])),
    ensures
        sees(deleted(l, rel), q) is Nowhere <==> sees(l, q) is Nowhere,
{
    lemma_deleted(l, rel);
    let d = deleted(l, rel);
    let n = rel.len() - 1;
    let parent = rel.drop_last();
    assert(parent =~= rel.take(n));
    let w = without(l, rel);
    assert(rel != q) by {
        assert(rel =~= rel.subrange(0, rel.len() as int));
    }
    assert(w.contains_key(q) == l.upper.contains_key(q));
    // Which markers hide `q` is the same before and after.
    assert forall|k: int| 0 <= k < q.len() implies hidden_at(d.upper, q, k) == hidden_at(
        l.upper,
        q,
        k,
    ) by {
        lemma_hidden_at_kept(l, rel, q, k);
    }
    if hidden(d.upper, q) {
        let k = choose|k: int| 0 <= k < q.len() && #[trigger] hidden_at(d.upper, q, k);
        assert(hidden_at(l.upper, q, k));
    }
    if hidden(l.upper, q) {
        let k = choose|k: int| 0 <= k < q.len() && #[trigger] hidden_at(l.upper, q, k);
        assert(hidden_at(d.upper, q, k));
    }
    if l.lower.contains_key(rel) && q.is_prefix_of(parent) && q.len() > 0 {
        // A directory on the way to a path that is shown is shown itself.
        assert(q =~= rel.take(q.len() as int)) by {
            assert(q =~= parent.subrange(0, q.len() as int));
        }
        if l.upper.contains_key(rel) {
            assert(l.upper.contains_key(rel.take(q.len() as int)));
        } else {
            assert(l.lower.contains_key(rel.take(q.len() as int)));
            if hidden(l.upper, q) {
                let k = choose|k: int| 0 <= k < q.len() && #[trigger] hidden_at(l.upper, q, k);
                assert(q.take(k) =~= rel.take(k));
                assert(q[k] == rel[k]);
                assert(hidden_at(l.upper, rel, k));
            }
        }
    }
}

proof fn lemma_hidden_at_kept(l: Layers, rel: Seq<Seq<char>>, q: Seq<Seq<char>>, k: int)
    requires
        rooted(l.upper),
        rel.len() > 0,
        unmarked(rel),
        !(sees(l, rel) is Nowhere),
        !rel.is_prefix_of(q),
        q != layers::marker_path(rel),
        !(q.len() >= rel.len() && q.take(rel.len() - 1) == rel.take(rel.len() - 1)
            && text::lowercase(q[rel.len() - 1]) == text::lowercase(rel[rel.len() - 1])),
        0 <= k < q.len(),
    ensures
        hidden_at(deleted(l, rel).upper, q, k) == hidden_at(l.upper, q, k),
{
    lemma_deleted(l, rel);
    let d = deleted(l, rel);
    let n = rel.len() - 1;
    let parent = rel.drop_last();
    assert(parent =~= rel.take(n));
    if hidden_at(l.upper, q, k) {
        let v = choose|v: Seq<char>|
            l.upper.contains_key(q.take(k).push(#[trigger] layers::marker(v)))
                && text::lowercase(v) == text::lowercase(q[k]);
        let m = q.take(k).push(layers::marker(v));
        if rel.is_prefix_of(m) {
            if rel.len() <= k {
                assert(rel =~= q.subrange(0, rel.len() as int)) by {
                    assert forall|i: int| 0 <= i < rel.len() implies rel[i] == q[i] by {
                        assert(m.subrange(0, rel.len() as int)[i] == rel[i]);
                        assert(m[i] == q[i]);
                    }
                }
                assert(false);
            } else {
                assert(rel =~= m) by {
                    assert(rel =~= m.subrange(0, rel.len() as int));
                }
                assert(rel[k] == layers::marker(v));
                assert(layers::marker_prefix().is_prefix_of(rel[k]));
                assert(false);
            }
        } else {
            assert(without(l, rel).contains_key(m)) by {
                assert(m != rel) by {
                    assert(rel =~= rel.subrange(0, rel.len() as int));
                }
            }
            assert(d.upper.contains_key(m));
        }
    }
    if hidden_at(d.upper, q, k) {
        let v = choose|v: Seq<char>|
            d.upper.contains_key(q.take(k).push(#[trigger] layers::marker(v)))
                && text::lowercase(v) == text::lowercase(q[k]);
        let m = q.take(k).push(layers::marker(v));
        if !l.upper.contains_key(m) {
            assert(l.lower.contains_key(rel));
            if m == layers::marker_path(rel) {
                assert(m.len() == rel.len());
                assert(k == n);
                assert(m[n] == layers::marker(v));
                assert(m[n] == layers::marker(rel.last()));
                lemma_marker_injective(v, rel.last());
                assert(q.take(n) =~= rel.take(n)) by {
                    assert forall|i: int| 0 <= i < n implies q[i] == rel[i] by {
                        assert(m[i] == q[i]);
                        assert(layers::marker_path(rel)[i] == rel[i]);
                    }
                }
                assert(false);
            } else {
                assert(m.is_prefix_of(parent));
                assert(parent.subrange(0, m.len() as int)[k] == m[k]);
                assert(rel[k] == layers::marker(v));
                assert(layers::marker_prefix().is_prefix_of(rel[k]));
                assert(false);
            }
        }
    }
}

proof fn lemma_marker_injective(a: Seq<char>, b: Seq<char>)
    requires
        layers::marker(a) == layers::marker(b),
    ensures
        a == b,
{
    let p = layers::marker_prefix().len() as int;
    assert(layers::marker(a).skip(p) =~= a);
    assert(layers::marker(b).skip(p) =~= b);
}

proof fn lemma_hidden_child(
    upper: Map<Seq<Seq<char>>, bool>,
    rel: Seq<Seq<char>>,
    n: Seq<char>,
    entries: Seq<Seq<char>>,
)
    requires
        lists(upper, rel, entries),
    ensures
        hidden(upper, rel.push(n)) == (hidden(upper, rel) || layers::hides(entries, n)),
{
    let c = rel.push(n);
    let m = rel.len() as int;
    assert(c.take(m) =~= rel);
    lemma_hides_at(upper, c, entries, m);
    if hidden(upper, c) {
        let k = choose|k: int| 0 <= k < c.len() && #[trigger] hidden_at(upper, c, k);
        if k < m {
            assert(c.take(k) =~= rel.take(k));
            assert(hidden_at(upper, rel, k));
        }
    }
    if hidden(upper, rel) {
        let k = choose|k: int| 0 <= k < rel.len() && #[trigger] hidden_at(upper, rel, k);
        assert(c.take(k) =~= rel.take(k));
        assert(hidden_at(upper, c, k));
    }
    if layers::hides(entries, n) {
        assert(hidden_at(upper, c, m));
    }
}

/// A listing of a merged directory agrees with looking its entries up: what is
/// listed is found, and what is found is listed, or a name that equals it but
/// for case is. Deletion markers are left out: they are entries of the upper
/// layer that no listing shows.
pub proof fn law_listing_agrees(
    l: Layers,
    rel: Seq<Seq<char>>,
    upper: Seq<Seq<char>>,
    lower: Seq<Seq<char>>,
    n: Seq<char>,
)
    requires
        lists(l.upper, rel, upper),
        lists(l.lower, rel, lower),
        !layers::marker_prefix().is_prefix_of(n),
    ensures
        layers::merged(upper, lower, hidden(l.upper, rel)).contains(n) ==> !(sees(
            l,
            rel.push(n),
        ) is Nowhere),
        !(sees(l, rel.push(n)) is Nowhere) ==> layers::folded_in(
            layers::merged(upper, lower, hidden(l.upper, rel)),
            n,
        ),
{
    let h = hidden(l.upper, rel);
    let all = layers::merged(upper, lower, h);
    layers::law_listing(upper, lower, h, n);
    lemma_hidden_child(l.upper, rel, n, upper);
    assert(upper.contains(n) == l.upper.contains_key(rel.push(n)));
    assert(lower.contains(n) == l.lower.contains_key(rel.push(n)));
    if l.upper.contains_key(rel.push(n)) {
        assert(all.contains(n));
        let i = choose|i: int| 0 <= i < all.len() && all[i] == n;
        assert(text::lowercase(all[i]) == text::lowercase(n));
    }
}

/// All of these changes remove one entry each.
pub open spec fn removals(cs: Seq<Change>) -> bool {
    forall|i: int| 0 <= i < cs.len() ==> (#[trigger] cs[i]) is RemoveFile
}

proof fn lemma_removals(upper: Map<Seq<Seq<char>>, bool>, cs: Seq<Change>, q: Seq<Seq<char>>)
    requires
        removals(cs),
    ensures
        applied_all(upper, cs).contains_key(q) <==> upper.contains_key(q) && !cs.contains(
            Change::RemoveFile(q),
        ),
    decreases cs.len(),
{
    if cs.len() > 0 {
        let init = cs.drop_last();
        assert forall|i: int| 0 <= i < init.len() implies (#[trigger] init[i]) is RemoveFile by {
            assert(cs[i] is RemoveFile);
        }
        lemma_removals(upper, init, q);
        assert(cs[cs.len() - 1] is RemoveFile);
        if cs.contains(Change::RemoveFile(q)) {
            let i = choose|i: int| 0 <= i < cs.len() && cs[i] == Change::RemoveFile(q);
            if i < init.len() {
                assert(init[i] == Change::RemoveFile(q));
            }
        }
        if init.contains(Change::RemoveFile(q)) {
            let i = choose|i: int| 0 <= i < init.len() && init[i] == Change::RemoveFile(q);
            assert(cs[i] == Change::RemoveFile(q));
        }
        if cs.last() == Change::RemoveFile(q) {
            assert(cs[cs.len() - 1] == Change::RemoveFile(q));
        }
    }
}

proof fn lemma_exact_markers(dir: Seq<Seq<char>>, entries: Seq<Seq<char>>, name: Seq<char>)
    ensures
        removals(layers::exact_markers(dir, entries, name)),
        entries.contains(layers::marker(name)) ==> layers::exact_markers(
            dir,
            entries,
            name,
        ).contains(Change::RemoveFile(dir.push(layers::marker(name)))),
        forall|i: int|
            0 <= i < layers::exact_markers(dir, entries, name).len()
                ==> #[trigger] layers::exact_markers(dir, entries, name)[i] == Change::RemoveFile(
                dir.push(layers::marker(name)),
            ),
    decreases entries.len(),
{
    if entries.len() > 0 {
        let init = entries.drop_last();
        lemma_exact_markers(dir, init, name);
        let a = layers::exact_markers(dir, init, name);
        let b = layers::exact_markers(dir, entries, name);
        assert forall|i: int| 0 <= i < b.len() implies #[trigger] b[i] == Change::RemoveFile(
            dir.push(layers::marker(name)),
        ) by {
            if i < a.len() {
                assert(b[i] == a[i]);
            }
        }
        if entries.contains(layers::marker(name)) {
            let i = choose|i: int| 0 <= i < entries.len() && entries[i] == layers::marker(name);
            if i < init.len() {
                assert(init[i] == layers::marker(name));
                let j = choose|j: int|
                    0 <= j < a.len() && a[j] == Change::RemoveFile(dir.push(layers::marker(name)));
                assert(b[j] == a[j]);
            } else {
                assert(b[b.len() - 1] == Change::RemoveFile(dir.push(layers::marker(name))));
            }
        }
    }
}

proof fn lemma_unhiding(rel: Seq<Seq<char>>, listings: Seq<Seq<Seq<char>>>, n: int)
    requires
        listings.len() == rel.len(),
        0 <= n <= rel.len(),
    ensures
        removals(layers::unhiding(rel, listings, n)),
        forall|k: int|
            0 <= k < n && (#[trigger] listings[k]).contains(layers::marker(rel[k]))
                ==> layers::unhiding(rel, listings, n).contains(
                Change::RemoveFile(rel.take(k).push(layers::marker(rel[k]))),
            ),
        forall|i: int|
            0 <= i < layers::unhiding(rel, listings, n).len() ==> exists|k: int|
                0 <= k < n && #[trigger] layers::unhiding(rel, listings, n)[i]
                    == Change::RemoveFile(#[trigger] rel.take(k).push(layers::marker(rel[k]))),
    decreases n,
{
    if n > 0 {
        lemma_unhiding(rel, listings, n - 1);
        let a = layers::exact_markers(rel.take(n - 1), listings[n - 1], rel[n - 1]);
        let b = layers::unhiding(rel, listings, n - 1);
        let all = layers::unhiding(rel, listings, n);
        lemma_exact_markers(rel.take(n - 1), listings[n - 1], rel[n - 1]);
        assert(all == a + b);
        assert forall|i: int| 0 <= i < all.len() implies (#[trigger] all[i]) is RemoveFile by {
            if i < a.len() {
                assert(a[i] is RemoveFile);
            } else {
                assert(b[i - a.len()] is RemoveFile);
            }
        }
        assert forall|k: int|
            0 <= k < n && (#[trigger] listings[k]).contains(
                layers::marker(rel[k]),
            ) implies all.contains(
            Change::RemoveFile(rel.take(k).push(layers::marker(rel[k]))),
        ) by {
            let c = Change::RemoveFile(rel.take(k).push(layers::marker(rel[k])));
            if k == n - 1 {
                let j = choose|j: int| 0 <= j < a.len() && a[j] == c;
                assert(all[j] == c);
            } else {
                assert(b.contains(c));
                let j = choose|j: int| 0 <= j < b.len() && b[j] == c;
                assert(all[a.len() + j] == c);
            }
        }
        assert forall|i: int| 0 <= i < all.len() implies exists|k: int|
            0 <= k < n && #[trigger] all[i] == Change::RemoveFile(
                #[trigger] rel.take(k).push(layers::marker(rel[k])),
            ) by {
            if i < a.len() {
                assert(all[i] == a[i]);
                assert(all[i] == Change::RemoveFile(
                    rel.take(n - 1).push(layers::marker(rel[n - 1])),
                ));
            } else {
                let j = i - a.len();
                assert(all[i] == b[j]);
                let k = choose|k: int|
                    0 <= k < n - 1 && b[j] == Change::RemoveFile(
                        #[trigger] rel.take(k).push(layers::marker(rel[k])),
                    );
                assert(all[i] == Change::RemoveFile(rel.take(k).push(layers::marker(rel[k]))));
            }
        }
    }
}

/// The layers after the markers for a path were cleared.
pub open spec fn cleared(l: Layers, rel: Seq<Seq<char>>, listings: Seq<Seq<Seq<char>>>) -> Layers {
    Layers {
        upper: applied_all(l.upper, layers::unhiding(rel, listings, rel.len() as int)),
        lower: l.lower,
    }
}

/// Making a path again clears its own marker and those of everything it lies
/// under, and touches nothing else.
pub proof fn law_recreating_clears_markers(
    l: Layers,
    rel: Seq<Seq<char>>,
    listings: Seq<Seq<Seq<char>>>,
    q: Seq<Seq<char>>,
)
    requires
        listings_of(l.upper, rel, listings),
    ensures
        cleared(l, rel, listings).upper.contains_key(q) <==> l.upper.contains_key(q) && !exists|k: int|
            0 <= k < rel.len() && q == #[trigger] rel.take(k).push(layers::marker(rel[k])),
{
    let cs = layers::unhiding(rel, listings, rel.len() as int);
    lemma_unhiding(rel, listings, rel.len() as int);
    lemma_removals(l.upper, cs, q);
    if l.upper.contains_key(q) {
        if exists|k: int|
            0 <= k < rel.len() && q == #[trigger] rel.take(k).push(layers::marker(rel[k])) {
            let k = choose|k: int|
                0 <= k < rel.len() && q == #[trigger] rel.take(k).push(layers::marker(rel[k]));
            assert(lists(l.upper, rel.take(k), listings[k]));
            assert(listings[k].contains(layers::marker(rel[k])));
            assert(cs.contains(Change::RemoveFile(q)));
        }
        if cs.contains(Change::RemoveFile(q)) {
            let i = choose|i: int| 0 <= i < cs.len() && cs[i] == Change::RemoveFile(q);
            assert(exists|k: int|
                0 <= k < rel.len() && cs[i] == Change::RemoveFile(
                    #[trigger] rel.take(k).push(layers::marker(rel[k])),
                ));
        }
    }
}

/// The layers after a path was made: its markers are cleared, the directories
/// it lies in are made, and it is put into the upper layer.
pub open spec fn made(
    l: Layers,
    rel: Seq<Seq<char>>,
    listings: Seq<Seq<Seq<char>>>,
    is_dir: bool,
) -> Layers {
    Layers {
        upper: applied(
            cleared(l, rel, listings).upper,
            Change::MakeDirs(rel.drop_last()),
        ).insert(rel, is_dir),
        lower: l.lower,
    }
}

/// A path that was made is shown, from the upper layer, whatever hid it before.
pub proof fn law_made_is_shown(
    l: Layers,
    rel: Seq<Seq<char>>,
    listings: Seq<Seq<Seq<char>>>,
    is_dir: bool,
)
    requires
        rel.len() > 0,
    ensures
        sees(made(l, rel, listings, is_dir), rel) is Upper,
{
}

/// An upper layer after what is at `from` was renamed to `to`.
pub open spec fn moved(
    upper: Map<Seq<Seq<char>>, bool>,
    from: Seq<Seq<char>>,
    to: Seq<Seq<char>>,
) -> Map<Seq<Seq<char>>, bool> {
    Map::new(
        |q: Seq<Seq<char>>|
            if to.is_prefix_of(q) {
                upper.contains_key(from + q.skip(to.len() as int))
            } else {
                upper.contains_key(q) && !from.is_prefix_of(q)
            },
        |q: Seq<Seq<char>>|
            if to.is_prefix_of(q) {
                upper[from + q.skip(to.len() as int)]
            } else {
                upper[q]
            },
    )
}

/// The layers after a path whose content is in the upper layer was renamed:
/// the directories that the new path lies in are made, what was at the new path
/// is deleted, the old path is marked as deleted where the lower layer has it,
/// and then the content takes its new place.
pub open spec fn renamed(l: Layers, from: Seq<Seq<char>>, to: Seq<Seq<char>>) -> Layers {
    let a = Layers { upper: applied(l.upper, Change::MakeDirs(to.drop_last())), lower: l.lower };
    let b = deleted(a, to);
    let c = if l.lower.contains_key(from) {
        applied(b.upper, Change::WriteMarker(layers::marker_path(from)))
    } else {
        b.upper
    };
    Layers { upper: moved(c, from, to), lower: l.lower }
}

/// Renaming shows the content under the new path and not under the old one,
/// also where the lower layer has both. Neither path lies under the other, and
/// neither is the other's deletion marker.
pub proof fn law_renamed_moves(l: Layers, from: Seq<Seq<char>>, to: Seq<Seq<char>>)
    requires
        from.len() > 0,
        to.len() > 0,
        l.upper.contains_key(from),
        !from.is_prefix_of(to),
        !to.is_prefix_of(from),
        layers::marker_path(from) != to,
        layers::marker_path(to) != from,
        !to.is_prefix_of(layers::marker_path(from)),
    ensures
        sees(renamed(l, from, to), to) is Upper,
        sees(renamed(l, from, to), from) is Nowhere,
{
    let a = Layers { upper: applied(l.upper, Change::MakeDirs(to.drop_last())), lower: l.lower };
    let b = deleted(a, to);
    let c = if l.lower.contains_key(from) {
        applied(b.upper, Change::WriteMarker(layers::marker_path(from)))
    } else {
        b.upper
    };
    let r = renamed(l, from, to);
    lemma_deleted(a, to);
    lemma_marker_differs(from);
    lemma_marker_differs(to);
    assert(from != to) by {
        assert(from =~= from.subrange(0, from.len() as int));
    }
    assert(a.upper.contains_key(from));
    assert(without(a, to).contains_key(from));
    assert(b.upper.contains_key(from));
    assert(c.contains_key(from));
    assert(to.skip(to.len() as int) =~= Seq::empty());
    assert(from + to.skip(to.len() as int) =~= from);
    assert(to.is_prefix_of(to)) by {
        assert(to =~= to.subrange(0, to.len() as int));
    }
    assert(r.upper.contains_key(to));
    assert(from.is_prefix_of(from)) by {
        assert(from =~= from.subrange(0, from.len() as int));
    }
    assert(!r.upper.contains_key(from));
    if l.lower.contains_key(from) {
        let n = from.len() - 1;
        let m = layers::marker_path(from);
        assert(c.contains_key(m));
        assert(r.upper.contains_key(m));
        assert(from.take(n).push(layers::marker(from[n])) =~= m);
        assert(hidden_at(r.upper, from, n));
    }
}

proof fn lemma_no_marker(rel: Seq<Seq<char>>, dir: Seq<Seq<char>>, v: Seq<char>)
    requires
        unmarked(rel),
    ensures
        !dir.push(layers::marker(v)).is_prefix_of(rel),
{
    let p = dir.push(layers::marker(v));
    if p.is_prefix_of(rel) {
        let i = dir.len() as int;
        assert(p[i] == rel.subrange(0, p.len() as int)[i]);
        assert(rel[i] == layers::marker(v));
        assert(layers::marker_prefix() =~= rel[i].subrange(
            0,
            layers::marker_prefix().len() as int,
        ));
    }
}

/// What the lower layer has in a directory that is deleted and then made again
/// shows again, as it did before.
pub proof fn law_remade_shows_again(
    l: Layers,
    rel: Seq<Seq<char>>,
    listings: Seq<Seq<Seq<char>>>,
    q: Seq<Seq<char>>,
)
    requires
        rel.len() > 0,
        unmarked(rel),
        listings_of(deleted(l, rel).upper, rel, listings),
        rel.is_prefix_of(q),
        q != rel,
        sees(l, q) is Lower,
    ensures
        sees(made(deleted(l, rel), rel, listings, true), q) is Lower,
{
    let d = deleted(l, rel);
    let m = made(d, rel, listings, true);
    let parent = rel.drop_last();
    let n = rel.len() - 1;
    lemma_deleted(l, rel);
    assert(q.len() > rel.len()) by {
        if q.len() == rel.len() {
            assert(rel =~= q.subrange(0, rel.len() as int));
            assert(q.subrange(0, rel.len() as int) =~= q);
        }
    }
    assert(!q.is_prefix_of(parent));
    assert(q != layers::marker_path(rel));
    law_recreating_clears_markers(d, rel, listings, q);
    assert(!m.upper.contains_key(q));
    assert forall|k: int| 0 <= k < q.len() implies !hidden_at(m.upper, q, k) by {
        if hidden_at(m.upper, q, k) {
            let v = choose|v: Seq<char>|
                m.upper.contains_key(q.take(k).push(#[trigger] layers::marker(v)))
                    && text::lowercase(v) == text::lowercase(q[k]);
            let p = q.take(k).push(layers::marker(v));
            lemma_no_marker(rel, q.take(k), v);
            assert(unmarked(parent));
            lemma_no_marker(parent, q.take(k), v);
            assert(p != rel) by {
                assert(rel =~= rel.subrange(0, rel.len() as int));
            }
            law_recreating_clears_markers(d, rel, listings, p);
            assert(d.upper.contains_key(p));
            assert(p != layers::marker_path(rel)) by {
                assert(rel.take(n).push(layers::marker(rel[n])) =~= layers::marker_path(rel));
            }
            assert(l.upper.contains_key(p));
            assert(hidden_at(l.upper, q, k));
        }
    }
}

/// The layers after a file was copied into the upper layer.
pub open spec fn copied(l: Layers, rel: Seq<Seq<char>>) -> Layers {
    Layers {
        upper: applied(l.upper, Change::MakeDirs(rel.drop_last())).insert(rel, false),
        lower: l.lower,
    }
}

/// Copying a file into the upper layer, which is what a write starts with,
/// changes where it is shown from and nothing else of what is shown.
pub proof fn law_copying_changes_no_view(l: Layers, rel: Seq<Seq<char>>, q: Seq<Seq<char>>)
    requires
        rooted(l.lower),
        unmarked(rel),
        sees(l, rel) is Lower,
    ensures
        sees(copied(l, rel), rel) is Upper,
        sees(copied(l, rel), q) is Nowhere <==> sees(l, q) is Nowhere,
{
    let c = copied(l, rel);
    let parent = rel.drop_last();
    assert(unmarked(parent));
    assert forall|k: int| 0 <= k < q.len() implies hidden_at(c.upper, q, k) == hidden_at(
        l.upper,
        q,
        k,
    ) by {
        if hidden_at(c.upper, q, k) {
            let v = choose|v: Seq<char>|
                c.upper.contains_key(q.take(k).push(#[trigger] layers::marker(v)))
                    && text::lowercase(v) == text::lowercase(q[k]);
            lemma_no_marker(rel, q.take(k), v);
            lemma_no_marker(parent, q.take(k), v);
            assert(rel =~= rel.subrange(0, rel.len() as int));
            assert(l.upper.contains_key(q.take(k).push(layers::marker(v))));
        }
        if hidden_at(l.upper, q, k) {
            let v = choose|v: Seq<char>|
                l.upper.contains_key(q.take(k).push(#[trigger] layers::marker(v)))
                    && text::lowercase(v) == text::lowercase(q[k]);
            assert(c.upper.contains_key(q.take(k).push(layers::marker(v))));
        }
    }
    if hidden(c.upper, q) {
        let k = choose|k: int| 0 <= k < q.len() && #[trigger] hidden_at(c.upper, q, k);
        assert(hidden_at(l.upper, q, k));
    }
    if hidden(l.upper, q) {
        let k = choose|k: int| 0 <= k < q.len() && #[trigger] hidden_at(l.upper, q, k);
        assert(hidden_at(c.upper, q, k));
    }
    if q.is_prefix_of(parent) && q.len() > 0 {
        // A directory on the way to the file is shown before, too.
        assert(q =~= rel.take(q.len() as int)) by {
            assert(q =~= parent.subrange(0, q.len() as int));
        }
        assert(l.lower.contains_key(rel.take(q.len() as int)));
        if hidden(l.upper, q) {
            let k = choose|k: int| 0 <= k < q.len() && #[trigger] hidden_at(l.upper, q, k);
            assert(q.take(k) =~= rel.take(k));
            assert(q[k] == rel[k]);
            assert(hidden_at(l.upper, rel, k));
        }
    }
}

/// Whatever is done in the view, the lower layer, which is the host directory,
/// stays as it is.
pub proof fn law_host_is_untouched(
    l: Layers,
    rel: Seq<Seq<char>>,
    to: Seq<Seq<char>>,
    listings: Seq<Seq<Seq<char>>>,
    is_dir: bool,
)
    ensures
        copied(l, rel).lower == l.lower,
        deleted(l, rel).lower == l.lower,
        made(l, rel, listings, is_dir).lower == l.lower,
        renamed(l, rel, to).lower == l.lower,
{
}

} // verus!
