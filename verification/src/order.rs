//! Ordering and sorting of texts.

use vstd::prelude::*;
use crate::text;
use crate::text::chars_of;

verus! {

/// `a` comes strictly before `b`, compared character by character.
pub open spec fn before(a: Seq<char>, b: Seq<char>) -> bool
    decreases a.len(),
{
    if b.len() == 0 {
        false
    } else if a.len() == 0 {
        true
    } else if a[0] != b[0] {
        a[0] < b[0]
    } else {
        before(a.skip(1), b.skip(1))
    }
}

/// `a` does not come after `b`.
pub open spec fn not_after(a: Seq<char>, b: Seq<char>) -> bool {
    !before(b, a)
}

/// One text comes before another if and only if it is a shorter beginning of it, or
/// holds the lesser character where the two first differ.
pub proof fn law_before(a: Seq<char>, b: Seq<char>)
    ensures
        before(a, b) <==> exists|i: int|
            #![trigger a.take(i)]
            0 <= i <= a.len() && i < b.len() && a.take(i) == b.take(i) && (i == a.len() || a[i]
                < b[i]),
    decreases a.len(),
{
    if a.len() > 0 && b.len() > 0 && a[0] == b[0] {
        let (a1, b1) = (a.skip(1), b.skip(1));
        law_before(a1, b1);
        if before(a, b) {
            let j = choose|j: int|
                #![trigger a1.take(j)]
                0 <= j <= a1.len() && j < b1.len() && a1.take(j) == b1.take(j) && (j == a1.len()
                    || a1[j] < b1[j]);
            assert(a.take(j + 1) =~= seq![a[0]] + a1.take(j));
            assert(b.take(j + 1) =~= seq![b[0]] + b1.take(j));
        }
        if exists|i: int|
            #![trigger a.take(i)]
            0 <= i <= a.len() && i < b.len() && a.take(i) == b.take(i) && (i == a.len() || a[i]
                < b[i]) {
            let i = choose|i: int|
                #![trigger a.take(i)]
                0 <= i <= a.len() && i < b.len() && a.take(i) == b.take(i) && (i == a.len() || a[i]
                    < b[i]);
            assert(i > 0);
            assert(a1.take(i - 1) =~= a.take(i).skip(1));
            assert(b1.take(i - 1) =~= b.take(i).skip(1));
        }
    } else if b.len() > 0 {
        assert(a.take(0) =~= b.take(0));
        assert forall|i: int|
            #![trigger a.take(i)]
            0 < i <= a.len() && i < b.len() implies a.take(i) != b.take(i) by {
            assert(a.take(i)[0] == a[0] && b.take(i)[0] == b[0]);
        }
    }
}

/// Of two different texts exactly one comes before the other.
pub proof fn lemma_before_total(a: Seq<char>, b: Seq<char>)
    ensures
        !(before(a, b) && before(b, a)),
        before(a, b) || before(b, a) || a == b,
        !before(a, a),
    decreases a.len() + b.len(),
{
    if a.len() > 0 && b.len() > 0 && a[0] == b[0] {
        lemma_before_total(a.skip(1), b.skip(1));
        if a.skip(1) == b.skip(1) {
            assert(a =~= seq![a[0]] + a.skip(1));
            assert(b =~= seq![b[0]] + b.skip(1));
        }
    }
    if a.len() == 0 && b.len() == 0 {
        assert(a =~= b);
    }
    if a.len() > 0 {
        lemma_before_irreflexive(a);
    }
}

proof fn lemma_before_irreflexive(a: Seq<char>)
    ensures
        !before(a, a),
    decreases a.len(),
{
    if a.len() > 0 {
        lemma_before_irreflexive(a.skip(1));
    }
}

/// Coming before is transitive.
pub proof fn lemma_before_transitive(a: Seq<char>, b: Seq<char>, c: Seq<char>)
    requires
        before(a, b),
        before(b, c),
    ensures
        before(a, c),
    decreases a.len(),
{
    if a.len() > 0 && a[0] == b[0] && b[0] == c[0] {
        lemma_before_transitive(a.skip(1), b.skip(1), c.skip(1));
    }
}

/// Not coming after is transitive.
pub proof fn lemma_not_after_transitive(a: Seq<char>, b: Seq<char>, c: Seq<char>)
    requires
        not_after(a, b),
        not_after(b, c),
    ensures
        not_after(a, c),
{
    lemma_before_total(a, b);
    lemma_before_total(b, c);
    lemma_before_total(a, c);
    if before(c, a) {
        if a == b {
        } else {
            lemma_before_transitive(c, a, b);
        }
    }
}

/// `a` comes strictly before `b`.
pub fn text_before(a: &str, b: &str) -> (r: bool)
    ensures
        r == before(a@, b@),
{
    let x = chars_of(a);
    let y = chars_of(b);
    let mut i: usize = 0;
    assert(a@.skip(0) =~= a@);
    assert(b@.skip(0) =~= b@);
    while i < x.len() && i < y.len()
        invariant
            i <= x@.len(),
            i <= y@.len(),
            x@ == a@,
            y@ == b@,
            before(a@, b@) == before(a@.skip(i as int), b@.skip(i as int)),
        decreases x@.len() - i,
    {
        assert(a@.skip(i as int)[0] == x@[i as int]);
        assert(b@.skip(i as int)[0] == y@[i as int]);
        if x[i] != y[i] {
            return x[i] < y[i];
        }
        assert(a@.skip(i as int).skip(1) =~= a@.skip(i + 1));
        assert(b@.skip(i as int).skip(1) =~= b@.skip(i + 1));
        i = i + 1;
    }
    i < y.len()
}

/// No text comes after a later one.
pub open spec fn in_order(s: Seq<Seq<char>>) -> bool {
    forall|i: int, j: int| 0 <= i < j < s.len() ==> not_after(#[trigger] s[i], #[trigger] s[j])
}

/// Sorts strings.
pub fn sort_texts(v: Vec<String>) -> (r: Vec<String>)
    ensures
        in_order(text::texts(r@)),
        forall|i: int, j: int|
            0 <= i < j < r@.len() ==> !before((#[trigger] r@[j])@, (#[trigger] r@[i])@),
        text::texts(r@).to_multiset() == text::texts(v@).to_multiset(),
{
    let mut out: Vec<String> = Vec::new();
    let mut k: usize = 0;
    assert(text::texts(out@) =~= text::texts(v@).take(0));
    while k < v.len()
        invariant
            k <= v@.len(),
            in_order(text::texts(out@)),
            text::texts(out@).to_multiset() == text::texts(v@).take(k as int).to_multiset(),
            out@.len() == k,
        decreases v@.len() - k,
    {
        let ghost o = text::texts(out@);
        let ghost x = v@[k as int]@;
        let mut p: usize = 0;
        while p < out.len() && !text_before(v[k].as_str(), out[p].as_str())
            invariant
                p <= out@.len(),
                k < v@.len(),
                x == v@[k as int]@,
                o == text::texts(out@),
                forall|i: int| 0 <= i < p ==> not_after(#[trigger] o[i], x),
            decreases out@.len() - p,
        {
            p = p + 1;
        }
        out.insert(p, v[k].clone());
        assert(text::texts(out@) =~= o.insert(p as int, x));
        proof {
            let n = o.insert(p as int, x);
            if p < o.len() {
                assert(before(x, o[p as int]));
            }
            assert forall|i: int, j: int| 0 <= i < j < n.len() implies not_after(
                #[trigger] n[i],
                #[trigger] n[j],
            ) by {
                let a = if i < p {
                    i
                } else {
                    i - 1
                };
                let b = if j < p {
                    j
                } else {
                    j - 1
                };
                if i == p {
                    lemma_before_total(x, o[p as int]);
                    assert(not_after(x, o[p as int]));
                    if b > p {
                        lemma_not_after_transitive(x, o[p as int], o[b]);
                    }
                } else if j == p {
                    assert(not_after(o[a], x));
                } else {
                    assert(n[i] == o[a] && n[j] == o[b]);
                }
            }
            vstd::seq_lib::to_multiset_insert(o, p as int, x);
            assert(text::texts(v@).take(k + 1) =~= text::texts(v@).take(k as int).push(x));
            vstd::seq_lib::to_multiset_build(text::texts(v@).take(k as int), x);
        }
        k = k + 1;
    }
    assert(text::texts(v@).take(v@.len() as int) =~= text::texts(v@));
    proof {
        let all = text::texts(out@);
        assert forall|i: int, j: int| 0 <= i < j < out@.len() implies !before(
            (#[trigger] out@[j])@,
            (#[trigger] out@[i])@,
        ) by {
            assert(not_after(all[i], all[j]));
        }
    }
    out
}

} // verus!
