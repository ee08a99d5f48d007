//! Character-level text processing: searching, splitting, trimming, joining.
//!
//! Every function is specified over `Seq<char>`, the view of `str` and
//! `String`.

use vstd::prelude::*;

verus! {

/// The Unicode `White_Space` property.
pub open spec fn white_space(c: char) -> bool {
    ||| '\u{9}' <= c <= '\u{d}'
    ||| c == '\u{20}'
    ||| c == '\u{85}'
    ||| c == '\u{a0}'
    ||| c == '\u{1680}'
    ||| '\u{2000}' <= c <= '\u{200a}'
    ||| c == '\u{2028}'
    ||| c == '\u{2029}'
    ||| c == '\u{202f}'
    ||| c == '\u{205f}'
    ||| c == '\u{3000}'
}

/// The Unicode general category `Cc`.
pub open spec fn control(c: char) -> bool {
    c <= '\u{1f}' || '\u{7f}' <= c <= '\u{9f}'
}

/// `char::is_whitespace`: true exactly on the characters that have the
/// `White_Space` property.
pub assume_specification[ char::is_whitespace ](c: char) -> (r: bool)
    ensures
        r == white_space(c),
;

/// `char::is_control`: true exactly on the characters of category `Cc`.
pub assume_specification[ char::is_control ](c: char) -> (r: bool)
    ensures
        r == control(c),
;

/// `String::push`: appends one character.
pub assume_specification[ String::push ](s: &mut String, c: char)
    ensures
        final(s)@ == old(s)@.push(c),
;

/// What `str::to_lowercase` returns.
pub uninterp spec fn lowercase(s: Seq<char>) -> Seq<char>;

/// `str::to_lowercase`: the Unicode lowercase mapping of the text, a function
/// of the text alone.
#[verifier::external_body]
pub(crate) fn to_lower(s: &str) -> (r: String)
    ensures
        r@ == lowercase(s@),
{
    s.to_lowercase()
}

/// The texts of a list of strings.
pub open spec fn texts(v: Seq<String>) -> Seq<Seq<char>> {
    v.map_values(|s: String| s@)
}

/// The characters of a text, as a vector.
pub fn chars_of(s: &str) -> (v: Vec<char>)
    ensures
        v@ == s@,
{
    let mut v: Vec<char> = Vec::new();
    for c in it: s.chars()
        invariant
            it.seq() == s@,
            v@ == s@.take(it.index()),
    {
        v.push(c);
    }
    v
}

/// The text of the characters from `from` up to (not including) `to`.
pub fn text_of(v: &Vec<char>, from: usize, to: usize) -> (r: String)
    requires
        from <= to <= v@.len(),
    ensures
        r@ == v@.subrange(from as int, to as int),
{
    let mut r = String::new();
    let mut i: usize = from;
    while i < to
        invariant
            from <= i <= to <= v@.len(),
            r@ == v@.subrange(from as int, i as int),
        decreases to - i,
    {
        r.push(v[i]);
        i = i + 1;
    }
    r
}

/// Two texts are the same.
pub fn same(a: &str, b: &str) -> (r: bool)
    ensures
        r == (a@ == b@),
{
    let x = chars_of(a);
    let y = chars_of(b);
    if x.len() != y.len() {
        return false;
    }
    let mut i: usize = 0;
    while i < x.len()
        invariant
            i <= x@.len(),
            x@.len() == y@.len(),
            x@ == a@,
            y@ == b@,
            forall|j: int| 0 <= j < i ==> x@[j] == y@[j],
        decreases x@.len() - i,
    {
        if x[i] != y[i] {
            return false;
        }
        i = i + 1;
    }
    assert(a@ =~= b@);
    true
}

/// `s` begins with `p`.
pub fn starts_with(s: &str, p: &str) -> (r: bool)
    ensures
        r == p@.is_prefix_of(s@),
{
    let x = chars_of(s);
    let y = chars_of(p);
    if y.len() > x.len() {
        return false;
    }
    let mut i: usize = 0;
    while i < y.len()
        invariant
            i <= y@.len() <= x@.len(),
            x@ == s@,
            y@ == p@,
            forall|j: int| 0 <= j < i ==> x@[j] == y@[j],
        decreases y@.len() - i,
    {
        if x[i] != y[i] {
            assert(s@.subrange(0, p@.len() as int)[i as int] != p@[i as int]);
            return false;
        }
        i = i + 1;
    }
    true
}

/// What follows the prefix `p`, if `s` begins with it.
pub open spec fn after_prefix(s: Seq<char>, p: Seq<char>) -> Option<Seq<char>> {
    if p.is_prefix_of(s) {
        Some(s.skip(p.len() as int))
    } else {
        None
    }
}

/// The view of an optional string.
pub open spec fn opt_text(o: Option<String>) -> Option<Seq<char>> {
    match o {
        Some(s) => Some(s@),
        None => None,
    }
}

/// What follows the prefix `p`, if `s` begins with it.
pub fn strip_prefix(s: &str, p: &str) -> (r: Option<String>)
    ensures
        opt_text(r) == after_prefix(s@, p@),
        r is Some <==> p@.is_prefix_of(s@),
        r matches Some(t) ==> s@ == p@ + t@,
{
    if starts_with(s, p) {
        let x = chars_of(s);
        let k = chars_of(p).len();
        let r = text_of(&x, k, x.len());
        assert(r@ =~= s@.skip(p@.len() as int));
        assert(s@ =~= p@ + r@);
        Some(r)
    } else {
        None
    }
}

/// The first position at or after `i` that holds `c`; the length if none does.
pub open spec fn index_from(s: Seq<char>, c: char, i: int) -> int
    decreases s.len() - i,
{
    if i >= s.len() {
        s.len() as int
    } else if s[i] == c {
        i
    } else {
        index_from(s, c, i + 1)
    }
}

/// The first `c` in `a`, a `c`, and `b`, where `a` has none, is the one between
/// them.
pub proof fn lemma_index_of(a: Seq<char>, b: Seq<char>, c: char, i: int)
    requires
        0 <= i <= a.len(),
        forall|j: int| 0 <= j < a.len() ==> a[j] != c,
    ensures
        index_from(a + seq![c] + b, c, i) == a.len(),
        index_from(a, c, i) == a.len(),
    decreases a.len() - i,
{
    let s = a + seq![c] + b;
    if i == a.len() {
        assert(s[i] == c);
    } else {
        assert(s[i] == a[i]);
        lemma_index_of(a, b, c, i + 1);
    }
}

/// The part of `s` before the first `c`; all of it if there is none.
pub open spec fn before_first(s: Seq<char>, c: char) -> Seq<char> {
    s.take(index_from(s, c, 0))
}

/// The part of a text before the first `c`.
pub fn before_char(s: &str, c: char) -> (r: String)
    ensures
        r@ == before_first(s@, c),
        r@.is_prefix_of(s@),
        !r@.contains(c),
        r@.len() < s@.len() ==> s@[r@.len() as int] == c,
{
    let x = chars_of(s);
    let mut i: usize = 0;
    while i < x.len() && x[i] != c
        invariant
            i <= x@.len(),
            x@ == s@,
            index_from(s@, c, 0) == index_from(s@, c, i as int),
            forall|j: int| 0 <= j < i ==> s@[j] != c,
        decreases x@.len() - i,
    {
        i = i + 1;
    }
    let r = text_of(&x, 0, i);
    assert(r@ =~= s@.take(i as int));
    assert(r@ =~= s@.subrange(0, r@.len() as int));
    r
}

/// `p` stands in `s` at position `i`.
pub open spec fn stands_at(s: Seq<char>, p: Seq<char>, i: int) -> bool {
    0 <= i && i + p.len() <= s.len() && s.subrange(i, i + p.len()) == p
}

/// `p` stands somewhere in `s`.
pub open spec fn contains_text(s: Seq<char>, p: Seq<char>) -> bool {
    exists|i: int| stands_at(s, p, i)
}

/// The first position at or after `i` where `p` stands in `s`.
pub open spec fn find_from(s: Seq<char>, p: Seq<char>, i: int) -> Option<int>
    decreases s.len() + 1 - i,
{
    if i < 0 || i + p.len() > s.len() {
        None
    } else if stands_at(s, p, i) {
        Some(i)
    } else {
        find_from(s, p, i + 1)
    }
}

/// `find_from` finds a place exactly when there is one.
pub proof fn lemma_find_from(s: Seq<char>, p: Seq<char>, i: int)
    requires
        0 <= i,
    ensures
        find_from(s, p, i) is Some <==> exists|j: int| i <= j && stands_at(s, p, j),
        find_from(s, p, i) matches Some(k) ==> i <= k && stands_at(s, p, k),
    decreases s.len() + 1 - i,
{
    if i + p.len() > s.len() {
        assert forall|j: int| i <= j implies !stands_at(s, p, j) by {}
    } else if stands_at(s, p, i) {
    } else {
        lemma_find_from(s, p, i + 1);
        if exists|j: int| i <= j && stands_at(s, p, j) {
            let j = choose|j: int| i <= j && stands_at(s, p, j);
            assert(i + 1 <= j);
        }
    }
}

/// The first position where `p` stands in `s`.
pub fn find_text(s: &str, p: &str) -> (r: Option<usize>)
    ensures
        r is Some <==> find_from(s@, p@, 0) is Some,
        r matches Some(i) ==> find_from(s@, p@, 0) == Some(i as int),
        r is Some <==> contains_text(s@, p@),
        r matches Some(i) ==> stands_at(s@, p@, i as int) && forall|j: int|
            0 <= j < i ==> !#[trigger] stands_at(s@, p@, j),
{
    let x = chars_of(s);
    let y = chars_of(p);
    proof {
        lemma_find_from(s@, p@, 0);
        assert(contains_text(s@, p@) ==> exists|j: int| 0 <= j && stands_at(s@, p@, j));
    }
    if y.len() > x.len() {
        return None;
    }
    let last: usize = x.len() - y.len();
    let mut i: usize = 0;
    while i <= last
        invariant
            x@ == s@,
            y@ == p@,
            y@.len() <= x@.len(),
            last == x@.len() - y@.len(),
            i <= last + 1,
            x@.len() <= usize::MAX,
            find_from(s@, p@, 0) == find_from(s@, p@, i as int),
            find_from(s@, p@, 0) is Some <==> contains_text(s@, p@),
            forall|j: int| 0 <= j < i ==> !#[trigger] stands_at(s@, p@, j),
        decreases last + 1 - i,
    {
        let mut j: usize = 0;
        let mut ok: bool = true;
        while j < y.len() && ok
            invariant
                x@ == s@,
                y@ == p@,
                i + y@.len() <= x@.len() <= usize::MAX,
                j <= y@.len(),
                ok ==> forall|k: int| 0 <= k < j ==> x@[i + k] == y@[k],
                !ok ==> exists|k: int| 0 <= k < y@.len() && x@[i + k] != #[trigger] y@[k],
            decreases y@.len() - j + (if ok { 1int } else { 0int }),
        {
            if x[i + j] != y[j] {
                ok = false;
            } else {
                j = j + 1;
            }
        }
        if ok {
            assert(s@.subrange(i as int, i + p@.len()) =~= p@);
            return Some(i);
        }
        assert(!stands_at(s@, p@, i as int)) by {
            let k = choose|k: int| 0 <= k < y@.len() && x@[i + k] != #[trigger] y@[k];
            assert(s@.subrange(i as int, i + p@.len())[k] != p@[k]);
        }
        if i == last {
            assert(find_from(s@, p@, i + 1) is None);
            return None;
        }
        i = i + 1;
    }
    None
}

/// Where a text is cut: at one character, at every white-space character, or at
/// both slashes.
#[derive(Clone, Copy)]
pub enum Sep {
    Char(char),
    White,
    Slashes,
}

/// `c` is a place to cut.
pub open spec fn cuts(sep: Sep, c: char) -> bool {
    match sep {
        Sep::Char(d) => c == d,
        Sep::White => white_space(c),
        Sep::Slashes => c == '/' || c == '\\',
    }
}

/// The first place to cut at or after `i`; the length if there is none.
pub open spec fn cut_from(s: Seq<char>, sep: Sep, i: int) -> int
    decreases s.len() - i,
{
    if i >= s.len() {
        s.len() as int
    } else if cuts(sep, s[i]) {
        i
    } else {
        cut_from(s, sep, i + 1)
    }
}

/// `cut_from` finds the first place to cut.
pub proof fn lemma_cut_from(s: Seq<char>, sep: Sep, i: int)
    requires
        0 <= i <= s.len(),
    ensures
        i <= cut_from(s, sep, i) <= s.len(),
        forall|j: int| i <= j < cut_from(s, sep, i) ==> !cuts(sep, #[trigger] s[j]),
        cut_from(s, sep, i) < s.len() ==> cuts(sep, s[cut_from(s, sep, i)]),
    decreases s.len() - i,
{
    if i < s.len() && !cuts(sep, s[i]) {
        lemma_cut_from(s, sep, i + 1);
    }
}

/// There is only one first place to cut.
pub proof fn lemma_cut_at(s: Seq<char>, sep: Sep, i: int, k: int)
    requires
        0 <= i <= k < s.len(),
        forall|j: int| i <= j < k ==> !cuts(sep, #[trigger] s[j]),
        cuts(sep, s[k]),
    ensures
        cut_from(s, sep, i) == k,
    decreases k - i,
{
    if i < k {
        lemma_cut_at(s, sep, i + 1, k);
    }
}

/// The first place to cut at or after `i`.
pub fn find_cut(x: &Vec<char>, sep: Sep, i: usize) -> (r: usize)
    requires
        i <= x@.len(),
    ensures
        r == cut_from(x@, sep, i as int),
        i <= r <= x@.len(),
{
    let mut k: usize = i;
    while k < x.len() && !is_cut(sep, x[k])
        invariant
            i <= k <= x@.len(),
            cut_from(x@, sep, i as int) == cut_from(x@, sep, k as int),
        decreases x@.len() - k,
    {
        k = k + 1;
    }
    k
}

/// `c` is a place to cut.
pub fn is_cut(sep: Sep, c: char) -> (r: bool)
    ensures
        r == cuts(sep, c),
        sep matches Sep::Char(d) ==> (r <==> c == d),
        sep is Slashes ==> (r <==> c == '/' || c == '\\'),
{
    match sep {
        Sep::Char(d) => c == d,
        Sep::White => c.is_whitespace(),
        Sep::Slashes => c == '/' || c == '\\',
    }
}

/// The pieces between the places to cut: one more than there are such places.
pub open spec fn split(s: Seq<char>, sep: Sep) -> Seq<Seq<char>>
    decreases s.len(),
{
    if s.len() == 0 {
        seq![Seq::<char>::empty()]
    } else {
        let before = split(s.drop_last(), sep);
        if cuts(sep, s.last()) {
            before.push(Seq::empty())
        } else {
            before.update(before.len() - 1, before.last().push(s.last()))
        }
    }
}

/// A split has at least one piece, and no piece holds a place to cut.
pub proof fn lemma_split(s: Seq<char>, sep: Sep)
    ensures
        split(s, sep).len() >= 1,
        forall|i: int, j: int|
            0 <= i < split(s, sep).len() && 0 <= j < split(s, sep)[i].len() ==> !cuts(
                sep,
                #[trigger] split(s, sep)[i][j],
            ),
    decreases s.len(),
{
    if s.len() > 0 {
        lemma_split(s.drop_last(), sep);
    }
}

/// Cuts a text.
pub fn split_text(s: &str, sep: Sep) -> (r: Vec<String>)
    ensures
        texts(r@) == split(s@, sep),
        r@.len() >= 1,
{
    let x = chars_of(s);
    let mut done: Vec<String> = Vec::new();
    let mut cur = String::new();
    let mut i: usize = 0;
    assert(texts(done@).push(cur@) =~= split(s@.take(0), sep));
    while i < x.len()
        invariant
            i <= x@.len(),
            x@ == s@,
            texts(done@).push(cur@) == split(s@.take(i as int), sep),
        decreases x@.len() - i,
    {
        let c = x[i];
        let cut: bool = is_cut(sep, c);
        let ghost before = split(s@.take(i as int), sep);
        proof {
            assert(s@.take(i + 1).drop_last() =~= s@.take(i as int));
        }
        if cut {
            let ghost d0 = done@;
            let ghost c0 = cur@;
            done.push(cur);
            cur = String::new();
            assert(texts(done@) =~= texts(d0).push(c0));
            assert(texts(done@).push(cur@) =~= split(s@.take(i + 1), sep));
        } else {
            let ghost c0 = cur@;
            cur.push(c);
            assert(before.last() == c0);
            assert(texts(done@).push(cur@) =~= before.update(before.len() - 1, c0.push(c)));
        }
        i = i + 1;
    }
    let ghost d0 = done@;
    let ghost c0 = cur@;
    done.push(cur);
    proof {
        assert(s@.take(s@.len() as int) =~= s@);
        assert(texts(done@) =~= texts(d0).push(c0));
    }
    done
}

/// The pieces that are not empty, in order.
pub open spec fn nonempty(parts: Seq<Seq<char>>) -> Seq<Seq<char>>
    decreases parts.len(),
{
    if parts.len() == 0 {
        Seq::empty()
    } else if parts.last().len() == 0 {
        nonempty(parts.drop_last())
    } else {
        nonempty(parts.drop_last()).push(parts.last())
    }
}

/// The words of a text: what stands between runs of white space.
pub open spec fn words(s: Seq<char>) -> Seq<Seq<char>> {
    nonempty(split(s, Sep::White))
}

/// Keeps the strings that are not empty.
pub fn keep_nonempty(parts: Vec<String>) -> (r: Vec<String>)
    ensures
        texts(r@) == nonempty(texts(parts@)),
{
    let mut r: Vec<String> = Vec::new();
    let mut i: usize = 0;
    assert(texts(r@) =~= nonempty(texts(parts@).take(0)));
    while i < parts.len()
        invariant
            i <= parts@.len(),
            texts(r@) == nonempty(texts(parts@).take(i as int)),
        decreases parts@.len() - i,
    {
        let ghost r0 = r@;
        proof {
            assert(texts(parts@).take(i + 1).drop_last() =~= texts(parts@).take(i as int));
            assert(texts(parts@).take(i + 1).last() == parts@[i as int]@);
        }
        if !parts[i].as_str().is_empty() {
            let w = parts[i].clone();
            r.push(w);
            assert(texts(r@) =~= texts(r0).push(parts@[i as int]@));
        }
        i = i + 1;
    }
    assert(texts(parts@).take(parts@.len() as int) =~= texts(parts@));
    r
}

/// The words of a text.
pub fn split_words(s: &str) -> (r: Vec<String>)
    ensures
        texts(r@) == words(s@),
{
    keep_nonempty(split_text(s, Sep::White))
}

/// A line without the carriage return before its line feed.
pub open spec fn without_cr(s: Seq<char>) -> Seq<char> {
    if s.len() > 0 && s.last() == '\r' {
        s.drop_last()
    } else {
        s
    }
}

/// The lines of a text: each ends in a line feed, which a carriage return may
/// precede; the last one may lack its line feed.
pub open spec fn lines(s: Seq<char>) -> Seq<Seq<char>> {
    let pieces = split(s, Sep::Char('\n'));
    let ended = pieces.drop_last().map_values(|l: Seq<char>| without_cr(l));
    if pieces.last().len() == 0 {
        ended
    } else {
        ended.push(pieces.last())
    }
}

/// The lines of a text.
pub fn split_lines(s: &str) -> (r: Vec<String>)
    ensures
        texts(r@) == lines(s@),
{
    let pieces = split_text(s, Sep::Char('\n'));
    let ghost ps = split(s@, Sep::Char('\n'));
    let mut r: Vec<String> = Vec::new();
    let mut i: usize = 0;
    let last: usize = pieces.len() - 1;
    while i < last
        invariant
            i <= last,
            last + 1 == pieces@.len(),
            texts(pieces@) == ps,
            texts(r@) == ps.take(i as int).map_values(|l: Seq<char>| without_cr(l)),
        decreases last - i,
    {
        let x = chars_of(pieces[i].as_str());
        assert(x@ == ps[i as int]);
        let ghost r0 = r@;
        let n = x.len();
        let line = if n > 0 && x[n - 1] == '\r' {
            text_of(&x, 0, n - 1)
        } else {
            text_of(&x, 0, n)
        };
        assert(line@ =~= without_cr(ps[i as int]));
        r.push(line);
        assert(texts(r@) =~= texts(r0).push(without_cr(ps[i as int])));
        assert(ps.take(i + 1).map_values(|l: Seq<char>| without_cr(l)) =~= ps.take(
            i as int,
        ).map_values(|l: Seq<char>| without_cr(l)).push(without_cr(ps[i as int])));
        i = i + 1;
    }
    assert(ps.take(last as int) =~= ps.drop_last());
    if !pieces[last].as_str().is_empty() {
        let ghost r0 = r@;
        r.push(pieces[last].clone());
        assert(texts(r@) =~= texts(r0).push(ps.last()));
    } else {
        assert(ps.last().len() == 0);
    }
    r
}

/// A text without the white space at its start.
pub open spec fn trim_start(s: Seq<char>) -> Seq<char>
    decreases s.len(),
{
    if s.len() > 0 && white_space(s.first()) {
        trim_start(s.drop_first())
    } else {
        s
    }
}

/// A text without the white space at its end.
pub open spec fn trim_end(s: Seq<char>) -> Seq<char>
    decreases s.len(),
{
    if s.len() > 0 && white_space(s.last()) {
        trim_end(s.drop_last())
    } else {
        s
    }
}

/// A text without the white space at both ends.
pub open spec fn trim(s: Seq<char>) -> Seq<char> {
    trim_end(trim_start(s))
}

/// A text that neither begins nor ends with white space is its own trim.
pub proof fn lemma_trim_same(s: Seq<char>)
    requires
        s.len() > 0 ==> !white_space(s.first()) && !white_space(s.last()),
    ensures
        trim(s) == s,
{
}

/// A text without the white space at both ends.
pub fn trim_text(s: &str) -> (r: String)
    ensures
        r@ == trim(s@),
{
    let x = chars_of(s);
    let mut a: usize = 0;
    assert(s@.skip(0) =~= s@);
    while a < x.len() && x[a].is_whitespace()
        invariant
            a <= x@.len(),
            x@ == s@,
            trim_start(s@) == trim_start(s@.skip(a as int)),
        decreases x@.len() - a,
    {
        assert(s@.skip(a as int).drop_first() =~= s@.skip(a + 1));
        a = a + 1;
    }
    let ghost t = s@.skip(a as int);
    assert(trim_start(s@) == t);
    let mut b: usize = x.len();
    assert(s@.subrange(a as int, b as int) =~= t);
    while b > a && x[b - 1].is_whitespace()
        invariant
            a <= b <= x@.len(),
            x@ == s@,
            trim_end(t) == trim_end(s@.subrange(a as int, b as int)),
        decreases b,
    {
        assert(s@.subrange(a as int, b as int).drop_last() =~= s@.subrange(a as int, b - 1));
        b = b - 1;
    }
    text_of(&x, a, b)
}

/// The parts with `sep` between each two.
pub open spec fn join(parts: Seq<Seq<char>>, sep: Seq<char>) -> Seq<char>
    decreases parts.len(),
{
    if parts.len() == 0 {
        Seq::empty()
    } else if parts.len() == 1 {
        parts[0]
    } else {
        join(parts.drop_last(), sep) + sep + parts.last()
    }
}

/// The parts with `sep` between each two.
pub fn join_text(parts: &Vec<String>, sep: &str) -> (r: String)
    ensures
        r@ == join(texts(parts@), sep@),
{
    let mut r = String::new();
    let mut i: usize = 0;
    assert(r@ =~= join(texts(parts@).take(0), sep@));
    while i < parts.len()
        invariant
            i <= parts@.len(),
            r@ == join(texts(parts@).take(i as int), sep@),
        decreases parts@.len() - i,
    {
        proof {
            assert(texts(parts@).take(i + 1).drop_last() =~= texts(parts@).take(i as int));
            assert(texts(parts@).take(i + 1).last() == parts@[i as int]@);
        }
        if i > 0 {
            r.append(sep);
            r.append(parts[i].as_str());
        } else {
            r.append(parts[i].as_str());
            assert(r@ =~= parts@[0]@);
        }
        i = i + 1;
    }
    assert(texts(parts@).take(parts@.len() as int) =~= texts(parts@));
    r
}

/// A text with every `c` written as `by`.
pub open spec fn replaced(s: Seq<char>, c: char, by: Seq<char>) -> Seq<char>
    decreases s.len(),
{
    if s.len() == 0 {
        Seq::empty()
    } else if s.last() == c {
        replaced(s.drop_last(), c, by) + by
    } else {
        replaced(s.drop_last(), c, by).push(s.last())
    }
}

/// A text with every `c` written as `by`.
pub fn replace_char(s: &str, c: char, by: &str) -> (r: String)
    ensures
        r@ == replaced(s@, c, by@),
{
    let x = chars_of(s);
    let mut r = String::new();
    let mut i: usize = 0;
    while i < x.len()
        invariant
            i <= x@.len(),
            x@ == s@,
            r@ == replaced(s@.take(i as int), c, by@),
        decreases x@.len() - i,
    {
        assert(s@.take(i + 1).drop_last() =~= s@.take(i as int));
        if x[i] == c {
            r.append(by);
        } else {
            r.push(x[i]);
        }
        i = i + 1;
    }
    assert(s@.take(s@.len() as int) =~= s@);
    r
}

/// One of the strings has the text `w`.
pub fn has_text(v: &Vec<String>, w: &str) -> (r: bool)
    ensures
        r == texts(v@).contains(w@),
{
    let mut i: usize = 0;
    while i < v.len()
        invariant
            i <= v@.len(),
            forall|j: int| 0 <= j < i ==> v@[j]@ != w@,
        decreases v@.len() - i,
    {
        if same(v[i].as_str(), w) {
            assert(texts(v@)[i as int] == w@);
            return true;
        }
        i = i + 1;
    }
    assert forall|j: int| 0 <= j < texts(v@).len() implies texts(v@)[j] != w@ by {
        assert(texts(v@)[j] == v@[j]@);
    }
    false
}

/// A text that is cut at a character is put together again by it, so nothing is
/// lost, moved or added; and no piece holds the character.
pub proof fn law_split_and_join(s: Seq<char>, c: char)
    ensures
        join(split(s, Sep::Char(c)), seq![c]) == s,
        forall|i: int|
            0 <= i < split(s, Sep::Char(c)).len() ==> !(#[trigger] split(s, Sep::Char(c))[i]).contains(
                c,
            ),
    decreases s.len(),
{
    let sep = Sep::Char(c);
    let ps = split(s, sep);
    lemma_split(s, sep);
    assert forall|i: int| 0 <= i < ps.len() implies !(#[trigger] ps[i]).contains(c) by {
        if ps[i].contains(c) {
            let j = choose|j: int| 0 <= j < ps[i].len() && ps[i][j] == c;
            assert(!cuts(sep, ps[i][j]));
        }
    }
    if s.len() == 0 {
        assert(join(ps, seq![c]) =~= s);
    } else {
        let s0 = s.drop_last();
        law_split_and_join(s0, c);
        lemma_split(s0, sep);
        let p0 = split(s0, sep);
        if s.last() == c {
            assert(ps.drop_last() =~= p0);
            assert(join(ps, seq![c]) =~= s0 + seq![c] + Seq::<char>::empty());
            assert(s =~= s0 + seq![c]);
        } else {
            assert(ps.drop_last() =~= p0.drop_last());
            if p0.len() == 1 {
                assert(join(ps, seq![c]) =~= p0[0].push(s.last()));
            } else {
                let front = join(p0.drop_last(), seq![c]) + seq![c];
                assert(join(ps, seq![c]) =~= (front + p0.last()).push(s.last()));
            }
            assert(s =~= s0.push(s.last()));
        }
    }
}

/// One text stands in another if and only if that is made of it and what stands
/// before and behind it.
pub proof fn law_contains_text(s: Seq<char>, p: Seq<char>)
    ensures
        contains_text(s, p) <==> exists|a: Seq<char>, b: Seq<char>| s == #[trigger] (a + p + b),
{
    if contains_text(s, p) {
        let i = choose|i: int| stands_at(s, p, i);
        let (a, b) = (s.take(i), s.skip(i + p.len()));
        assert(s.subrange(i, i + p.len()) =~= p);
        assert(s =~= a + s.subrange(i, i + p.len()) + b);
        assert(s == a + p + b);
    }
    if exists|a: Seq<char>, b: Seq<char>| s == #[trigger] (a + p + b) {
        let (a, b) = choose|a: Seq<char>, b: Seq<char>| s == #[trigger] (a + p + b);
        let i = a.len() as int;
        assert(s.subrange(i, i + p.len()) =~= p);
        assert(stands_at(s, p, i));
    }
}

/// Parts are put together with the separator between each two, and nothing else.
pub proof fn law_join(ps: Seq<Seq<char>>, x: Seq<char>, sep: Seq<char>)
    ensures
        join(Seq::<Seq<char>>::empty(), sep) == Seq::<char>::empty(),
        join(seq![x], sep) == x,
        ps.len() > 0 ==> join(ps.push(x), sep) == join(ps, sep) + sep + x,
{
    assert(ps.push(x).drop_last() =~= ps);
}

/// What is kept of a list of texts is those that are not empty, in their order.
pub proof fn law_nonempty(ps: Seq<Seq<char>>)
    ensures
        nonempty(ps) == ps.filter(|p: Seq<char>| p.len() > 0),
    decreases ps.len(),
{
    reveal(Seq::filter);
    if ps.len() > 0 {
        law_nonempty(ps.drop_last());
    }
    assert(nonempty(ps) =~= ps.filter(|p: Seq<char>| p.len() > 0));
}

/// A text without the white space at its ends is what is left of it: a part of the
/// text, before and behind which there is only white space, and which neither
/// begins nor ends with any.
pub proof fn law_trim(s: Seq<char>)
    ensures
        exists|a: int, b: int|
            #![trigger s.subrange(a, b)]
            0 <= a <= b <= s.len() && trim(s) == s.subrange(a, b) && (forall|i: int|
                (0 <= i < a || b <= i < s.len()) ==> white_space(#[trigger] s[i])),
        trim(s).len() > 0 ==> !white_space(trim(s).first()) && !white_space(trim(s).last()),
{
    lemma_trim_start(s);
    let t = trim_start(s);
    lemma_trim_end(t);
    let a = s.len() - t.len();
    let b = a + trim_end(t).len();
    assert(s.subrange(a, b) =~= trim(s));
    assert forall|i: int| (0 <= i < a || b <= i < s.len()) implies white_space(#[trigger] s[i]) by {
        if i >= b {
            assert(t[i - a] == s[i]);
        }
    }
    if trim(s).len() > 0 {
        assert(trim(s).first() == t.first());
    }
}

proof fn lemma_trim_start(s: Seq<char>)
    ensures
        trim_start(s).len() <= s.len(),
        trim_start(s) == s.skip(s.len() - trim_start(s).len()),
        forall|i: int| 0 <= i < s.len() - trim_start(s).len() ==> white_space(#[trigger] s[i]),
        trim_start(s).len() > 0 ==> !white_space(trim_start(s).first()),
    decreases s.len(),
{
    if s.len() > 0 && white_space(s.first()) {
        let r = s.drop_first();
        lemma_trim_start(r);
        assert(trim_start(s) =~= s.skip(s.len() - trim_start(s).len()));
        assert forall|i: int| 0 <= i < s.len() - trim_start(s).len() implies white_space(
            #[trigger] s[i],
        ) by {
            if i > 0 {
                assert(r[i - 1] == s[i]);
            }
        }
    } else {
        assert(s.skip(0) =~= s);
    }
}

proof fn lemma_trim_end(s: Seq<char>)
    ensures
        trim_end(s).len() <= s.len(),
        trim_end(s) == s.take(trim_end(s).len() as int),
        forall|i: int| trim_end(s).len() <= i < s.len() ==> white_space(#[trigger] s[i]),
        trim_end(s).len() > 0 ==> !white_space(trim_end(s).last()),
    decreases s.len(),
{
    if s.len() > 0 && white_space(s.last()) {
        let r = s.drop_last();
        lemma_trim_end(r);
        assert(trim_end(s) =~= s.take(trim_end(s).len() as int));
        assert forall|i: int| trim_end(s).len() <= i < s.len() implies white_space(
            #[trigger] s[i],
        ) by {
            if i < s.len() - 1 {
                assert(r[i] == s[i]);
            }
        }
    } else {
        assert(s.take(s.len() as int) =~= s);
    }
}

/// The words of a text are not empty and hold no white space, and each of its
/// characters that is no white space stands in one of them, in the same order.
pub proof fn law_words(s: Seq<char>)
    ensures
        forall|i: int|
            0 <= i < words(s).len() ==> (#[trigger] words(s)[i]).len() > 0,
        forall|i: int, j: int|
            0 <= i < words(s).len() && 0 <= j < words(s)[i].len() ==> !white_space(
                #[trigger] words(s)[i][j],
            ),
        join(words(s), Seq::<char>::empty()) == s.filter(|c: char| !white_space(c)),
{
    lemma_split(s, Sep::White);
    lemma_nonempty(split(s, Sep::White));
    lemma_pieces_joined(s);
}

proof fn lemma_nonempty(ps: Seq<Seq<char>>)
    ensures
        forall|i: int|
            0 <= i < nonempty(ps).len() ==> (#[trigger] nonempty(ps)[i]).len() > 0 && ps.contains(
                nonempty(ps)[i],
            ),
        join(nonempty(ps), Seq::<char>::empty()) == join(ps, Seq::<char>::empty()),
    decreases ps.len(),
{
    let none = Seq::<char>::empty();
    if ps.len() > 0 {
        let p0 = ps.drop_last();
        lemma_nonempty(p0);
        let (a, b) = (nonempty(p0), nonempty(ps));
        assert forall|i: int| 0 <= i < b.len() implies (#[trigger] b[i]).len() > 0 && ps.contains(
            b[i],
        ) by {
            if i < a.len() {
                assert(b[i] == a[i]);
                let j = choose|j: int| 0 <= j < p0.len() && p0[j] == a[i];
                assert(ps[j] == a[i]);
            } else {
                assert(ps[ps.len() - 1] == b[i]);
            }
        }
        lemma_join_none(ps);
        if ps.last().len() > 0 {
            assert(b.drop_last() =~= a);
            lemma_join_none(b);
        } else {
            assert(ps.last() =~= none);
            assert(join(p0, none) + none =~= join(p0, none));
        }
    }
}

proof fn lemma_join_none(ps: Seq<Seq<char>>)
    requires
        ps.len() > 0,
    ensures
        join(ps, Seq::<char>::empty()) == join(ps.drop_last(), Seq::<char>::empty()) + ps.last(),
{
    let none = Seq::<char>::empty();
    if ps.len() == 1 {
        assert(none + ps.last() =~= ps[0]);
    } else {
        assert(join(ps.drop_last(), none) + none =~= join(ps.drop_last(), none));
    }
}

proof fn lemma_pieces_joined(s: Seq<char>)
    ensures
        join(split(s, Sep::White), Seq::<char>::empty()) == s.filter(|c: char| !white_space(c)),
    decreases s.len(),
{
    let none = Seq::<char>::empty();
    reveal(Seq::filter);
    let ps = split(s, Sep::White);
    if s.len() == 0 {
        assert(join(ps, none) =~= none);
    } else {
        let s0 = s.drop_last();
        lemma_pieces_joined(s0);
        lemma_split(s0, Sep::White);
        let p0 = split(s0, Sep::White);
        lemma_join_none(ps);
        lemma_join_none(p0);
        if white_space(s.last()) {
            assert(ps.drop_last() =~= p0);
            assert(join(p0, none) + none =~= join(p0, none));
        } else {
            assert(ps.drop_last() =~= p0.drop_last());
            assert(join(ps, none) =~= join(p0, none).push(s.last()));
        }
    }
}

/// A text in which one character is written otherwise: what is written for two
/// texts together is what is written for each, another character stays, and the
/// character itself becomes its replacement.
pub proof fn law_replaced(a: Seq<char>, b: Seq<char>, c: char, d: char, by: Seq<char>)
    ensures
        replaced(Seq::<char>::empty(), c, by) == Seq::<char>::empty(),
        replaced(a + b, c, by) == replaced(a, c, by) + replaced(b, c, by),
        replaced(seq![c], c, by) == by,
        d != c ==> replaced(seq![d], c, by) == seq![d],
    decreases b.len(),
{
    let none = Seq::<char>::empty();
    assert(seq![c].drop_last() =~= none && seq![d].drop_last() =~= none);
    assert(seq![c].last() == c && seq![d].last() == d);
    assert(replaced(none, c, by) =~= none);
    assert(replaced(seq![c], c, by) =~= replaced(seq![c].drop_last(), c, by) + by);
    assert(none + by =~= by);
    assert(d != c ==> replaced(seq![d], c, by) =~= seq![d]);
    if b.len() > 0 {
        law_replaced(a, b.drop_last(), c, d, by);
        assert((a + b).drop_last() =~= a + b.drop_last());
        assert((a + b).last() == b.last());
    } else {
        assert(a + b =~= a);
    }
    assert(replaced(a + b, c, by) =~= replaced(a, c, by) + replaced(b, c, by));
}

/// The lines of a text: behind a line feed the next line begins, whether or not a
/// carriage return stands before it, and what stands behind the last line feed is a
/// line where it is not empty.
pub proof fn law_lines(a: Seq<char>, b: Seq<char>)
    requires
        !a.contains('\n'),
    ensures
        lines(Seq::<char>::empty()) == Seq::<Seq<char>>::empty(),
        a.len() > 0 ==> lines(a) == seq![a],
        a.len() == 0 || a.last() != '\r' ==> lines(a + seq!['\n'] + b) == seq![a] + lines(b),
        a.len() > 0 && a.last() == '\r' ==> lines(a + seq!['\n'] + b) == seq![a.drop_last()] + lines(
            b,
        ),
{
    let sep = Sep::Char('\n');
    let none = Seq::<char>::empty();
    assert(split(none, sep) =~= seq![none]);
    assert(lines(none) =~= Seq::<Seq<char>>::empty());
    lemma_split_one(a, '\n');
    assert(a.len() > 0 ==> lines(a) =~= seq![a]);
    lemma_split_around(a, b, '\n');
    lemma_split(b, sep);
    let pb = split(b, sep);
    let ps = split(a + seq!['\n'] + b, sep);
    let f = |l: Seq<char>| without_cr(l);
    assert(ps.last() == pb.last());
    assert(ps.drop_last() =~= seq![a] + pb.drop_last());
    assert(ps.drop_last().map_values(f) =~= seq![without_cr(a)] + pb.drop_last().map_values(f));
    assert(lines(a + seq!['\n'] + b) =~= seq![without_cr(a)] + lines(b));
}

proof fn lemma_split_one(a: Seq<char>, c: char)
    requires
        !a.contains(c),
    ensures
        split(a, Sep::Char(c)) == seq![a],
    decreases a.len(),
{
    if a.len() > 0 {
        let a0 = a.drop_last();
        assert(!a0.contains(c)) by {
            if a0.contains(c) {
                let k = choose|k: int| 0 <= k < a0.len() && a0[k] == c;
                assert(a[k] == c);
            }
        }
        lemma_split_one(a0, c);
        assert(a[a.len() - 1] == a.last());
        assert(a0.push(a.last()) =~= a);
        assert(split(a, Sep::Char(c)) =~= seq![a]);
    } else {
        assert(a =~= Seq::<char>::empty());
        assert(split(a, Sep::Char(c)) =~= seq![a]);
    }
}

proof fn lemma_split_around(a: Seq<char>, b: Seq<char>, c: char)
    requires
        !a.contains(c),
    ensures
        split(a + seq![c] + b, Sep::Char(c)) == seq![a] + split(b, Sep::Char(c)),
    decreases b.len(),
{
    let sep = Sep::Char(c);
    let s = a + seq![c] + b;
    if b.len() == 0 {
        lemma_split_one(a, c);
        assert(s.drop_last() =~= a);
        assert(s.last() == c);
        assert(b =~= Seq::<char>::empty());
        assert(split(s, sep) =~= seq![a] + split(b, sep));
    } else {
        let b0 = b.drop_last();
        lemma_split_around(a, b0, c);
        lemma_split(b0, sep);
        assert(s.drop_last() =~= a + seq![c] + b0);
        assert(s.last() == b.last());
        assert(split(s, sep) =~= seq![a] + split(b, sep));
    }
}

/// Two texts put together.
pub fn cat2(a: &str, b: &str) -> (r: String)
    ensures
        r@ == a@ + b@,
{
    a.to_owned().concat(b)
}

/// Three texts put together.
pub fn cat3(a: &str, b: &str, c: &str) -> (r: String)
    ensures
        r@ == a@ + b@ + c@,
{
    a.to_owned().concat(b).concat(c)
}

/// Four texts put together.
pub fn cat4(a: &str, b: &str, c: &str, d: &str) -> (r: String)
    ensures
        r@ == a@ + b@ + c@ + d@,
{
    a.to_owned().concat(b).concat(c).concat(d)
}

/// Five texts put together.
pub fn cat5(a: &str, b: &str, c: &str, d: &str, e: &str) -> (r: String)
    ensures
        r@ == a@ + b@ + c@ + d@ + e@,
{
    a.to_owned().concat(b).concat(c).concat(d).concat(e)
}

/// Adds a line to a report.
pub fn put(lines: &mut Vec<String>, line: String)
    ensures
        texts(final(lines)@) == texts(old(lines)@).push(line@),
{
    let ghost l0 = lines@;
    lines.push(line);
    assert(texts(lines@) =~= texts(l0).push(line@));
}

} // verus!
