//! Paths as text, as the host reads them.
//!
//! Everywhere but on Windows, `/` parts the components, and a leading `/` is the
//! root. On Windows both slashes part them, and a path may begin with a prefix: a
//! drive (`C:`), a server and its share (`\\server\share`), a device
//! (`\\.\COM1`), or one of these written verbatim (`\\?\C:`), after which only
//! the backslash parts.

use vstd::prelude::*;
use crate::host::HostOs;
use crate::text;
use crate::text::{
    cat2, chars_of, find_cut, is_cut, join_text, replace_char, same, split_text, text_of, Sep,
};

verus! {

/// The prefixes of a path on Windows.
#[derive(Clone, Copy, Debug, PartialEq, Eq, Structural)]
pub enum PrefixKind {
    Drive,
    Share,
    Device,
    Verbatim,
}

/// A component of a path.
pub enum Part {
    /// A prefix, the same for all its spellings: slashes turned one way, and the
    /// letter of a drive in upper case.
    Prefix(PrefixKind, Seq<char>),
    Root,
    /// The current directory.
    Current,
    /// The parent directory.
    Parent,
    Name(Seq<char>),
}

/// A component of a path.
#[derive(Debug)]
pub enum Component {
    Prefix(PrefixKind, String),
    Root,
    Current,
    Parent,
    Name(String),
}

impl View for Component {
    type V = Part;

    open spec fn view(&self) -> Part {
        match self {
            Component::Prefix(k, t) => Part::Prefix(*k, t@),
            Component::Root => Part::Root,
            Component::Current => Part::Current,
            Component::Parent => Part::Parent,
            Component::Name(n) => Part::Name(n@),
        }
    }
}

/// The components of a list.
pub open spec fn parts(v: Seq<Component>) -> Seq<Part> {
    v.map_values(|c: Component| c@)
}

/// A slash of either kind.
pub open spec fn slash(c: char) -> bool {
    c == '/' || c == '\\'
}

/// The letters of drives.
pub open spec fn letter(c: char) -> bool {
    'a' <= c <= 'z' || 'A' <= c <= 'Z'
}

/// A drive stands at this place.
pub open spec fn drive_at(p: Seq<char>, i: int) -> bool {
    i + 2 <= p.len() && letter(p[i]) && p[i + 1] == ':'
}

/// A path that is written verbatim: it begins with `\\?\`.
pub open spec fn verbatim(os: HostOs, p: Seq<char>) -> bool {
    os == HostOs::Windows && p.len() >= 4 && p[0] == '\\' && p[1] == '\\' && p[2] == '?' && p[3]
        == '\\'
}

/// A share that is written verbatim: it begins with `\\?\UNC\`.
pub open spec fn verbatim_share(p: Seq<char>) -> bool {
    p.len() >= 8 && p[4] == 'U' && p[5] == 'N' && p[6] == 'C' && p[7] == '\\'
}

/// A drive that is written verbatim: `\\?\C:`, and then the end or a backslash.
pub open spec fn verbatim_drive(p: Seq<char>) -> bool {
    drive_at(p, 4) && (p.len() == 6 || p[6] == '\\')
}

/// Where a path is cut into components.
pub open spec fn sep_of(os: HostOs, p: Seq<char>) -> Sep {
    if os != HostOs::Windows {
        Sep::Char('/')
    } else if verbatim(os, p) {
        Sep::Char('\\')
    } else {
        Sep::Slashes
    }
}

/// Where a server that begins at `i`, and the share behind it, end. Without a
/// share that is where the server ends.
pub open spec fn share_end(p: Seq<char>, sep: Sep, i: int) -> int {
    let a = text::cut_from(p, sep, i);
    if a < p.len() && text::cut_from(p, sep, a + 1) > a + 1 {
        text::cut_from(p, sep, a + 1)
    } else {
        a
    }
}

/// The prefix of a path, and where it ends.
pub open spec fn prefix_of(os: HostOs, p: Seq<char>) -> Option<(PrefixKind, int)> {
    if os != HostOs::Windows {
        None
    } else if verbatim(os, p) {
        let end = if verbatim_share(p) {
            share_end(p, Sep::Char('\\'), 8)
        } else if verbatim_drive(p) {
            6
        } else {
            text::cut_from(p, Sep::Char('\\'), 4)
        };
        Some((PrefixKind::Verbatim, end))
    } else if p.len() >= 2 && slash(p[0]) && slash(p[1]) {
        let a = text::cut_from(p, Sep::Slashes, 2);
        if p.len() >= 4 && p[2] == '.' && slash(p[3]) {
            Some((PrefixKind::Device, text::cut_from(p, Sep::Slashes, 4)))
        } else if 2 < a < share_end(p, Sep::Slashes, 2) {
            Some((PrefixKind::Share, share_end(p, Sep::Slashes, 2)))
        } else {
            None
        }
    } else if drive_at(p, 0) {
        Some((PrefixKind::Drive, 2))
    } else {
        None
    }
}

/// Where the prefix of a path ends: at its start if it has none.
pub open spec fn prefix_len(os: HostOs, p: Seq<char>) -> int {
    match prefix_of(os, p) {
        Some(x) => x.1,
        None => 0,
    }
}

/// Which prefix a path has.
pub open spec fn prefix_kind(os: HostOs, p: Seq<char>) -> Option<PrefixKind> {
    match prefix_of(os, p) {
        Some(x) => Some(x.0),
        None => None,
    }
}

/// A letter in upper case.
pub open spec fn upper(c: char) -> char {
    if 'a' <= c <= 'z' {
        (c as int - 32) as char
    } else {
        c
    }
}

/// The one spelling of a prefix.
pub open spec fn prefix_text(kind: PrefixKind, t: Seq<char>) -> Seq<char> {
    match kind {
        PrefixKind::Drive => seq![upper(t[0]), ':'],
        PrefixKind::Verbatim => if t.len() == 6 && drive_at(t, 4) {
            t.update(4, upper(t[4]))
        } else {
            t
        },
        _ => text::replaced(t, '/', "\\"@),
    }
}

/// A path behind its prefix.
pub open spec fn rest(os: HostOs, p: Seq<char>) -> Seq<char> {
    p.skip(prefix_len(os, p))
}

/// What a path begins with: its prefix, then the root or the current directory,
/// where it begins there. A share and a device have a root of their own.
pub open spec fn front(os: HostOs, p: Seq<char>) -> Seq<Part> {
    match prefix_of(os, p) {
        Some((k, n)) => seq![Part::Prefix(k, prefix_text(k, p.take(n)))] + if rooted(os, p)
            || k is Share || k is Device {
            seq![Part::Root]
        } else {
            Seq::empty()
        },
        None => if rooted(os, p) {
            seq![Part::Root]
        } else if text::split(p, sep_of(os, p))[0] == seq!['.'] {
            seq![Part::Current]
        } else {
            Seq::empty()
        },
    }
}

/// A slash stands behind the prefix of a path.
pub open spec fn rooted(os: HostOs, p: Seq<char>) -> bool {
    rest(os, p).len() > 0 && text::cuts(sep_of(os, p), rest(os, p)[0])
}

/// What a piece between slashes stands for. The current directory counts only
/// in a path that is written verbatim.
pub open spec fn piece_part(verbatim: bool, piece: Seq<char>) -> Option<Part> {
    if piece.len() == 0 {
        None
    } else if piece == seq!['.'] {
        if verbatim {
            Some(Part::Current)
        } else {
            None
        }
    } else if piece == seq!['.', '.'] {
        Some(Part::Parent)
    } else {
        Some(Part::Name(piece))
    }
}

/// What pieces between slashes stand for.
pub open spec fn body(verbatim: bool, pieces: Seq<Seq<char>>) -> Seq<Part>
    decreases pieces.len(),
{
    if pieces.len() == 0 {
        Seq::empty()
    } else {
        match piece_part(verbatim, pieces.last()) {
            Some(x) => body(verbatim, pieces.drop_last()).push(x),
            None => body(verbatim, pieces.drop_last()),
        }
    }
}

/// The components of a path.
pub open spec fn comps(os: HostOs, p: Seq<char>) -> Seq<Part> {
    front(os, p) + body(verbatim(os, p), text::split(rest(os, p), sep_of(os, p)))
}

/// The names among components, in their order.
pub open spec fn names_of(c: Seq<Part>) -> Seq<Seq<char>>
    decreases c.len(),
{
    if c.len() == 0 {
        Seq::empty()
    } else {
        match c.last() {
            Part::Name(n) => names_of(c.drop_last()).push(n),
            _ => names_of(c.drop_last()),
        }
    }
}

/// What the host writes between components.
pub open spec fn main_sep(os: HostOs) -> char {
    if os == HostOs::Windows {
        '\\'
    } else {
        '/'
    }
}

/// A component behind the prefix and the root, as text.
pub open spec fn word(c: Part) -> Seq<char> {
    match c {
        Part::Name(n) => n,
        Part::Parent => seq!['.', '.'],
        Part::Current => seq!['.'],
        _ => Seq::empty(),
    }
}

/// Components without the prefix.
pub open spec fn behind_prefix(c: Seq<Part>) -> Seq<Part> {
    if c.len() > 0 && c[0] is Prefix {
        c.skip(1)
    } else {
        c
    }
}

/// These components, of which none is a prefix, as text.
pub open spec fn rendered(os: HostOs, c: Seq<Part>) -> Seq<char> {
    if c.len() > 0 && c[0] is Root {
        seq![main_sep(os)] + text::join(
            c.skip(1).map_values(|x: Part| word(x)),
            seq![main_sep(os)],
        )
    } else {
        text::join(c.map_values(|x: Part| word(x)), seq![main_sep(os)])
    }
}

/// The components of a path after those of another were joined to it, one by
/// one: the current directory adds nothing, the parent directory takes a name
/// away, and the root leaves only the prefix.
pub open spec fn pushed(c: Seq<Part>, more: Seq<Part>) -> Seq<Part>
    decreases more.len(),
{
    if more.len() == 0 {
        c
    } else {
        let before = pushed(c, more.drop_last());
        match more.last() {
            Part::Root => before.take(
                if before.len() > 0 {
                    1
                } else {
                    0
                },
            ).push(Part::Root),
            Part::Current => before,
            Part::Parent => if before.len() > 0 && before.last() is Name {
                before.drop_last()
            } else {
                before
            },
            x => before.push(x),
        }
    }
}

/// A text that is one component, and a name.
pub open spec fn plain(b: Seq<char>) -> bool {
    &&& b.len() > 0
    &&& b != seq!['.']
    &&& b != seq!['.', '.']
    &&& forall|i: int| 0 <= i < b.len() ==> !slash(#[trigger] b[i])
}

/// `b` below the path `a`, which is written verbatim.
pub open spec fn rebuilt(os: HostOs, a: Seq<char>, b: Seq<char>) -> Seq<char> {
    let c = behind_prefix(pushed(comps(os, a), comps(os, b)));
    let start = a.take(prefix_len(os, a));
    if c.len() > 0 && !(c[0] is Root) {
        start.push('\\') + rendered(os, c)
    } else {
        start + rendered(os, c)
    }
}

/// `b` below `a`; `b` itself where it starts at the root. On Windows `b` itself
/// where it has a prefix, and with the prefix of `a` where it only starts at the
/// root; nothing comes between a drive and `b`; and what is joined to a path that
/// is written verbatim is joined component by component.
pub open spec fn joined(os: HostOs, a: Seq<char>, b: Seq<char>) -> Seq<char> {
    if os != HostOs::Windows {
        if b.len() > 0 && b[0] == '/' {
            b
        } else if a.len() == 0 || a.last() == '/' {
            a + b
        } else {
            a.push('/') + b
        }
    } else if prefix_of(os, b) is Some {
        b
    } else if verbatim(os, a) && b.len() > 0 {
        rebuilt(os, a, b)
    } else if b.len() > 0 && slash(b[0]) {
        a.take(prefix_len(os, a)) + b
    } else if a.len() == 0 || slash(a.last()) || (a.len() == 2 && drive_at(a, 0)) {
        a + b
    } else {
        a.push('\\') + b
    }
}

/// The last piece of a text.
pub open spec fn last_piece(t: Seq<char>, sep: Sep) -> Seq<char>
    decreases t.len(),
{
    if t.len() == 0 || text::cuts(sep, t.last()) {
        Seq::empty()
    } else {
        last_piece(t.drop_last(), sep).push(t.last())
    }
}

/// A text without its last piece and the slash before it.
pub open spec fn but_last(t: Seq<char>, sep: Sep) -> Seq<char>
    decreases t.len(),
{
    if t.len() == 0 {
        t
    } else if text::cuts(sep, t.last()) {
        t.drop_last()
    } else {
        but_last(t.drop_last(), sep)
    }
}

/// What is left without the last piece is shorter.
pub proof fn lemma_but_last(t: Seq<char>, sep: Sep)
    requires
        t.len() > 0,
    ensures
        but_last(t, sep).len() < t.len(),
    decreases t.len(),
{
    reveal_with_fuel(but_last, 2);
    if !text::cuts(sep, t.last()) && t.len() > 1 {
        lemma_but_last(t.drop_last(), sep);
    }
}

/// A text without the pieces at its end that stand for nothing.
pub open spec fn trimmed(verbatim: bool, t: Seq<char>, sep: Sep) -> Seq<char>
    decreases t.len(),
{
    if t.len() > 0 && piece_part(verbatim, last_piece(t, sep)) is None {
        proof {
            lemma_but_last(t, sep);
        }
        trimmed(verbatim, but_last(t, sep), sep)
    } else {
        t
    }
}

/// How much of a path comes before its pieces: the prefix, and one character
/// more where the path begins at the root or in the current directory.
pub open spec fn lead(os: HostOs, p: Seq<char>) -> int {
    let n = prefix_len(os, p);
    let k = prefix_kind(os, p);
    if rooted(os, p) || ((k is None || k == Some(PrefixKind::Drive)) && text::split(
        rest(os, p),
        sep_of(os, p),
    )[0] == seq!['.']) {
        n + 1
    } else {
        n
    }
}

/// The path without its last component, as it is spelled; none for the root, a
/// prefix and the empty path.
pub open spec fn parent_of(os: HostOs, p: Seq<char>) -> Option<Seq<char>> {
    let c = comps(os, p);
    let k = lead(os, p);
    let sep = sep_of(os, p);
    let v = verbatim(os, p);
    if c.len() == 0 || c.last() is Root || c.last() is Prefix {
        None
    } else if c.len() == 1 && c[0] is Current {
        Some(Seq::empty())
    } else {
        let t = but_last(trimmed(v, p.skip(k), sep), sep);
        Some(p.take(k) + trimmed(v, t, sep))
    }
}

/// The last component, where it is a name.
pub open spec fn name_of(os: HostOs, p: Seq<char>) -> Option<Seq<char>> {
    let c = comps(os, p);
    if c.len() > 0 && c.last() is Name {
        Some(c.last()->Name_0)
    } else {
        None
    }
}

/// The components of `q` are the first ones of `p`.
pub open spec fn within(os: HostOs, p: Seq<char>, q: Seq<char>) -> bool {
    comps(os, q).is_prefix_of(comps(os, p))
}

/// A name of one component: not empty, no separator of any platform, neither
/// the current nor the parent directory, no `..` anywhere in it, and no drive
/// before it where there are drives.
pub open spec fn single_component(os: HostOs, s: Seq<char>) -> bool {
    &&& s.len() > 0
    &&& s != seq!['.']
    &&& !s.contains('/')
    &&& !s.contains('\\')
    &&& forall|i: int| 0 <= i < s.len() - 1 ==> !(#[trigger] s[i] == '.' && s[i + 1] == '.')
    &&& os == HostOs::Windows ==> !drive_at(s, 0)
}

/// A path whose prefix, if it begins one, is complete, so that what is joined to
/// it comes behind the prefix. A server without a share has no complete prefix,
/// and neither has what is written verbatim with nothing behind the prefix.
pub open spec fn whole(os: HostOs, a: Seq<char>) -> bool {
    os == HostOs::Windows && a.len() >= 2 && slash(a[0]) && slash(a[1]) ==> match prefix_of(os, a) {
        Some((PrefixKind::Share, n)) => true,
        Some((PrefixKind::Device, n)) => n > 4,
        Some((PrefixKind::Verbatim, n)) => n < a.len() && !(verbatim_share(a) && n
            == text::cut_from(a, Sep::Char('\\'), 8)),
        _ => false,
    }
}

/// A prefix lies within its path.
pub proof fn lemma_prefix_end(os: HostOs, p: Seq<char>)
    ensures
        0 <= prefix_len(os, p) <= p.len(),
        prefix_of(os, p) matches Some((k, n)) ==> n >= 2 && (k is Drive ==> n == 2),
{
    if p.len() >= 2 {
        text::lemma_cut_from(p, Sep::Slashes, 2);
        let a = text::cut_from(p, Sep::Slashes, 2);
        if a < p.len() {
            text::lemma_cut_from(p, Sep::Slashes, a + 1);
        }
    }
    if p.len() >= 4 {
        text::lemma_cut_from(p, Sep::Slashes, 4);
        text::lemma_cut_from(p, Sep::Char('\\'), 4);
    }
    if p.len() >= 8 {
        text::lemma_cut_from(p, Sep::Char('\\'), 8);
        let a = text::cut_from(p, Sep::Char('\\'), 8);
        if a < p.len() {
            text::lemma_cut_from(p, Sep::Char('\\'), a + 1);
        }
    }
}

/// Text without a place to cut extends the last piece.
proof fn lemma_split_append(a: Seq<char>, b: Seq<char>, sep: Sep)
    requires
        forall|i: int| 0 <= i < b.len() ==> !text::cuts(sep, #[trigger] b[i]),
    ensures
        text::split(a + b, sep) == text::split(a, sep).update(
            text::split(a, sep).len() - 1,
            text::split(a, sep).last() + b,
        ),
    decreases b.len(),
{
    text::lemma_split(a, sep);
    let pa = text::split(a, sep);
    if b.len() == 0 {
        assert(a + b =~= a);
        assert(pa.last() + b =~= pa.last());
        assert(pa.update(pa.len() - 1, pa.last()) =~= pa);
    } else {
        let b0 = b.drop_last();
        assert forall|i: int| 0 <= i < b0.len() implies !text::cuts(sep, #[trigger] b0[i]) by {
            assert(b0[i] == b[i]);
        }
        lemma_split_append(a, b0, sep);
        assert((a + b).drop_last() =~= a + b0);
        assert((a + b).last() == b[b.len() - 1]);
        assert((pa.last() + b0).push(b.last()) =~= pa.last() + b);
    }
}

/// One more piece.
proof fn lemma_body_push(verbatim: bool, pieces: Seq<Seq<char>>, p: Seq<char>)
    ensures
        body(verbatim, pieces.push(p)) == match piece_part(verbatim, p) {
            Some(x) => body(verbatim, pieces).push(x),
            None => body(verbatim, pieces),
        },
{
    assert(pieces.push(p).drop_last() =~= pieces);
}

/// A name behind a slash, or where nothing is before it, is one piece more.
proof fn lemma_name_behind(ra: Seq<char>, rd: Seq<char>, b: Seq<char>, sep: Sep, verbatim: bool)
    requires
        plain(b),
        forall|i: int| 0 <= i < b.len() ==> !text::cuts(sep, #[trigger] b[i]),
        (rd == ra && (ra.len() == 0 || text::cuts(sep, ra.last()))) || (exists|c: char|
            text::cuts(sep, c) && rd == #[trigger] ra.push(c)),
    ensures
        body(verbatim, text::split(rd + b, sep)) == body(verbatim, text::split(ra, sep)).push(
            Part::Name(b),
        ),
        ra.len() > 0 ==> text::split(rd + b, sep)[0] == text::split(ra, sep)[0],
        rd.len() == 0 ==> text::split(rd + b, sep)[0] == b,
{
    text::lemma_split(ra, sep);
    text::lemma_split(rd, sep);
    lemma_split_append(rd, b, sep);
    let pa = text::split(ra, sep);
    let none = Seq::<char>::empty();
    if rd.len() == 0 {
        assert(rd =~= none && ra =~= none);
        assert(pa =~= seq![none]);
        assert(none + b =~= b);
        assert(text::split(rd + b, sep) =~= seq![b]);
        lemma_body_push(verbatim, Seq::empty(), b);
        assert(Seq::<Seq<char>>::empty().push(b) =~= seq![b]);
        lemma_body_push(verbatim, Seq::empty(), none);
        assert(Seq::<Seq<char>>::empty().push(none) =~= pa);
    } else {
        let p0 = text::split(rd.drop_last(), sep);
        text::lemma_split(rd.drop_last(), sep);
        let pd = text::split(rd, sep);
        if rd != ra {
            let c = choose|c: char| text::cuts(sep, c) && rd == #[trigger] ra.push(c);
            assert(rd.last() == c);
            assert(rd.drop_last() =~= ra);
        }
        assert(pd == p0.push(none));
        assert(none + b =~= b);
        assert(text::split(rd + b, sep) =~= p0.push(b));
        lemma_body_push(verbatim, p0, b);
        lemma_body_push(verbatim, p0, none);
    }
}

/// A path that is written verbatim keeps its prefix whatever follows the
/// backslash behind it.
proof fn lemma_verbatim_stays(a: Seq<char>, j: Seq<char>)
    requires
        whole(HostOs::Windows, a),
        verbatim(HostOs::Windows, a),
        j.len() > prefix_len(HostOs::Windows, a),
        forall|i: int| 0 <= i <= prefix_len(HostOs::Windows, a) ==> #[trigger] j[i] == a[i],
    ensures
        prefix_of(HostOs::Windows, j) == prefix_of(HostOs::Windows, a),
        verbatim(HostOs::Windows, j),
        a[prefix_len(HostOs::Windows, a)] == '\\',
{
    let os = HostOs::Windows;
    let n = prefix_len(os, a);
    let sep = Sep::Char('\\');
    lemma_prefix_end(os, a);
    text::lemma_cut_from(a, sep, 4);
    if verbatim_share(a) {
        text::lemma_cut_from(a, sep, 8);
        let a1 = text::cut_from(a, sep, 8);
        text::lemma_cut_from(a, sep, a1 + 1);
        text::lemma_cut_at(j, sep, 8, a1);
        text::lemma_cut_at(j, sep, a1 + 1, n);
    } else if verbatim_drive(a) {
        assert(j[4] == a[4] && j[5] == a[5] && j[6] == a[6]);
        assert(!verbatim_share(j));
    } else {
        text::lemma_cut_at(j, sep, 4, n);
        assert(!verbatim_share(j)) by {
            if verbatim_share(j) {
                assert(!text::cuts(sep, j[4]) && !text::cuts(sep, j[5]) && !text::cuts(sep, j[6]));
                text::lemma_cut_at(j, sep, 4, 7);
                assert(a[4] == j[4] && a[5] == j[5] && a[6] == j[6] && a[7] == j[7]);
            }
        }
        assert(!verbatim_drive(j)) by {
            if verbatim_drive(j) {
                assert(!text::cuts(sep, j[4]) && !text::cuts(sep, j[5]));
                assert(n >= 6);
                assert(j[6] == '\\');
                text::lemma_cut_at(j, sep, 4, 6);
                assert(a[4] == j[4] && a[5] == j[5] && a[6] == j[6]);
            }
        }
    }
}

/// What is joined to a path leaves its prefix as it is.
proof fn lemma_prefix_stays(a: Seq<char>, x: Seq<char>)
    requires
        whole(HostOs::Windows, a),
        !verbatim(HostOs::Windows, a),
        a.len() > 0,
        x.len() > 0,
        x[0] == '\\' || slash(a.last()) || (a.len() == 2 && drive_at(a, 0)),
        x[0] == '\\' ==> !slash(a.last()),
        x[0] == '\\' || !slash(x[0]),
    ensures
        prefix_of(HostOs::Windows, a + x) == prefix_of(HostOs::Windows, a),
        !verbatim(HostOs::Windows, a + x),
{
    let os = HostOs::Windows;
    let j = a + x;
    assert(forall|i: int| 0 <= i < a.len() ==> #[trigger] j[i] == a[i]);
    assert(j[a.len() as int] == x[0]);
    lemma_prefix_end(os, a);
    if a.len() >= 2 && slash(a[0]) && slash(a[1]) {
        let n = prefix_len(os, a);
        let sep = Sep::Slashes;
        text::lemma_cut_from(a, sep, 2);
        let a1 = text::cut_from(a, sep, 2);
        if prefix_kind(os, a) == Some(PrefixKind::Device) {
            text::lemma_cut_from(a, sep, 4);
            assert(!text::cuts(sep, a[n - 1]));
            text::lemma_cut_at(j, sep, 4, n);
        } else {
            text::lemma_cut_from(a, sep, a1 + 1);
            assert(!text::cuts(sep, a[n - 1]));
            text::lemma_cut_at(j, sep, 2, a1);
            text::lemma_cut_at(j, sep, a1 + 1, n);
        }
    }
}

/// A complete prefix does not end in a slash, and one that is the whole path is
/// no verbatim one.
proof fn lemma_last_of_prefix(os: HostOs, a: Seq<char>)
    requires
        whole(os, a),
    ensures
        prefix_len(os, a) == a.len() && a.len() > 0 ==> {
            &&& !text::cuts(sep_of(os, a), a.last())
            &&& prefix_kind(os, a) == Some(PrefixKind::Drive) ==> a.len() == 2 && drive_at(a, 0)
            &&& prefix_kind(os, a) != Some(PrefixKind::Verbatim)
        },
{
    lemma_prefix_end(os, a);
    if os == HostOs::Windows && prefix_len(os, a) == a.len() && a.len() > 0 {
        text::lemma_cut_from(a, Sep::Slashes, 2);
        let a1 = text::cut_from(a, Sep::Slashes, 2);
        if a1 < a.len() {
            text::lemma_cut_from(a, Sep::Slashes, a1 + 1);
        }
        if a.len() >= 4 {
            text::lemma_cut_from(a, Sep::Slashes, 4);
        }
    }
}

/// What a name of one component is.
proof fn lemma_single(os: HostOs, b: Seq<char>)
    requires
        single_component(os, b),
    ensures
        plain(b),
        prefix_of(os, b) is None,
        !verbatim(os, b),
        comps(os, b) == seq![Part::Name(b)],
{
    assert forall|i: int| 0 <= i < b.len() implies !slash(#[trigger] b[i]) by {
        assert(b.contains(b[i]));
    }
    assert(b != seq!['.', '.']) by {
        if b == seq!['.', '.'] {
            assert(b[0] == '.' && b[0int + 1] == '.');
        }
    }
    assert(!slash(b[0]));
    let none = Seq::<char>::empty();
    assert(b.skip(0) =~= b);
    lemma_name_behind(none, none, b, sep_of(os, b), false);
    assert(none + b =~= b);
    assert(text::split(none, sep_of(os, b)) =~= seq![none]);
    lemma_body_push(false, Seq::empty(), none);
    assert(Seq::<Seq<char>>::empty().push(none) =~= seq![none]);
    assert(comps(os, b) =~= seq![Part::Name(b)]);
}

/// What a path is joined to a name with: nothing, or the separator.
spec fn between(os: HostOs, a: Seq<char>) -> Seq<char> {
    if a.len() == 0 || (os != HostOs::Windows && a.last() == '/') || (os == HostOs::Windows && (
    slash(a.last()) || (a.len() == 2 && drive_at(a, 0)))) {
        a
    } else {
        a.push(main_sep(os))
    }
}

/// A joined name leaves the prefix as it is, where the path is not written
/// verbatim.
proof fn lemma_joined_prefix(os: HostOs, a: Seq<char>, b: Seq<char>)
    requires
        single_component(os, b),
        whole(os, a),
        !verbatim(os, a),
    ensures
        joined(os, a, b) == between(os, a) + b,
        prefix_of(os, between(os, a) + b) == prefix_of(os, a),
        !verbatim(os, between(os, a) + b),
{
    lemma_single(os, b);
    assert(!slash(b[0]));
    let d = between(os, a);
    if a.len() == 0 {
        assert(d + b =~= b);
    } else if os == HostOs::Windows {
        if d == a {
            lemma_prefix_stays(a, b);
        } else {
            let x = seq!['\\'] + b;
            assert(a + x =~= d + b);
            lemma_prefix_stays(a, x);
        }
    }
}

/// A joined name is one component more, where the path is not written verbatim.
proof fn lemma_join_plain(os: HostOs, a: Seq<char>, b: Seq<char>)
    requires
        single_component(os, b),
        whole(os, a),
        !verbatim(os, a),
    ensures
        comps(os, joined(os, a, b)) == comps(os, a).push(Part::Name(b)),
{
    let sep = sep_of(os, a);
    let d = between(os, a);
    let j = d + b;
    lemma_single(os, b);
    lemma_joined_prefix(os, a, b);
    lemma_prefix_end(os, a);
    lemma_last_of_prefix(os, a);
    let n = prefix_len(os, a);
    let ra = rest(os, a);
    let rd = d.skip(n);
    assert(rest(os, j) =~= rd + b);
    assert(j.take(n) =~= a.take(n));
    if d == a {
        assert(rd =~= ra);
        if ra.len() > 0 {
            assert(ra.last() == a.last());
        }
    } else {
        assert(rd =~= ra.push(main_sep(os)));
    }
    lemma_name_behind(ra, rd, b, sep, false);
    assert(ra.len() == 0 ==> text::split(ra, sep)[0].len() == 0);
    assert(rooted(os, j) == (rd.len() > 0 && text::cuts(sep, rd[0]))) by {
        assert((rd + b)[0] == if rd.len() > 0 {
            rd[0]
        } else {
            b[0]
        });
        assert(!slash(b[0]));
    }
    assert(ra.len() > 0 ==> rooted(os, j) == rooted(os, a));
    assert(front(os, j) =~= front(os, a)) by {
        if prefix_of(os, a) is None {
            assert(ra =~= a);
            assert(rest(os, j) =~= j);
        }
    }
    assert(comps(os, j) =~= comps(os, a).push(Part::Name(b)));
}

/// A component that is read back from its text.
spec fn legible(p: Part) -> bool {
    &&& piece_part(true, word(p)) == Some(p)
    &&& forall|i: int| 0 <= i < word(p).len() ==> #[trigger] word(p)[i] != '\\'
}

/// What pieces stand for is read back from its text.
proof fn lemma_body_legible(pieces: Seq<Seq<char>>)
    requires
        forall|i: int, k: int|
            0 <= i < pieces.len() && 0 <= k < pieces[i].len() ==> #[trigger] pieces[i][k] != '\\',
    ensures
        forall|i: int|
            0 <= i < body(true, pieces).len() ==> legible(#[trigger] body(true, pieces)[i]),
    decreases pieces.len(),
{
    if pieces.len() > 0 {
        let p0 = pieces.drop_last();
        assert forall|i: int, k: int|
            0 <= i < p0.len() && 0 <= k < p0[i].len() implies #[trigger] p0[i][k] != '\\' by {
            assert(p0[i] == pieces[i]);
        }
        lemma_body_legible(p0);
        let last = pieces.last();
        assert(last == pieces[pieces.len() - 1]);
        if piece_part(true, last) is Some {
            let x = piece_part(true, last)->0;
            assert(word(x) =~= last);
            assert(legible(x));
        }
        let all = body(true, pieces);
        assert forall|i: int| 0 <= i < all.len() implies legible(#[trigger] all[i]) by {
            if i < body(true, p0).len() {
                assert(all[i] == body(true, p0)[i]);
            }
        }
    }
}

/// The texts of components, behind a backslash, are cut into those texts again.
proof fn lemma_split_words(ws: Seq<Seq<char>>)
    requires
        ws.len() > 0,
        forall|i: int, k: int|
            0 <= i < ws.len() && 0 <= k < ws[i].len() ==> #[trigger] ws[i][k] != '\\',
    ensures
        text::split(seq!['\\'] + text::join(ws, seq!['\\']), Sep::Char('\\')) == seq![
            Seq::<char>::empty(),
        ] + ws,
    decreases ws.len(),
{
    let sep = Sep::Char('\\');
    let bar = seq!['\\'];
    let none = Seq::<char>::empty();
    let w = ws.last();
    assert(w == ws[ws.len() - 1]);
    assert forall|i: int| 0 <= i < w.len() implies !text::cuts(sep, #[trigger] w[i]) by {
        assert(ws[ws.len() - 1][i] != '\\');
    }
    let w0 = ws.drop_last();
    let t = if ws.len() == 1 {
        none
    } else {
        bar + text::join(w0, bar)
    };
    let d = t.push('\\');
    assert(d.drop_last() =~= t);
    assert(text::split(d, sep) == text::split(t, sep).push(none));
    lemma_split_append(d, w, sep);
    assert(none + w =~= w);
    text::lemma_split(t, sep);
    assert(text::split(d + w, sep) =~= text::split(t, sep).push(w));
    if ws.len() == 1 {
        assert(bar + text::join(ws, bar) =~= d + w);
        assert(text::split(t, sep) =~= seq![none]);
        assert(seq![none].push(w) =~= seq![none] + ws);
    } else {
        assert forall|i: int, k: int| 0 <= i < w0.len() && 0 <= k < w0[i].len() implies
            #[trigger] w0[i][k] != '\\' by {
            assert(w0[i] == ws[i]);
        }
        lemma_split_words(w0);
        assert(bar + text::join(ws, bar) =~= d + w);
        assert((seq![none] + w0).push(w) =~= seq![none] + ws);
    }
}

/// Components that are read back from their texts are those of the pieces that
/// hold the texts.
proof fn lemma_body_words(ps: Seq<Part>)
    requires
        forall|i: int| 0 <= i < ps.len() ==> legible(#[trigger] ps[i]),
    ensures
        body(true, seq![Seq::<char>::empty()] + ps.map_values(|x: Part| word(x))) == ps,
    decreases ps.len(),
{
    let none = Seq::<char>::empty();
    let f = |x: Part| word(x);
    if ps.len() == 0 {
        assert(seq![none] + ps.map_values(f) =~= Seq::<Seq<char>>::empty().push(none));
        lemma_body_push(true, Seq::empty(), none);
        assert(body(true, Seq::<Seq<char>>::empty()) =~= ps);
    } else {
        let p0 = ps.drop_last();
        assert forall|i: int| 0 <= i < p0.len() implies legible(#[trigger] p0[i]) by {
            assert(p0[i] == ps[i]);
        }
        lemma_body_words(p0);
        assert(legible(ps[ps.len() - 1]));
        let before = seq![none] + p0.map_values(f);
        assert(seq![none] + ps.map_values(f) =~= before.push(word(ps.last())));
        lemma_body_push(true, before, word(ps.last()));
        assert(p0.push(ps.last()) =~= ps);
    }
}

/// A joined name is one component more, where the path is written verbatim.
proof fn lemma_join_verbatim(a: Seq<char>, b: Seq<char>)
    requires
        single_component(HostOs::Windows, b),
        whole(HostOs::Windows, a),
        verbatim(HostOs::Windows, a),
    ensures
        comps(HostOs::Windows, joined(HostOs::Windows, a, b)) == comps(HostOs::Windows, a).push(
            Part::Name(b),
        ),
{
    let os = HostOs::Windows;
    let sep = Sep::Char('\\');
    let bar = seq!['\\'];
    let f = |x: Part| word(x);
    let n = prefix_len(os, a);
    lemma_single(os, b);
    lemma_prefix_end(os, a);
    lemma_verbatim_stays(a, a);
    let c = comps(os, a);
    assert(rest(os, a)[0] == '\\');
    let pieces = text::split(rest(os, a), sep);
    text::lemma_split(rest(os, a), sep);
    lemma_body_legible(pieces);
    let bits = body(true, pieces).push(Part::Name(b));
    assert(legible(Part::Name(b)));
    assert forall|i: int| 0 <= i < bits.len() implies legible(#[trigger] bits[i]) by {
        if i < bits.len() - 1 {
            assert(bits[i] == body(true, pieces)[i]);
        }
    }
    let ws = bits.map_values(f);
    assert forall|i: int, k: int| 0 <= i < ws.len() && 0 <= k < ws[i].len() implies
        #[trigger] ws[i][k] != '\\' by {
        assert(legible(bits[i]));
        assert(ws[i] == word(bits[i]));
    }
    reveal_with_fuel(pushed, 2);
    assert(seq![Part::Name(b)].drop_last() =~= Seq::<Part>::empty());
    assert(pushed(c, seq![Part::Name(b)]) == c.push(Part::Name(b)));
    let r = behind_prefix(c.push(Part::Name(b)));
    assert(r =~= seq![Part::Root] + bits);
    assert(r.skip(1) =~= bits);
    let start = a.take(n);
    let tail = bar + text::join(ws, bar);
    assert(joined(os, a, b) == start + tail);
    let j = start + tail;
    assert forall|i: int| 0 <= i <= n implies #[trigger] j[i] == a[i] by {
        if i == n {
            assert(j[n] == tail[0]);
        }
    }
    lemma_verbatim_stays(a, j);
    assert(rest(os, j) =~= tail);
    assert(j.take(n) =~= start);
    lemma_split_words(ws);
    lemma_body_words(bits);
    assert(front(os, j) =~= front(os, a));
    assert(comps(os, j) =~= c.push(Part::Name(b)));
}

/// A name of one component, joined to a path, is one component more.
pub proof fn lemma_join_component(os: HostOs, a: Seq<char>, b: Seq<char>)
    requires
        single_component(os, b),
        whole(os, a),
    ensures
        comps(os, joined(os, a, b)) == comps(os, a).push(Part::Name(b)),
{
    if verbatim(os, a) {
        lemma_join_verbatim(a, b);
    } else {
        lemma_join_plain(os, a, b);
    }
}

/// A name among components is one of them.
proof fn lemma_name_is_part(c: Seq<Part>, i: int)
    requires
        0 <= i < names_of(c).len(),
    ensures
        c.contains(Part::Name(names_of(c)[i])),
    decreases c.len(),
{
    let c0 = c.drop_last();
    assert(c[c.len() - 1] == c.last());
    if i < names_of(c0).len() {
        lemma_name_is_part(c0, i);
        let k = choose|k: int| 0 <= k < c0.len() && c0[k] == Part::Name(names_of(c0)[i]);
        assert(c[k] == Part::Name(names_of(c)[i]));
    }
}

/// A name among what pieces stand for is one of the pieces.
proof fn lemma_name_is_piece(verbatim: bool, pieces: Seq<Seq<char>>, n: Seq<char>)
    requires
        body(verbatim, pieces).contains(Part::Name(n)),
    ensures
        pieces.contains(n),
        n.len() > 0,
        n != seq!['.'],
        n != seq!['.', '.'],
    decreases pieces.len(),
{
    let all = body(verbatim, pieces);
    let k = choose|k: int| 0 <= k < all.len() && all[k] == Part::Name(n);
    let p0 = pieces.drop_last();
    assert(pieces[pieces.len() - 1] == pieces.last());
    if k < body(verbatim, p0).len() {
        assert(body(verbatim, p0)[k] == Part::Name(n));
        lemma_name_is_piece(verbatim, p0, n);
        let j = choose|j: int| 0 <= j < p0.len() && p0[j] == n;
        assert(pieces[j] == n);
    }
}

/// A name among the components of a path is not empty, is neither the current
/// nor the parent directory, and holds no separator.
pub proof fn lemma_names(os: HostOs, p: Seq<char>, i: int)
    requires
        0 <= i < names_of(comps(os, p)).len(),
    ensures
        ({
            let n = names_of(comps(os, p))[i];
            &&& n.len() > 0
            &&& n != seq!['.']
            &&& n != seq!['.', '.']
            &&& !n.contains(main_sep(os))
        }),
{
    let c = comps(os, p);
    let n = names_of(c)[i];
    let sep = sep_of(os, p);
    let pieces = text::split(rest(os, p), sep);
    lemma_name_is_part(c, i);
    let k = choose|k: int| 0 <= k < c.len() && c[k] == Part::Name(n);
    let f = front(os, p).len();
    assert(k >= f);
    assert(body(verbatim(os, p), pieces)[k - f] == Part::Name(n));
    lemma_name_is_piece(verbatim(os, p), pieces, n);
    text::lemma_split(rest(os, p), sep);
    let j = choose|j: int| 0 <= j < pieces.len() && pieces[j] == n;
    if n.contains(main_sep(os)) {
        let m = choose|m: int| 0 <= m < n.len() && n[m] == main_sep(os);
        assert(!text::cuts(sep, pieces[j][m]));
    }
}

/// The last piece, and what is before it.
proof fn lemma_last_piece(t: Seq<char>, sep: Sep)
    ensures
        text::split(t, sep).len() == 1 ==> text::split(t, sep) == seq![last_piece(t, sep)]
            && but_last(t, sep) == Seq::<char>::empty(),
        text::split(t, sep).len() != 1 ==> text::split(t, sep) == text::split(
            but_last(t, sep),
            sep,
        ).push(last_piece(t, sep)),
        but_last(t, sep).len() <= t.len(),
        but_last(t, sep) == t.take(but_last(t, sep).len() as int),
        but_last(t, sep).len() > 0 ==> text::cuts(sep, t[but_last(t, sep).len() as int])
            && but_last(t, sep).len() < t.len(),
    decreases t.len(),
{
    let none = Seq::<char>::empty();
    text::lemma_split(t, sep);
    if t.len() == 0 {
        assert(t =~= none);
        assert(text::split(t, sep) =~= seq![none]);
    } else {
        let t0 = t.drop_last();
        text::lemma_split(t0, sep);
        lemma_last_piece(t0, sep);
        if text::cuts(sep, t.last()) {
            assert(t0 =~= t.take(t0.len() as int));
        } else {
            let before = text::split(t0, sep);
            assert(before.last() == last_piece(t0, sep));
            if before.len() == 1 {
                assert(text::split(t, sep) =~= seq![last_piece(t, sep)]);
            } else {
                assert(text::split(t, sep) =~= text::split(but_last(t, sep), sep).push(
                    last_piece(t, sep),
                ));
            }
            let b = but_last(t0, sep);
            assert(t0.take(b.len() as int) =~= t.take(b.len() as int));
        }
    }
}

/// What a text without its last piece stands for.
proof fn lemma_body_but_last(v: bool, t: Seq<char>, sep: Sep)
    ensures
        body(v, text::split(t, sep)) == match piece_part(v, last_piece(t, sep)) {
            Some(x) => body(v, text::split(but_last(t, sep), sep)).push(x),
            None => body(v, text::split(but_last(t, sep), sep)),
        },
{
    let none = Seq::<char>::empty();
    let empty = Seq::<Seq<char>>::empty();
    lemma_last_piece(t, sep);
    if text::split(t, sep).len() == 1 {
        lemma_body_push(v, empty, last_piece(t, sep));
        assert(empty.push(last_piece(t, sep)) =~= text::split(t, sep));
        lemma_body_push(v, empty, none);
        assert(empty.push(none) =~= text::split(none, sep));
    } else {
        lemma_body_push(v, text::split(but_last(t, sep), sep), last_piece(t, sep));
    }
}

/// What a trimmed text stands for, and where it ends.
proof fn lemma_trimmed(v: bool, t: Seq<char>, sep: Sep)
    ensures
        body(v, text::split(trimmed(v, t, sep), sep)) == body(v, text::split(t, sep)),
        trimmed(v, t, sep).len() > 0 ==> piece_part(v, last_piece(trimmed(v, t, sep), sep)) is Some,
        trimmed(v, t, sep).len() <= t.len(),
        trimmed(v, t, sep) == t.take(trimmed(v, t, sep).len() as int),
        0 < trimmed(v, t, sep).len() < t.len() ==> text::cuts(
            sep,
            t[trimmed(v, t, sep).len() as int],
        ),
    decreases t.len(),
{
    if t.len() > 0 && piece_part(v, last_piece(t, sep)) is None {
        let b = but_last(t, sep);
        lemma_but_last(t, sep);
        lemma_last_piece(t, sep);
        lemma_body_but_last(v, t, sep);
        lemma_trimmed(v, b, sep);
        let m = trimmed(v, t, sep).len() as int;
        assert(b.take(m) =~= t.take(m));
    } else {
        assert(t.take(t.len() as int) =~= t);
    }
}

/// The first piece ends where a text is first cut.
proof fn lemma_first_piece(s: Seq<char>, sep: Sep)
    ensures
        text::split(s, sep)[0] == s.take(text::cut_from(s, sep, 0)),
    decreases s.len(),
{
    text::lemma_cut_from(s, sep, 0);
    text::lemma_split(s, sep);
    let k = text::cut_from(s, sep, 0);
    if s.len() == 0 {
        assert(s.take(0) =~= Seq::<char>::empty());
    } else {
        let s0 = s.drop_last();
        assert(forall|j: int| 0 <= j < s0.len() ==> #[trigger] s[j] == s0[j]);
        lemma_first_piece(s0, sep);
        text::lemma_cut_from(s0, sep, 0);
        text::lemma_split(s0, sep);
        let k0 = text::cut_from(s0, sep, 0);
        if k0 < s0.len() {
            text::lemma_cut_at(s, sep, 0, k0);
            assert(s.take(k) =~= s0.take(k0));
            assert(s0.take(k0).len() < s0.len());
            if text::split(s0, sep).len() == 1 {
                lemma_last_piece(s0, sep);
                lemma_piece_alone(s0, sep);
            }
        } else if text::cuts(sep, s.last()) {
            text::lemma_cut_at(s, sep, 0, s0.len() as int);
            assert(s.take(k) =~= s0.take(k0));
        } else {
            lemma_piece_alone(s0, sep);
            if k < s0.len() {
                assert(!text::cuts(sep, s0[k]));
            }
            assert(k == s.len());
            assert(s.take(k) =~= s0.take(k0).push(s.last()));
        }
    }
}

/// A text is one piece exactly where it holds no place to cut.
proof fn lemma_piece_alone(s: Seq<char>, sep: Sep)
    ensures
        text::split(s, sep).len() == 1 <==> text::cut_from(s, sep, 0) == s.len(),
    decreases s.len(),
{
    text::lemma_cut_from(s, sep, 0);
    text::lemma_split(s, sep);
    if s.len() > 0 {
        let s0 = s.drop_last();
        assert(forall|j: int| 0 <= j < s0.len() ==> #[trigger] s[j] == s0[j]);
        lemma_piece_alone(s0, sep);
        text::lemma_cut_from(s0, sep, 0);
        text::lemma_split(s0, sep);
        let k0 = text::cut_from(s0, sep, 0);
        if k0 < s0.len() {
            text::lemma_cut_at(s, sep, 0, k0);
        } else if text::cuts(sep, s.last()) {
            text::lemma_cut_at(s, sep, 0, s0.len() as int);
        } else {
            let k = text::cut_from(s, sep, 0);
            if k < s0.len() {
                assert(!text::cuts(sep, s0[k]));
            }
        }
    }
}

/// A character before a text begins a piece of its own, or the first one.
proof fn lemma_split_head(h: char, s: Seq<char>, sep: Sep)
    ensures
        text::split(seq![h] + s, sep) == if text::cuts(sep, h) {
            seq![Seq::<char>::empty()] + text::split(s, sep)
        } else {
            text::split(s, sep).update(0, seq![h] + text::split(s, sep)[0])
        },
    decreases s.len(),
{
    let none = Seq::<char>::empty();
    let hs = seq![h] + s;
    text::lemma_split(s, sep);
    if s.len() == 0 {
        assert(hs.drop_last() =~= none);
        assert(hs.last() == h);
        assert(text::split(none, sep) =~= seq![none]);
        assert(text::split(s, sep) =~= seq![none]);
        if text::cuts(sep, h) {
            assert(seq![none].push(none) =~= seq![none] + seq![none]);
        } else {
            assert(none.push(h) =~= seq![h] + none);
        }
    } else {
        let s0 = s.drop_last();
        assert(hs.drop_last() =~= seq![h] + s0);
        assert(hs.last() == s.last());
        lemma_split_head(h, s0, sep);
        text::lemma_split(s0, sep);
        let before = text::split(s0, sep);
        let all = text::split(hs.drop_last(), sep);
        if text::cuts(sep, h) {
            assert(all == seq![none] + before);
            assert(text::split(hs, sep) =~= seq![none] + text::split(s, sep));
        } else {
            assert(all.len() == before.len());
            if before.len() == 1 && !text::cuts(sep, s.last()) {
                assert((seq![h] + before[0]).push(s.last()) =~= seq![h] + before[0].push(s.last()));
            }
            assert(text::split(hs, sep) =~= text::split(s, sep).update(
                0,
                seq![h] + text::split(s, sep)[0],
            ));
        }
    }
}

/// A first piece that stands for nothing may be another such piece, or missing.
proof fn lemma_body_head(v: bool, ps: Seq<Seq<char>>, x: Seq<char>)
    requires
        piece_part(v, x) is None,
    ensures
        body(v, seq![x] + ps) == body(v, ps),
        ps.len() > 0 && piece_part(v, ps[0]) is None ==> body(v, ps.update(0, x)) == body(v, ps),
    decreases ps.len(),
{
    let empty = Seq::<Seq<char>>::empty();
    if ps.len() == 0 {
        assert(seq![x] + ps =~= empty.push(x));
        lemma_body_push(v, empty, x);
        assert(ps =~= empty);
    } else {
        let p0 = ps.drop_last();
        lemma_body_head(v, p0, x);
        assert((seq![x] + ps).drop_last() =~= seq![x] + p0);
        assert((seq![x] + ps).last() == ps.last());
        if piece_part(v, ps[0]) is None {
            let u = ps.update(0, x);
            if ps.len() == 1 {
                assert(u.drop_last() =~= p0);
            } else {
                assert(u.drop_last() =~= p0.update(0, x));
                assert(u.last() == ps.last());
            }
        }
    }
}

/// The beginning of a path has its prefix, where it ends behind that or the path
/// has none.
proof fn lemma_prefix_of_take(os: HostOs, p: Seq<char>, m: int)
    requires
        0 <= m <= p.len(),
        prefix_of(os, p) matches Some((k, n)) ==> m > n || (k is Drive && m == n),
        prefix_of(os, p) matches Some((k, n)) ==> k is Drive || text::cuts(sep_of(os, p), p[n]),
    ensures
        prefix_of(os, p.take(m)) == prefix_of(os, p),
        verbatim(os, p.take(m)) == verbatim(os, p),
{
    let q = p.take(m);
    assert(forall|i: int| 0 <= i < m ==> #[trigger] q[i] == p[i]);
    lemma_prefix_end(os, p);
    if os == HostOs::Windows && p.len() >= 2 && slash(p[0]) && slash(p[1]) {
        let n = prefix_len(os, p);
        if verbatim(os, p) {
            let sep = Sep::Char('\\');
            text::lemma_cut_from(p, sep, 4);
            if verbatim_share(p) {
                text::lemma_cut_from(p, sep, 8);
                let a = text::cut_from(p, sep, 8);
                if a < p.len() {
                    text::lemma_cut_from(p, sep, a + 1);
                }
                assert(n < m);
                text::lemma_cut_at(q, sep, 8, a);
                if n > a {
                    text::lemma_cut_at(q, sep, a + 1, n);
                } else {
                    assert(text::cut_from(p, sep, a + 1) == a + 1);
                    if a + 1 < m {
                        text::lemma_cut_at(q, sep, a + 1, a + 1);
                    }
                }
            } else if verbatim_drive(p) {
                assert(n == 6 && m > 6);
            } else {
                text::lemma_cut_at(q, sep, 4, n);
            }
        } else {
            let sep = Sep::Slashes;
            text::lemma_cut_from(p, sep, 2);
            let a = text::cut_from(p, sep, 2);
            if a < p.len() {
                text::lemma_cut_from(p, sep, a + 1);
            }
            if prefix_kind(os, p) == Some(PrefixKind::Device) {
                text::lemma_cut_from(p, sep, 4);
                text::lemma_cut_at(q, sep, 4, n);
            } else if prefix_kind(os, p) == Some(PrefixKind::Share) {
                text::lemma_cut_at(q, sep, 2, a);
                text::lemma_cut_at(q, sep, a + 1, n);
            } else if m > 2 {
                text::lemma_cut_from(q, sep, 2);
                let b = text::cut_from(q, sep, 2);
                if a < m {
                    text::lemma_cut_at(q, sep, 2, a);
                    if a + 1 < m && a > 2 {
                        assert(text::cut_from(p, sep, a + 1) == a + 1);
                        text::lemma_cut_at(q, sep, a + 1, a + 1);
                    }
                } else {
                    if b < m {
                        assert(!text::cuts(sep, p[b]));
                        assert(text::cuts(sep, q[b]));
                    }
                    assert(b == m);
                }
            }
        }
    }
}

/// A text begins with the current directory.
spec fn dotted(r: Seq<char>, sep: Sep) -> bool {
    text::split(r, sep)[0] == seq!['.']
}

/// A text begins with the current directory where it begins with a dot, and
/// nothing but a separator follows.
proof fn lemma_dotted(r: Seq<char>, sep: Sep)
    ensures
        dotted(r, sep) <==> r.len() > 0 && r[0] == '.' && !text::cuts(sep, '.') && (r.len() == 1
            || text::cuts(sep, r[1])),
{
    lemma_first_piece(r, sep);
    text::lemma_cut_from(r, sep, 0);
    let k = text::cut_from(r, sep, 0);
    if dotted(r, sep) {
        assert(r.take(k).len() == 1);
        assert(r.take(k)[0] == '.');
        assert(r[0] == '.');
    }
    if r.len() > 0 && r[0] == '.' && !text::cuts(sep, '.') && (r.len() == 1 || text::cuts(
        sep,
        r[1],
    )) {
        if r.len() > 1 {
            text::lemma_cut_at(r, sep, 0, 1);
        }
        assert(k == 1);
        assert(r.take(1) =~= seq!['.']);
    }
}

/// A separator, or the current directory, before a text adds nothing to it.
proof fn lemma_body_skip(v: bool, r: Seq<char>, sep: Sep)
    requires
        r.len() > 0,
        text::cuts(sep, r[0]) || (!v && dotted(r, sep)),
    ensures
        body(v, text::split(r, sep)) == body(v, text::split(r.skip(1), sep)),
{
    let t = r.skip(1);
    assert(r =~= seq![r[0]] + t);
    lemma_split_head(r[0], t, sep);
    text::lemma_split(t, sep);
    if text::cuts(sep, r[0]) {
        lemma_body_head(v, text::split(t, sep), Seq::empty());
    } else {
        lemma_dotted(r, sep);
        lemma_first_piece(t, sep);
        text::lemma_cut_from(t, sep, 0);
        if t.len() > 0 {
            assert(t[0] == r[1]);
        }
        assert(text::split(t, sep)[0] =~= Seq::<char>::empty());
        assert(seq!['.'] + text::split(t, sep)[0] =~= seq!['.']);
        lemma_body_head(v, text::split(t, sep), seq!['.']);
    }
}

/// The beginning of a path that keeps what comes before its pieces, and ends
/// between two of them, begins like the path.
proof fn lemma_take_front(os: HostOs, p: Seq<char>, m: int)
    requires
        lead(os, p) <= m <= p.len(),
        m == lead(os, p) || m == p.len() || text::cuts(sep_of(os, p), p[m]),
        prefix_of(os, p) matches Some((k, n)) ==> k is Drive || n < p.len(),
    ensures
        prefix_of(os, p.take(m)) == prefix_of(os, p),
        verbatim(os, p.take(m)) == verbatim(os, p),
        front(os, p.take(m)) == front(os, p),
        rest(os, p.take(m)) == rest(os, p).take(m - prefix_len(os, p)),
        prefix_len(os, p) <= lead(os, p) <= prefix_len(os, p) + 1,
        lead(os, p) > prefix_len(os, p) ==> rooted(os, p) || (!verbatim(os, p) && dotted(
            rest(os, p.take(m)),
            sep_of(os, p),
        )),
{
    let q = p.take(m);
    let sep = sep_of(os, p);
    let n = prefix_len(os, p);
    lemma_prefix_end(os, p);
    lemma_prefix_cut(os, p);
    if prefix_of(os, p) is Some && prefix_kind(os, p) != Some(PrefixKind::Drive) {
        assert(rest(os, p)[0] == p[n]);
        assert(rooted(os, p));
    }
    lemma_prefix_of_take(os, p, m);
    assert(q.take(n) =~= p.take(n));
    let rp = rest(os, p);
    let rq = rest(os, q);
    assert(rq =~= rp.take(m - n));
    assert(rq.len() > 0 ==> rq[0] == rp[0]);
    assert(rooted(os, q) == rooted(os, p));
    lemma_dotted(rp, sep);
    lemma_dotted(rq, sep);
    assert(rq.len() > 1 ==> rq[1] == rp[1]);
    assert(m < p.len() ==> rp[m - n] == p[m]);
    assert(!rooted(os, p) && (prefix_of(os, p) is None || prefix_kind(os, p) == Some(
        PrefixKind::Drive,
    )) ==> dotted(rp, sep) == dotted(rq, sep));
    if prefix_of(os, p) is None {
        assert(rp =~= p);
        assert(rq =~= q);
    }
    assert(front(os, q) =~= front(os, p));
}

/// The components of the beginning of a path that keeps what comes before its
/// pieces, and ends between two of them.
proof fn lemma_take_comps(os: HostOs, p: Seq<char>, m: int)
    requires
        lead(os, p) <= m <= p.len(),
        m == lead(os, p) || m == p.len() || text::cuts(sep_of(os, p), p[m]),
        prefix_of(os, p) matches Some((k, n)) ==> k is Drive || n < p.len(),
    ensures
        comps(os, p.take(m)) == front(os, p) + body(
            verbatim(os, p),
            text::split(p.subrange(lead(os, p), m), sep_of(os, p)),
        ),
{
    let q = p.take(m);
    let sep = sep_of(os, p);
    let n = prefix_len(os, p);
    let k = lead(os, p);
    let rq = rest(os, q);
    lemma_prefix_end(os, p);
    lemma_take_front(os, p, m);
    assert(sep_of(os, q) == sep);
    if k == n {
        assert(rq =~= p.subrange(k, m));
    } else {
        assert(rq.skip(1) =~= p.subrange(k, m));
        assert(rq[0] == rest(os, p)[0]);
        lemma_body_skip(verbatim(os, p), rq, sep);
    }
}

/// Behind a prefix other than a drive comes a separator, or nothing.
proof fn lemma_prefix_cut(os: HostOs, p: Seq<char>)
    ensures
        prefix_of(os, p) matches Some((k, n)) ==> k is Drive || n == p.len() || text::cuts(
            sep_of(os, p),
            p[n],
        ),
{
    lemma_prefix_end(os, p);
    if os == HostOs::Windows && p.len() >= 2 && slash(p[0]) && slash(p[1]) {
        if verbatim(os, p) {
            let sep = Sep::Char('\\');
            text::lemma_cut_from(p, sep, 4);
            if verbatim_share(p) {
                text::lemma_cut_from(p, sep, 8);
                let a = text::cut_from(p, sep, 8);
                if a < p.len() {
                    text::lemma_cut_from(p, sep, a + 1);
                }
            }
        } else {
            let sep = Sep::Slashes;
            text::lemma_cut_from(p, sep, 2);
            let a = text::cut_from(p, sep, 2);
            if a < p.len() {
                text::lemma_cut_from(p, sep, a + 1);
            }
            if p.len() >= 4 {
                text::lemma_cut_from(p, sep, 4);
            }
        }
    }
}

/// What comes before the pieces of a path lies within it.
proof fn lemma_lead(os: HostOs, p: Seq<char>)
    ensures
        0 <= lead(os, p) <= p.len(),
{
    let r = rest(os, p);
    let sep = sep_of(os, p);
    lemma_prefix_end(os, p);
    lemma_first_piece(r, sep);
    text::lemma_cut_from(r, sep, 0);
    if text::split(r, sep)[0] == seq!['.'] {
        assert(r.take(text::cut_from(r, sep, 0)).len() == 1);
    }
}

/// The empty text stands for nothing.
proof fn lemma_no_pieces(v: bool, sep: Sep)
    ensures
        text::split(Seq::<char>::empty(), sep) == seq![Seq::<char>::empty()],
        body(v, text::split(Seq::<char>::empty(), sep)) == Seq::<Part>::empty(),
{
    let none = Seq::<char>::empty();
    assert(text::split(none, sep) =~= Seq::<Seq<char>>::empty().push(none));
    lemma_body_push(v, Seq::empty(), none);
}

/// A text without its last piece that stands for something, and without what
/// stands for nothing behind the one before it.
proof fn lemma_cut_back(v: bool, s: Seq<char>, sep: Sep)
    requires
        body(v, text::split(s, sep)).len() > 0,
    ensures
        ({
            let w = trimmed(v, but_last(trimmed(v, s, sep), sep), sep);
            &&& body(v, text::split(w, sep)) == body(v, text::split(s, sep)).drop_last()
            &&& w.len() <= s.len()
            &&& w == s.take(w.len() as int)
            &&& w.len() > 0 ==> w.len() < s.len() && text::cuts(sep, s[w.len() as int])
        }),
{
    let t = trimmed(v, s, sep);
    let u = but_last(t, sep);
    let w = trimmed(v, u, sep);
    lemma_trimmed(v, s, sep);
    lemma_last_piece(t, sep);
    lemma_body_but_last(v, t, sep);
    lemma_trimmed(v, u, sep);
    if t.len() == 0 {
        assert(t =~= Seq::<char>::empty());
        lemma_no_pieces(v, sep);
    }
    let b = body(v, text::split(u, sep));
    let x = piece_part(v, last_piece(t, sep))->0;
    assert(b.push(x).drop_last() =~= b);
    assert(w =~= s.take(w.len() as int));
    if w.len() > 0 {
        if w.len() < u.len() {
            assert(u[w.len() as int] == s[w.len() as int]);
        } else {
            assert(t[u.len() as int] == s[u.len() as int]);
        }
    }
}

/// The components of a path are what comes before its pieces, and those.
proof fn lemma_comps_of_pieces(os: HostOs, p: Seq<char>)
    requires
        body(verbatim(os, p), text::split(rest(os, p), sep_of(os, p))).len() > 0,
    ensures
        prefix_of(os, p) matches Some((k, n)) ==> k is Drive || n < p.len(),
        comps(os, p) == front(os, p) + body(
            verbatim(os, p),
            text::split(p.skip(lead(os, p)), sep_of(os, p)),
        ),
{
    let v = verbatim(os, p);
    let sep = sep_of(os, p);
    lemma_prefix_end(os, p);
    lemma_lead(os, p);
    if rest(os, p).len() == 0 {
        assert(rest(os, p) =~= Seq::<char>::empty());
        lemma_no_pieces(v, sep);
    }
    lemma_take_comps(os, p, p.len() as int);
    assert(p.take(p.len() as int) =~= p);
    assert(p.subrange(lead(os, p), p.len() as int) =~= p.skip(lead(os, p)));
}

/// The empty path has no components.
proof fn lemma_no_comps(os: HostOs)
    ensures
        comps(os, Seq::<char>::empty()) == Seq::<Part>::empty(),
{
    let none = Seq::<char>::empty();
    lemma_no_pieces(false, sep_of(os, none));
    assert(none.skip(0) =~= none);
    assert(comps(os, none) =~= Seq::<Part>::empty());
}

/// The parent of a path has its components but the last.
pub proof fn law_parent(os: HostOs, p: Seq<char>)
    ensures
        parent_of(os, p) matches Some(q) ==> comps(os, q) == comps(os, p).drop_last(),
{
    let c = comps(os, p);
    let sep = sep_of(os, p);
    let v = verbatim(os, p);
    let k = lead(os, p);
    let f = front(os, p);
    let b = body(v, text::split(rest(os, p), sep));
    if parent_of(os, p) is Some {
        let q = parent_of(os, p)->0;
        if c.len() == 1 && c[0] is Current {
            lemma_no_comps(os);
            assert(c.drop_last() =~= Seq::<Part>::empty());
        } else {
            assert(b.len() > 0) by {
                assert(b.len() == 0 ==> c =~= f);
            }
            lemma_comps_of_pieces(os, p);
            lemma_lead(os, p);
            let s = p.skip(k);
            let d = body(v, text::split(s, sep));
            assert(c.len() == f.len() + b.len() && c.len() == f.len() + d.len());
            lemma_cut_back(v, s, sep);
            let w = trimmed(v, but_last(trimmed(v, s, sep), sep), sep);
            let m = k + w.len();
            assert(w =~= p.subrange(k, m));
            assert(q =~= p.take(m));
            if w.len() > 0 {
                assert(p[m] == s[w.len() as int]);
            }
            lemma_take_comps(os, p, m);
            assert(f + d.drop_last() =~= (f + d).drop_last());
        }
    }
}

/// The root is written `/`, and the empty path has no components, where there are
/// no drives.
pub proof fn law_root(os: HostOs)
    requires
        !(os is Windows),
    ensures
        comps(os, seq!['/']) == seq![Part::Root],
        comps(os, Seq::<char>::empty()) == Seq::<Part>::empty(),
{
    let none = Seq::<char>::empty();
    let sep = Sep::Char('/');
    let p = seq!['/'];
    lemma_no_comps(os);
    lemma_split_head('/', none, sep);
    assert(p =~= seq!['/'] + none);
    assert(text::split(none, sep) =~= seq![none]);
    assert(p.skip(0) =~= p);
    let e = Seq::<Seq<char>>::empty();
    assert(text::split(p, sep) =~= e.push(none).push(none));
    lemma_body_push(false, e, none);
    lemma_body_push(false, e.push(none), none);
    assert(comps(os, p) =~= seq![Part::Root]);
}

/// What stands behind the last slash of a path is its last component: a name as it
/// is written, two dots for the parent directory; one dot and nothing add none, but
/// for a dot that is the whole path. Every path is built up in this way, where
/// there are no drives.
pub proof fn law_components(os: HostOs, a: Seq<char>, n: Seq<char>)
    requires
        !(os is Windows),
        !n.contains('/'),
    ensures
        ({
            let c = comps(os, a);
            let j = comps(os, joined(os, a, n));
            &&& n.len() == 0 ==> j == c
            &&& n == seq!['.'] && a.len() > 0 ==> j == c
            &&& n == seq!['.'] && a.len() == 0 ==> j == seq![Part::Current]
            &&& n == seq!['.', '.'] ==> j == c.push(Part::Parent)
            &&& n.len() > 0 && n != seq!['.'] && n != seq!['.', '.'] ==> j == c.push(Part::Name(n))
        }),
        a.len() > 0 && a.last() != '/' ==> joined(os, a, n) == a + seq!['/'] + n,
        a.len() == 0 || a.last() == '/' ==> joined(os, a, n) == a + n,
{
    let none = Seq::<char>::empty();
    let sep = Sep::Char('/');
    let p = joined(os, a, n);
    assert(n.len() > 0 ==> n[0] != '/') by {
        if n.len() > 0 && n[0] == '/' {
            assert(n.contains('/'));
        }
    }
    let rd = if a.len() == 0 || a.last() == '/' {
        a
    } else {
        a.push('/')
    };
    assert(p =~= rd + n);
    assert(a.push('/') =~= a + seq!['/']);
    assert forall|i: int| 0 <= i < n.len() implies !text::cuts(sep, #[trigger] n[i]) by {
        if n[i] == '/' {
            assert(n.contains('/'));
        }
    }
    lemma_split_append(rd, n, sep);
    text::lemma_split(a, sep);
    text::lemma_split(rd, sep);
    let pa = text::split(a, sep);
    assert(a.skip(0) =~= a);
    assert(p.skip(0) =~= p);
    if a.len() == 0 {
        assert(a =~= none);
        lemma_no_comps(os);
        assert(none + n =~= n);
        assert(text::split(p, sep) =~= seq![n]);
        let e = Seq::<Seq<char>>::empty();
        assert(e.push(n) =~= seq![n]);
        lemma_body_push(false, e, n);
        assert(body(false, e) =~= Seq::<Part>::empty());
        if n.len() == 0 {
            assert(n =~= none);
        }
        assert(seq!['.'] != seq!['.', '.']) by {
            assert(seq!['.'].len() == 1 && seq!['.', '.'].len() == 2);
        }
        assert(n == seq!['.'] ==> comps(os, p) =~= seq![Part::Current]);
        assert(n == seq!['.', '.'] ==> comps(os, p) =~= comps(os, a).push(Part::Parent));
        assert(n.len() > 0 && n != seq!['.'] && n != seq!['.', '.'] ==> comps(os, p) =~= comps(
            os,
            a,
        ).push(Part::Name(n)));
    } else {
        let p0 = text::split(rd.drop_last(), sep);
        text::lemma_split(rd.drop_last(), sep);
        assert(text::cuts(sep, rd.last()));
        assert(text::split(rd, sep) == p0.push(none));
        assert(none + n =~= n);
        assert(text::split(p, sep) =~= p0.push(n));
        lemma_body_push(false, p0, n);
        lemma_body_push(false, p0, none);
        if rd == a {
            assert(pa == p0.push(none));
        } else {
            assert(rd.drop_last() =~= a);
            assert(p0 == pa);
        }
        assert(p[0] == a[0]);
        assert(text::split(p, sep)[0] == pa[0]);
        assert(front(os, p) == front(os, a));
        assert(seq!['.'] != seq!['.', '.']) by {
            assert(seq!['.'].len() == 1 && seq!['.', '.'].len() == 2);
        }
        let f = front(os, a);
        let b = body(false, pa);
        assert(f + b.push(Part::Parent) =~= (f + b).push(Part::Parent));
        assert(f + b.push(Part::Name(n)) =~= (f + b).push(Part::Name(n)));
    }
}

/// A path that begins at the root stands for itself, whatever it is joined to,
/// where there are no drives.
pub proof fn law_rooted_stays(os: HostOs, a: Seq<char>, b: Seq<char>)
    requires
        !(os is Windows),
    ensures
        joined(os, a, seq!['/'] + b) == seq!['/'] + b,
{
}

/// On Windows a path may begin with a drive, whose letter counts the same in both
/// cases; with or without the root behind it, which either slash stands for.
pub proof fn law_drives(c: char, big: char, s: char, n: Seq<char>)
    requires
        'A' <= big <= 'Z',
        c == big || c as int - 'a' as int == big as int - 'A' as int,
        s == '/' || s == '\\',
        n.len() > 0 && n != seq!['.'] && n != seq!['.', '.'],
        !n.contains('/') && !n.contains('\\'),
    ensures
        ({
            let d = Part::Prefix(PrefixKind::Drive, seq![big, ':']);
            &&& comps(HostOs::Windows, seq![c, ':']) == seq![d]
            &&& comps(HostOs::Windows, seq![c, ':'] + n) == seq![d, Part::Name(n)]
            &&& comps(HostOs::Windows, seq![c, ':', s]) == seq![d, Part::Root]
            &&& comps(HostOs::Windows, seq![c, ':', s] + n) == seq![d, Part::Root, Part::Name(n)]
        }),
{
    let os = HostOs::Windows;
    let sep = Sep::Slashes;
    let none = Seq::<char>::empty();
    let e = Seq::<Seq<char>>::empty();
    let d = Part::Prefix(PrefixKind::Drive, seq![big, ':']);
    assert(upper(c) == big);
    assert forall|i: int| 0 <= i < n.len() implies !slash(#[trigger] n[i]) by {
        if slash(n[i]) {
            assert(n.contains('/') || n.contains('\\'));
        }
    }
    assert(text::split(none, sep) =~= e.push(none));
    lemma_body_push(false, e, none);
    lemma_body_push(false, e, n);
    lemma_body_push(false, e.push(none), none);
    lemma_body_push(false, e.push(none), n);
    lemma_split_append(none, n, sep);
    assert(none + n =~= n);
    assert(text::split(n, sep) =~= e.push(n));
    lemma_split_head(s, none, sep);
    lemma_split_head(s, n, sep);
    assert(seq![s] + none =~= seq![s]);
    assert(text::split(seq![s], sep) =~= e.push(none).push(none));
    assert(text::split(seq![s] + n, sep) =~= e.push(none).push(n));
    let p1 = seq![c, ':'];
    assert(p1.skip(2) =~= none);
    assert(comps(os, p1) =~= seq![d]);
    let p2 = seq![c, ':'] + n;
    assert(p2.skip(2) =~= n);
    assert(p2.take(2) =~= p1);
    assert(comps(os, p2) =~= seq![d, Part::Name(n)]);
    let p3 = seq![c, ':', s];
    assert(p3.skip(2) =~= seq![s]);
    assert(comps(os, p3) =~= seq![d, Part::Root]);
    let p4 = seq![c, ':', s] + n;
    assert(p4.skip(2) =~= seq![s] + n);
    assert(comps(os, p4) =~= seq![d, Part::Root, Part::Name(n)]);
}

/// On Windows a path may begin with a server and its share, which have a root of
/// their own.
pub proof fn law_shares(server: Seq<char>, share: Seq<char>)
    requires
        server.len() > 0 && server != seq!['.'] && server != seq!['?'],
        share.len() > 0,
        !server.contains('/') && !server.contains('\\'),
        !share.contains('/') && !share.contains('\\'),
    ensures
        ({
            let p = seq!['\\', '\\'] + server + seq!['\\'] + share;
            comps(HostOs::Windows, p) == seq![Part::Prefix(PrefixKind::Share, p), Part::Root]
        }),
{
    let os = HostOs::Windows;
    let sep = Sep::Slashes;
    let none = Seq::<char>::empty();
    let e = Seq::<Seq<char>>::empty();
    let p = seq!['\\', '\\'] + server + seq!['\\'] + share;
    let a = 2 + server.len() as int;
    assert forall|i: int| 2 <= i < a implies !text::cuts(sep, #[trigger] p[i]) by {
        assert(p[i] == server[i - 2]);
        if slash(p[i]) {
            assert(server.contains('/') || server.contains('\\'));
        }
    }
    assert(p[a] == '\\');
    text::lemma_cut_at(p, sep, 2, a);
    assert forall|i: int| a + 1 <= i < p.len() implies !text::cuts(sep, #[trigger] p[i]) by {
        assert(p[i] == share[i - a - 1]);
        if slash(p[i]) {
            assert(share.contains('/') || share.contains('\\'));
        }
    }
    text::lemma_cut_from(p, sep, a + 1);
    let b = text::cut_from(p, sep, a + 1);
    assert(b == p.len()) by {
        if b < p.len() {
            assert(text::cuts(sep, p[b]));
        }
    }
    assert(!verbatim(os, p)) by {
        if verbatim(os, p) {
            assert(server[0] == p[2]);
            if server.len() == 1 {
                assert(server =~= seq!['?']);
            } else {
                assert(p[3] == server[1]);
                assert(server.contains('\\'));
            }
        }
    }
    assert(!(p[2] == '.' && slash(p[3]))) by {
        if p[2] == '.' && slash(p[3]) {
            assert(server[0] == p[2]);
            if server.len() == 1 {
                assert(server =~= seq!['.']);
            } else {
                assert(p[3] == server[1]);
                assert(server.contains('/') || server.contains('\\'));
            }
        }
    }
    assert(prefix_of(os, p) == Some((PrefixKind::Share, p.len() as int)));
    assert(p.take(p.len() as int) =~= p);
    assert(!p.contains('/')) by {
        if p.contains('/') {
            let k = choose|k: int| 0 <= k < p.len() && p[k] == '/';
            if 2 <= k < a {
                assert(!text::cuts(sep, p[k]));
            } else if k > a {
                assert(!text::cuts(sep, p[k]));
            }
        }
    }
    lemma_replaced_none(p, '/', "\\"@);
    assert(p.skip(p.len() as int) =~= none);
    assert(text::split(none, sep) =~= e.push(none));
    lemma_body_push(false, e, none);
    assert(comps(os, p) =~= seq![Part::Prefix(PrefixKind::Share, p), Part::Root]);
}

proof fn lemma_replaced_none(s: Seq<char>, c: char, by: Seq<char>)
    requires
        !s.contains(c),
    ensures
        text::replaced(s, c, by) == s,
    decreases s.len(),
{
    if s.len() > 0 {
        assert(s[s.len() - 1] == s.last());
        let s0 = s.drop_last();
        assert(!s0.contains(c)) by {
            if s0.contains(c) {
                let k = choose|k: int| 0 <= k < s0.len() && s0[k] == c;
                assert(s[k] == c);
            }
        }
        lemma_replaced_none(s0, c, by);
        assert(s0.push(s.last()) =~= s);
    } else {
        assert(text::replaced(s, c, by) =~= s);
    }
}

/// The names among components are all of them, in their order, and nothing else.
pub proof fn law_names(c: Seq<Part>)
    ensures
        names_of(c) == c.filter(|x: Part| x is Name).map_values(|x: Part| x->Name_0),
    decreases c.len(),
{
    let named = |x: Part| x is Name;
    let text = |x: Part| x->Name_0;
    reveal(Seq::filter);
    if c.len() > 0 {
        let c0 = c.drop_last();
        law_names(c0);
        assert(c0.filter(named).push(c.last()).map_values(text) =~= c0.filter(named).map_values(
            text,
        ).push(c.last()->Name_0));
    }
    assert(names_of(c) =~= c.filter(named).map_values(text));
}

/// A slash of either kind.
fn is_slash(c: char) -> (r: bool)
    ensures
        r == slash(c),
{
    c == '/' || c == '\\'
}

/// A drive stands at this place.
fn is_drive_at(x: &Vec<char>, i: usize) -> (r: bool)
    ensures
        r == drive_at(x@, i as int),
{
    i < x.len() && i + 1 < x.len() && (('a' <= x[i] && x[i] <= 'z') || ('A' <= x[i] && x[i] <= 'Z'))
        && x[i + 1] == ':'
}

/// A path that is written verbatim.
fn is_verbatim(os: HostOs, x: &Vec<char>) -> (r: bool)
    ensures
        r == verbatim(os, x@),
{
    matches!(os, HostOs::Windows) && x.len() >= 4 && x[0] == '\\' && x[1] == '\\' && x[2] == '?'
        && x[3] == '\\'
}

/// Where a path is cut into components.
fn find_sep(os: HostOs, x: &Vec<char>) -> (r: Sep)
    ensures
        r == sep_of(os, x@),
{
    if !matches!(os, HostOs::Windows) {
        Sep::Char('/')
    } else if is_verbatim(os, x) {
        Sep::Char('\\')
    } else {
        Sep::Slashes
    }
}

/// Where a server that begins at `i`, and the share behind it, end.
fn find_share_end(x: &Vec<char>, sep: Sep, i: usize) -> (r: usize)
    requires
        i <= x@.len(),
    ensures
        r == share_end(x@, sep, i as int),
{
    let a = find_cut(x, sep, i);
    if a < x.len() {
        let b = find_cut(x, sep, a + 1);
        if b > a + 1 {
            return b;
        }
    }
    a
}

/// The prefix of a path, and where it ends.
fn find_prefix(os: HostOs, x: &Vec<char>) -> (r: Option<(PrefixKind, usize)>)
    ensures
        match r {
            Some((k, n)) => prefix_of(os, x@) == Some((k, n as int)) && 2 <= n <= x@.len(),
            None => prefix_of(os, x@) is None,
        },
{
    proof {
        lemma_prefix_end(os, x@);
    }
    if !matches!(os, HostOs::Windows) {
        return None;
    }
    if is_verbatim(os, x) {
        let end: usize = if x.len() >= 8 && x[4] == 'U' && x[5] == 'N' && x[6] == 'C' && x[7]
            == '\\' {
            find_share_end(x, Sep::Char('\\'), 8)
        } else if is_drive_at(x, 4) && (x.len() == 6 || x[6] == '\\') {
            6
        } else {
            find_cut(x, Sep::Char('\\'), 4)
        };
        return Some((PrefixKind::Verbatim, end));
    }
    if x.len() >= 2 && is_slash(x[0]) && is_slash(x[1]) {
        if x.len() >= 4 && x[2] == '.' && is_slash(x[3]) {
            return Some((PrefixKind::Device, find_cut(x, Sep::Slashes, 4)));
        }
        let a = find_cut(x, Sep::Slashes, 2);
        let b = find_share_end(x, Sep::Slashes, 2);
        if 2 < a && a < b {
            return Some((PrefixKind::Share, b));
        }
        return None;
    }
    if is_drive_at(x, 0) {
        return Some((PrefixKind::Drive, 2));
    }
    None
}

/// A letter in upper case.
fn to_upper(c: char) -> (r: char)
    ensures
        r == upper(c),
{
    if 'a' <= c && c <= 'z' {
        let n: u8 = c as u8;
        (n - 32) as char
    } else {
        c
    }
}

/// The one spelling of a prefix.
fn spell_prefix(kind: PrefixKind, x: &Vec<char>, n: usize) -> (r: String)
    requires
        2 <= n <= x@.len(),
    ensures
        r@ == prefix_text(kind, x@.take(n as int)),
{
    let t = text_of(x, 0, n);
    assert(t@ =~= x@.take(n as int));
    match kind {
        PrefixKind::Drive => {
            let mut r = String::new();
            r.push(to_upper(x[0]));
            r.push(':');
            assert(r@ =~= prefix_text(kind, t@));
            r
        },
        PrefixKind::Verbatim => if n == 6 && is_drive_at(x, 4) {
            let mut r = text_of(x, 0, 4);
            r.push(to_upper(x[4]));
            r.push(x[5]);
            assert(r@ =~= t@.update(4, upper(t@[4])));
            r
        } else {
            t
        },
        _ => replace_char(t.as_str(), '/', "\\"),
    }
}

/// A text of one dot.
fn is_dot(x: &Vec<char>) -> (r: bool)
    ensures
        r == (x@ == seq!['.']),
{
    let r: bool = x.len() == 1 && x[0] == '.';
    assert(r ==> x@ =~= seq!['.']);
    assert(x@ == seq!['.'] ==> x@.len() == 1 && x@[0] == '.');
    r
}

/// A text of two dots.
fn is_dots(x: &Vec<char>) -> (r: bool)
    ensures
        r == (x@ == seq!['.', '.']),
{
    let r: bool = x.len() == 2 && x[0] == '.' && x[1] == '.';
    assert(r ==> x@ =~= seq!['.', '.']);
    assert(x@ == seq!['.', '.'] ==> x@.len() == 2 && x@[0] == '.' && x@[1] == '.');
    r
}

/// The view of an optional component.
spec fn opt_part(o: Option<Component>) -> Option<Part> {
    match o {
        Some(c) => Some(c@),
        None => None,
    }
}

/// What a piece between slashes stands for.
fn read_piece(verbatim: bool, piece: &Vec<char>) -> (r: Option<Component>)
    ensures
        opt_part(r) == piece_part(verbatim, piece@),
{
    if piece.len() == 0 {
        None
    } else if is_dot(piece) {
        if verbatim {
            Some(Component::Current)
        } else {
            None
        }
    } else if is_dots(piece) {
        Some(Component::Parent)
    } else {
        let n = text_of(piece, 0, piece.len());
        assert(n@ =~= piece@);
        Some(Component::Name(n))
    }
}

/// What a path begins with.
fn read_front(os: HostOs, x: &Vec<char>) -> (r: Vec<Component>)
    ensures
        parts(r@) == front(os, x@),
{
    let sep = find_sep(os, x);
    let mut r: Vec<Component> = Vec::new();
    match find_prefix(os, x) {
        Some((k, n)) => {
            r.push(Component::Prefix(k, spell_prefix(k, x, n)));
            if (n < x.len() && is_cut(sep, x[n])) || matches!(
                k,
                PrefixKind::Share | PrefixKind::Device
            ) {
                r.push(Component::Root);
            }
        },
        None => {
            assert(rest(os, x@) =~= x@);
            let t = text_of(x, 0, x.len());
            assert(t@ =~= x@);
            let pieces = split_text(t.as_str(), sep);
            assert(text::texts(pieces@)[0] == pieces@[0]@);
            if x.len() > 0 && is_cut(sep, x[0]) {
                r.push(Component::Root);
            } else if is_dot(&chars_of(pieces[0].as_str())) {
                r.push(Component::Current);
            }
        },
    }
    assert(parts(r@) =~= front(os, x@));
    r
}

/// The components of a path.
pub fn components(os: HostOs, p: &str) -> (r: Vec<Component>)
    ensures
        parts(r@) == comps(os, p@),
{
    let x = chars_of(p);
    let sep = find_sep(os, &x);
    let v = is_verbatim(os, &x);
    let n: usize = match find_prefix(os, &x) {
        Some((k, n)) => n,
        None => 0,
    };
    let t = text_of(&x, n, x.len());
    assert(t@ =~= rest(os, p@));
    let pieces = split_text(t.as_str(), sep);
    let ghost ps = text::split(t@, sep);
    let mut r = read_front(os, &x);
    let ghost f = front(os, p@);
    let mut i: usize = 0;
    assert(f + body(v, ps.take(0)) =~= f);
    while i < pieces.len()
        invariant
            i <= pieces@.len(),
            text::texts(pieces@) == ps,
            parts(r@) == f + body(v, ps.take(i as int)),
        decreases pieces@.len() - i,
    {
        let c = chars_of(pieces[i].as_str());
        let ghost r0 = r@;
        let ghost b0 = body(v, ps.take(i as int));
        proof {
            assert(ps[i as int] == c@);
            assert(ps.take(i + 1) =~= ps.take(i as int).push(c@));
            lemma_body_push(v, ps.take(i as int), c@);
        }
        match read_piece(v, &c) {
            Some(y) => {
                let ghost yv = y@;
                r.push(y);
                assert(parts(r@) =~= parts(r0).push(yv));
                assert(f + b0.push(yv) =~= (f + b0).push(yv));
            },
            None => {},
        }
        i = i + 1;
    }
    assert(ps.take(ps.len() as int) =~= ps);
    r
}

/// The names among the components of a path, in their order.
pub fn names(os: HostOs, p: &str) -> (r: Vec<String>)
    ensures
        text::texts(r@) == names_of(comps(os, p@)),
{
    let c = components(os, p);
    let mut r: Vec<String> = Vec::new();
    let mut i: usize = 0;
    assert(text::texts(r@) =~= names_of(parts(c@).take(0)));
    while i < c.len()
        invariant
            i <= c@.len(),
            text::texts(r@) == names_of(parts(c@).take(i as int)),
        decreases c@.len() - i,
    {
        let ghost r0 = r@;
        proof {
            assert(parts(c@).take(i + 1).drop_last() =~= parts(c@).take(i as int));
            assert(parts(c@).take(i + 1).last() == c@[i as int]@);
        }
        match &c[i] {
            Component::Name(n) => {
                r.push(n.clone());
                assert(text::texts(r@) =~= text::texts(r0).push(n@));
            },
            _ => {},
        }
        i = i + 1;
    }
    assert(parts(c@).take(parts(c@).len() as int) =~= parts(c@));
    r
}

/// The same component again.
fn copy_of(c: &Component) -> (r: Component)
    ensures
        r@ == c@,
{
    match c {
        Component::Prefix(k, t) => Component::Prefix(*k, t.clone()),
        Component::Root => Component::Root,
        Component::Current => Component::Current,
        Component::Parent => Component::Parent,
        Component::Name(n) => Component::Name(n.clone()),
    }
}

/// Two components are the same.
fn same_part(a: &Component, b: &Component) -> (r: bool)
    ensures
        r == (a@ == b@),
{
    match (a, b) {
        (Component::Prefix(k, t), Component::Prefix(l, u)) => *k == *l && same(
            t.as_str(),
            u.as_str(),
        ),
        (Component::Root, Component::Root) => true,
        (Component::Current, Component::Current) => true,
        (Component::Parent, Component::Parent) => true,
        (Component::Name(n), Component::Name(m)) => same(n.as_str(), m.as_str()),
        _ => false,
    }
}

/// A component behind the prefix and the root, as text.
fn word_of(c: &Component) -> (r: String)
    ensures
        r@ == word(c@),
{
    match c {
        Component::Name(n) => n.clone(),
        Component::Parent => {
            let mut r = String::new();
            r.push('.');
            r.push('.');
            assert(r@ =~= seq!['.', '.']);
            r
        },
        Component::Current => {
            let mut r = String::new();
            r.push('.');
            assert(r@ =~= seq!['.']);
            r
        },
        _ => String::new(),
    }
}

/// The components from `from` on, of which none is a prefix, as text.
fn render(os: HostOs, c: &Vec<Component>, from: usize) -> (r: String)
    requires
        from <= c@.len(),
    ensures
        r@ == rendered(os, parts(c@).skip(from as int)),
{
    let bar = if matches!(os, HostOs::Windows) {
        "\\"
    } else {
        "/"
    };
    proof {
        reveal_strlit("/");
        reveal_strlit("\\");
        assert(bar@ =~= seq![main_sep(os)]);
    }
    let ghost f = |x: Part| word(x);
    let ghost cs = parts(c@).skip(from as int);
    let root: bool = from < c.len() && matches!(c[from], Component::Root);
    assert(from < c@.len() ==> cs[0] == c@[from as int]@);
    let first: usize = if root {
        from + 1
    } else {
        from
    };
    let mut ws: Vec<String> = Vec::new();
    let mut i: usize = first;
    assert(text::texts(ws@) =~= parts(c@).subrange(first as int, i as int).map_values(f));
    while i < c.len()
        invariant
            first <= i <= c@.len(),
            f == (|x: Part| word(x)),
            text::texts(ws@) == parts(c@).subrange(first as int, i as int).map_values(f),
        decreases c@.len() - i,
    {
        let ghost w0 = ws@;
        let w = word_of(&c[i]);
        let ghost wv = w@;
        ws.push(w);
        assert(text::texts(ws@) =~= text::texts(w0).push(wv));
        assert(parts(c@).subrange(first as int, i + 1).map_values(f) =~= parts(c@).subrange(
            first as int,
            i as int,
        ).map_values(f).push(wv));
        i = i + 1;
    }
    let t = join_text(&ws, bar);
    if root {
        assert(text::texts(ws@) =~= cs.skip(1).map_values(f));
        cat2(bar, t.as_str())
    } else {
        assert(text::texts(ws@) =~= cs.map_values(f));
        t
    }
}

/// The components of a path after others were joined to it, one by one.
fn push_parts(c: Vec<Component>, more: &Vec<Component>) -> (r: Vec<Component>)
    ensures
        parts(r@) == pushed(parts(c@), parts(more@)),
{
    let ghost c0 = parts(c@);
    let mut r = c;
    let mut i: usize = 0;
    while i < more.len()
        invariant
            i <= more@.len(),
            parts(r@) == pushed(c0, parts(more@).take(i as int)),
        decreases more@.len() - i,
    {
        let ghost r0 = r@;
        proof {
            assert(parts(more@).take(i + 1).drop_last() =~= parts(more@).take(i as int));
            assert(parts(more@).take(i + 1).last() == more@[i as int]@);
        }
        match &more[i] {
            Component::Root => {
                r.truncate(1);
                r.push(Component::Root);
            },
            Component::Current => {},
            Component::Parent => {
                let n = r.len();
                assert(n > 0 ==> parts(r0).last() == r0.last()@);
                if n > 0 && matches!(r[n - 1], Component::Name(_)) {
                    let _ = r.pop();
                }
            },
            other => {
                r.push(copy_of(other));
            },
        }
        assert(parts(r@) =~= pushed(c0, parts(more@).take(i + 1)));
        i = i + 1;
    }
    assert(parts(more@).take(parts(more@).len() as int) =~= parts(more@));
    r
}

/// `b` below the path `a`, which is written verbatim.
fn rebuild(os: HostOs, a: &str, b: &str) -> (r: String)
    ensures
        r@ == rebuilt(os, a@, b@),
{
    let c = push_parts(components(os, a), &components(os, b));
    let x = chars_of(a);
    let n: usize = match find_prefix(os, &x) {
        Some((k, n)) => n,
        None => 0,
    };
    let mut start = text_of(&x, 0, n);
    assert(start@ =~= a@.take(prefix_len(os, a@)));
    let ghost cs = parts(c@);
    assert(c@.len() > 0 ==> cs[0] == c@[0]@);
    let from: usize = if c.len() > 0 && matches!(c[0], Component::Prefix(..)) {
        1
    } else {
        0
    };
    assert(cs.skip(from as int) =~= behind_prefix(cs));
    assert(from < c@.len() ==> behind_prefix(cs)[0] == c@[from as int]@);
    if from < c.len() && !matches!(c[from], Component::Root) {
        start.push('\\');
    }
    start.append(render(os, &c, from).as_str());
    start
}

/// `b` below `a`.
pub fn join_path(os: HostOs, a: &str, b: &str) -> (r: String)
    ensures
        r@ == joined(os, a@, b@),
        !(os is Windows) && b@.len() > 0 && b@[0] == '/' ==> r@ == b@,
        !(os is Windows) && (b@.len() == 0 || b@[0] != '/') ==> r@ == if a@.len() == 0 || a@.last()
            == '/' {
            a@ + b@
        } else {
            a@ + seq!['/'] + b@
        },
{
    proof {
        assert(a@.push('/') =~= a@ + seq!['/']);
    }
    let x = chars_of(a);
    let y = chars_of(b);
    let mut r = a.to_owned();
    if !matches!(os, HostOs::Windows) {
        if y.len() > 0 && y[0] == '/' {
            return b.to_owned();
        }
        if x.len() > 0 && x[x.len() - 1] != '/' {
            r.push('/');
        }
    } else {
        if find_prefix(os, &y).is_some() {
            return b.to_owned();
        }
        if is_verbatim(os, &x) && y.len() > 0 {
            return rebuild(os, a, b);
        }
        if y.len() > 0 && is_slash(y[0]) {
            let n: usize = match find_prefix(os, &x) {
                Some((k, n)) => n,
                None => 0,
            };
            let start = text_of(&x, 0, n);
            assert(start@ =~= a@.take(n as int));
            return cat2(start.as_str(), b);
        }
        if x.len() > 0 && !is_slash(x[x.len() - 1]) && !(x.len() == 2 && is_drive_at(&x, 0)) {
            r.push('\\');
        }
    }
    r.append(b);
    r
}

/// Where the last piece of the text up to `to` begins.
fn piece_start(x: &Vec<char>, from: usize, to: usize, sep: Sep) -> (r: usize)
    requires
        from <= to <= x@.len(),
    ensures
        from <= r <= to,
        x@.subrange(r as int, to as int) == last_piece(x@.subrange(from as int, to as int), sep),
        but_last(x@.subrange(from as int, to as int), sep) == if r > from {
            x@.subrange(from as int, r - 1)
        } else {
            Seq::empty()
        },
{
    let mut k: usize = to;
    let ghost t = x@.subrange(from as int, to as int);
    let ghost mut tail = Seq::<char>::empty();
    assert(x@.subrange(to as int, to as int) =~= tail);
    assert(last_piece(t, sep) =~= last_piece(t, sep) + tail);
    while k > from && !is_cut(sep, x[k - 1])
        invariant
            from <= k <= to <= x@.len(),
            t == x@.subrange(from as int, to as int),
            tail == x@.subrange(k as int, to as int),
            last_piece(t, sep) == last_piece(x@.subrange(from as int, k as int), sep) + tail,
            but_last(t, sep) == but_last(x@.subrange(from as int, k as int), sep),
        decreases k,
    {
        let ghost u = x@.subrange(from as int, k as int);
        proof {
            assert(u.drop_last() =~= x@.subrange(from as int, k - 1));
            assert(u.last() == x@[k - 1]);
            let tail2 = x@.subrange(k - 1, to as int);
            assert(last_piece(u.drop_last(), sep).push(u.last()) + tail =~= last_piece(
                u.drop_last(),
                sep,
            ) + tail2);
            tail = tail2;
        }
        k = k - 1;
    }
    proof {
        let u = x@.subrange(from as int, k as int);
        assert(Seq::<char>::empty() + tail =~= tail);
        if k > from {
            assert(u.last() == x@[k - 1]);
            assert(u.drop_last() =~= x@.subrange(from as int, k - 1));
        } else {
            assert(u =~= Seq::<char>::empty());
        }
    }
    k
}

/// Where the text before the last piece of the text up to `to` ends.
fn piece_end(x: &Vec<char>, from: usize, to: usize, sep: Sep) -> (r: usize)
    requires
        from <= to <= x@.len(),
    ensures
        from <= r <= to,
        from < to ==> r < to,
        x@.subrange(from as int, r as int) == but_last(x@.subrange(from as int, to as int), sep),
{
    let k = piece_start(x, from, to, sep);
    proof {
        if from < to {
            lemma_but_last(x@.subrange(from as int, to as int), sep);
        }
    }
    if k > from {
        k - 1
    } else {
        assert(x@.subrange(from as int, from as int) =~= Seq::<char>::empty());
        from
    }
}

/// Where the text up to `to` ends without the pieces at its end that stand for
/// nothing.
fn trim_pieces(verbatim: bool, x: &Vec<char>, from: usize, to: usize, sep: Sep) -> (r: usize)
    requires
        from <= to <= x@.len(),
    ensures
        from <= r <= to,
        x@.subrange(from as int, r as int) == trimmed(
            verbatim,
            x@.subrange(from as int, to as int),
            sep,
        ),
{
    let mut k: usize = to;
    while k > from
        invariant
            from <= k <= to <= x@.len(),
            trimmed(verbatim, x@.subrange(from as int, to as int), sep) == trimmed(
                verbatim,
                x@.subrange(from as int, k as int),
                sep,
            ),
        decreases k,
    {
        let s = piece_start(x, from, k, sep);
        let t = chars_of(text_of(x, s, k).as_str());
        if read_piece(verbatim, &t).is_some() {
            return k;
        }
        k = piece_end(x, from, k, sep);
    }
    k
}

/// How much of a path comes before its pieces.
fn find_lead(os: HostOs, x: &Vec<char>) -> (r: usize)
    ensures
        r == lead(os, x@),
        r <= x@.len(),
{
    let sep = find_sep(os, x);
    let (n, bare): (usize, bool) = match find_prefix(os, x) {
        Some((k, n)) => (n, matches!(k, PrefixKind::Drive)),
        None => (0, true),
    };
    proof {
        lemma_lead(os, x@);
        lemma_dotted(rest(os, x@), sep);
    }
    if n >= x.len() {
        return n;
    }
    assert(rest(os, x@)[0] == x@[n as int]);
    if is_cut(sep, x[n]) {
        return n + 1;
    }
    if bare && x[n] == '.' && !is_cut(sep, '.') {
        if n + 1 == x.len() {
            return n + 1;
        }
        assert(rest(os, x@)[1] == x@[n + 1]);
        if is_cut(sep, x[n + 1]) {
            return n + 1;
        }
    }
    n
}

/// The path without its last component.
pub fn parent(os: HostOs, p: &str) -> (r: Option<String>)
    ensures
        text::opt_text(r) == parent_of(os, p@),
        r is None <==> comps(os, p@).len() == 0 || comps(os, p@).last() is Root || comps(
            os,
            p@,
        ).last() is Prefix,
        r matches Some(q) ==> comps(os, q@) == comps(os, p@).drop_last(),
{
    proof {
        law_parent(os, p@);
    }
    let c = components(os, p);
    let m = c.len();
    if m == 0 {
        return None;
    }
    assert(parts(c@).last() == c@.last()@ && parts(c@)[0] == c@[0]@);
    if matches!(c[m - 1], Component::Root) || matches!(c[m - 1], Component::Prefix(..)) {
        return None;
    }
    if m == 1 && matches!(c[0], Component::Current) {
        return Some(String::new());
    }
    let x = chars_of(p);
    let sep = find_sep(os, &x);
    let v = is_verbatim(os, &x);
    let k = find_lead(os, &x);
    assert(x@.subrange(k as int, x@.len() as int) =~= p@.skip(k as int));
    let a = trim_pieces(v, &x, k, x.len(), sep);
    let b = piece_end(&x, k, a, sep);
    let d = trim_pieces(v, &x, k, b, sep);
    let r = text_of(&x, 0, d);
    assert(r@ =~= p@.take(k as int) + x@.subrange(k as int, d as int));
    Some(r)
}

/// The last component, where it is a name.
pub fn file_name(os: HostOs, p: &str) -> (r: Option<String>)
    ensures
        text::opt_text(r) == name_of(os, p@),
        r is Some <==> comps(os, p@).len() > 0 && comps(os, p@).last() is Name,
        r matches Some(n) ==> comps(os, p@).last() == Part::Name(n@),
{
    let c = components(os, p);
    if c.len() == 0 {
        return None;
    }
    assert(parts(c@).last() == c@.last()@);
    match &c[c.len() - 1] {
        Component::Name(n) => Some(n.clone()),
        _ => None,
    }
}

/// The components of `q` are the first ones of `p`.
pub fn is_within(os: HostOs, p: &str, q: &str) -> (r: bool)
    ensures
        r == within(os, p@, q@),
        r <==> comps(os, q@).is_prefix_of(comps(os, p@)),
{
    let a = components(os, p);
    let b = components(os, q);
    let ghost cp = comps(os, p@);
    let ghost cq = comps(os, q@);
    if b.len() > a.len() {
        return false;
    }
    let mut i: usize = 0;
    while i < b.len()
        invariant
            i <= b@.len() <= a@.len(),
            parts(a@) == cp,
            parts(b@) == cq,
            cp == comps(os, p@),
            cq == comps(os, q@),
            forall|j: int| 0 <= j < i ==> cp[j] == cq[j],
        decreases b@.len() - i,
    {
        assert(parts(a@)[i as int] == a@[i as int]@);
        assert(parts(b@)[i as int] == b@[i as int]@);
        if !same_part(&a[i], &b[i]) {
            assert(cp.subrange(0, cq.len() as int)[i as int] != cq[i as int]);
            return false;
        }
        i = i + 1;
    }
    assert(cq =~= cp.subrange(0, cq.len() as int));
    true
}

/// `s` is a name of one component.
pub fn is_single_component(os: HostOs, s: &str) -> (r: bool)
    ensures
        r == single_component(os, s@),
        r ==> s@.len() > 0 && s@ != seq!['.'] && s@ != seq!['.', '.'] && !s@.contains('/')
            && !s@.contains('\\'),
{
    proof {
        let two = seq!['.', '.'];
        if s@ == two {
            assert(s@[0] == '.' && s@[0int + 1] == '.');
        }
    }
    let x = chars_of(s);
    if x.len() == 0 || is_dot(&x) {
        return false;
    }
    if matches!(os, HostOs::Windows) && is_drive_at(&x, 0) {
        return false;
    }
    let mut i: usize = 0;
    while i < x.len()
        invariant
            i <= x@.len(),
            x@ == s@,
            forall|j: int| 0 <= j < i ==> x@[j] != '/' && x@[j] != '\\',
            forall|j: int| 0 <= j < i - 1 ==> !(#[trigger] x@[j] == '.' && x@[j + 1] == '.'),
        decreases x@.len() - i,
    {
        if is_slash(x[i]) {
            assert(s@[i as int] == x@[i as int]);
            return false;
        }
        if i > 0 && x[i - 1] == '.' && x[i] == '.' {
            assert(s@[i - 1] == '.' && s@[(i - 1) + 1] == '.');
            return false;
        }
        i = i + 1;
    }
    true
}

/// Two spellings of the same path.
pub fn same_path(os: HostOs, a: &str, b: &str) -> (r: bool)
    ensures
        r == (comps(os, a@) == comps(os, b@)),
{
    let r = is_within(os, a, b) && is_within(os, b, a);
    proof {
        if r {
            assert(comps(os, a@) =~= comps(os, b@));
        }
    }
    r
}

} // verus!
