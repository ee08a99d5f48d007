//! `diff`: what a worktree changes, for people to read.

use vstd::prelude::*;
use crate::backend::{recover_stale_mount, Recovery};
use crate::number;
use crate::number::decimal_text;
use crate::state;
use crate::state::sanitize_display;
use crate::steps;
use crate::text;
use crate::text::{cat2, cat3, cat4, cat5, put, split_lines};

verus! {

/// What happened to a path or a key.
#[derive(Clone, Copy, Debug, PartialEq, Eq, Structural)]
pub enum ChangeKind {
    Added,
    Modified,
    Deleted,
}

/// A change of one key of a structured file.
#[derive(Debug)]
pub struct KeyChange {
    pub key: String,
    pub kind: ChangeKind,
    pub old_value: Option<String>,
    pub new_value: Option<String>,
}

/// What changed in a file.
#[derive(Debug)]
pub enum ContentDiff {
    Text { unified: String },
    Keys { changes: Vec<KeyChange> },
    Binary,
}

/// A change of one path.
#[derive(Debug)]
pub struct FileChange {
    pub path: String,
    pub kind: ChangeKind,
    pub detail: Option<ContentDiff>,
}

/// The letter for a change of a path.
pub open spec fn letter(k: ChangeKind) -> Seq<char> {
    match k {
        ChangeKind::Added => "A"@,
        ChangeKind::Modified => "M"@,
        ChangeKind::Deleted => "D"@,
    }
}

/// The sign for a change of a key.
pub open spec fn sign(k: ChangeKind) -> Seq<char> {
    match k {
        ChangeKind::Added => "+"@,
        ChangeKind::Modified => "~"@,
        ChangeKind::Deleted => "-"@,
    }
}

/// The line for a change of a key; none where there is neither an old nor a new
/// value.
pub open spec fn key_line(k: KeyChange) -> Option<Seq<char>> {
    let head = "    "@ + sign(k.kind) + " "@ + state::shown(k.key@);
    match (k.old_value, k.new_value) {
        (Some(o), Some(n)) => Some(
            head + ": "@ + state::shown(o@) + " -> "@ + state::shown(n@),
        ),
        (None, Some(n)) => Some(head + ": "@ + state::shown(n@)),
        (Some(o), None) => Some(head + ": (was "@ + state::shown(o@) + ")"@),
        (None, None) => None,
    }
}

/// The lines for the first `n` changes of keys.
pub open spec fn key_lines(ks: Seq<KeyChange>, n: int) -> Seq<Seq<char>>
    decreases n,
{
    if n <= 0 {
        Seq::empty()
    } else {
        match key_line(ks[n - 1]) {
            Some(l) => key_lines(ks, n - 1).push(l),
            None => key_lines(ks, n - 1),
        }
    }
}

/// The first `n` lines of a text, set in.
pub open spec fn text_lines(ls: Seq<Seq<char>>, n: int) -> Seq<Seq<char>>
    decreases n,
{
    if n <= 0 {
        Seq::empty()
    } else {
        text_lines(ls, n - 1).push("    "@ + state::shown(ls[n - 1]))
    }
}

/// The lines for what changed in a file.
pub open spec fn detail_lines(d: Option<ContentDiff>) -> Seq<Seq<char>> {
    match d {
        None => Seq::empty(),
        Some(ContentDiff::Binary) => seq!["    (binary content changed)"@],
        Some(ContentDiff::Text { unified }) => text_lines(
            text::lines(unified@),
            text::lines(unified@).len() as int,
        ),
        Some(ContentDiff::Keys { changes }) => key_lines(changes@, changes@.len() as int),
    }
}

/// The lines for one change: its letter and path, then what changed in it.
pub open spec fn change_lines(c: FileChange) -> Seq<Seq<char>> {
    seq![letter(c.kind) + "  "@ + state::shown(c.path@)] + detail_lines(c.detail)
}

/// The lines for the first `n` changes.
pub open spec fn changes_lines(cs: Seq<FileChange>, n: int) -> Seq<Seq<char>>
    decreases n,
{
    if n <= 0 {
        Seq::empty()
    } else {
        changes_lines(cs, n - 1) + change_lines(cs[n - 1])
    }
}

/// The number of changes of a kind among the first `n`.
pub open spec fn count(cs: Seq<FileChange>, k: ChangeKind, n: int) -> nat
    decreases n,
{
    if n <= 0 {
        0
    } else {
        count(cs, k, n - 1) + if cs[n - 1].kind == k {
            1nat
        } else {
            0nat
        }
    }
}

/// The line with the counts.
pub open spec fn summary_line(cs: Seq<FileChange>) -> Seq<char> {
    let n = cs.len() as int;
    "summary: "@ + number::decimal(count(cs, ChangeKind::Added, n)) + " added, "@
        + number::decimal(count(cs, ChangeKind::Modified, n)) + " modified, "@ + number::decimal(
        count(cs, ChangeKind::Deleted, n),
    ) + " deleted"@
}

/// The report of all changes, for people; with `stat`, only the line with the
/// counts.
pub open spec fn human(cs: Seq<FileChange>, stat: bool) -> Seq<Seq<char>> {
    if cs.len() == 0 {
        seq!["no changes"@]
    } else if stat {
        seq![summary_line(cs)]
    } else {
        changes_lines(cs, cs.len() as int).push(summary_line(cs))
    }
}

fn put_key(out: &mut Vec<String>, k: &KeyChange)
    ensures
        text::texts(final(out)@) == match key_line(*k) {
            Some(l) => text::texts(old(out)@).push(l),
            None => text::texts(old(out)@),
        },
{
    let tag = match k.kind {
        ChangeKind::Added => "+",
        ChangeKind::Modified => "~",
        ChangeKind::Deleted => "-",
    };
    let key = sanitize_display(k.key.as_str());
    let head = cat4("    ", tag, " ", key.as_str());
    match (&k.old_value, &k.new_value) {
        (Some(o), Some(n)) => {
            let old_shown = sanitize_display(o.as_str());
            let new_shown = sanitize_display(n.as_str());
            put(
                out,
                cat5(head.as_str(), ": ", old_shown.as_str(), " -> ", new_shown.as_str()),
            );
        },
        (None, Some(n)) => {
            let new_shown = sanitize_display(n.as_str());
            put(out, cat3(head.as_str(), ": ", new_shown.as_str()));
        },
        (Some(o), None) => {
            let old_shown = sanitize_display(o.as_str());
            put(out, cat4(head.as_str(), ": (was ", old_shown.as_str(), ")"));
        },
        (None, None) => {},
    }
}

fn put_detail(out: &mut Vec<String>, d: &Option<ContentDiff>)
    ensures
        text::texts(final(out)@) == text::texts(old(out)@) + detail_lines(*d),
{
    let ghost start = text::texts(out@);
    match d {
        None => {
            assert(start =~= start + detail_lines(*d));
        },
        Some(ContentDiff::Binary) => {
            put(out, "    (binary content changed)".to_owned());
            assert(text::texts(out@) =~= start + detail_lines(*d));
        },
        Some(ContentDiff::Text { unified }) => {
            let ls = split_lines(unified.as_str());
            let ghost all = text::lines(unified@);
            let mut i: usize = 0;
            assert(text::texts(out@) =~= start + text_lines(all, 0));
            while i < ls.len()
                invariant
                    i <= ls@.len(),
                    all == text::texts(ls@),
                    text::texts(out@) == start + text_lines(all, i as int),
                decreases ls@.len() - i,
            {
                assert(all[i as int] == ls@[i as int]@);
                let shown = sanitize_display(ls[i].as_str());
                put(out, cat2("    ", shown.as_str()));
                i = i + 1;
                assert(text::texts(out@) =~= start + text_lines(all, i as int));
            }
        },
        Some(ContentDiff::Keys { changes }) => {
            let mut i: usize = 0;
            assert(text::texts(out@) =~= start + key_lines(changes@, 0));
            while i < changes.len()
                invariant
                    i <= changes@.len(),
                    text::texts(out@) == start + key_lines(changes@, i as int),
                decreases changes@.len() - i,
            {
                put_key(out, &changes[i]);
                i = i + 1;
                assert(text::texts(out@) =~= start + key_lines(changes@, i as int));
            }
        },
    }
}

/// The report of all changes, for people: one line for each, with what changed
/// in it, and the counts; with `stat`, the counts only. No control or layout
/// character of a path or a file reaches the terminal.
pub fn print_human(changes: &Vec<FileChange>, stat: bool) -> (r: Vec<String>)
    ensures
        text::texts(r@) == human(changes@, stat),
        changes@.len() > 0 ==> text::texts(r@).last() == "summary: "@ + number::decimal(
            changes@.filter(|c: FileChange| c.kind is Added).len(),
        ) + " added, "@ + number::decimal(
            changes@.filter(|c: FileChange| c.kind is Modified).len(),
        ) + " modified, "@ + number::decimal(
            changes@.filter(|c: FileChange| c.kind is Deleted).len(),
        ) + " deleted"@,
        changes@.len() == 0 ==> text::texts(r@) == seq!["no changes"@],
        changes@.len() > 0 && stat ==> r@.len() == 1,
{
    proof {
        if changes@.len() > 0 {
            law_summary_counts(changes@, stat);
        }
    }
    let mut out: Vec<String> = Vec::new();
    if changes.len() == 0 {
        put(&mut out, "no changes".to_owned());
        assert(text::texts(out@) =~= human(changes@, stat));
        return out;
    }
    let mut a: usize = 0;
    let mut m: usize = 0;
    let mut d: usize = 0;
    let mut i: usize = 0;
    assert(text::texts(out@) =~= Seq::<Seq<char>>::empty());
    while i < changes.len()
        invariant
            i <= changes@.len(),
            changes@.len() <= usize::MAX,
            a == count(changes@, ChangeKind::Added, i as int),
            m == count(changes@, ChangeKind::Modified, i as int),
            d == count(changes@, ChangeKind::Deleted, i as int),
            a + m + d == i,
            text::texts(out@) == if stat {
                Seq::empty()
            } else {
                changes_lines(changes@, i as int)
            },
        decreases changes@.len() - i,
    {
        let c = &changes[i];
        let ghost before = text::texts(out@);
        let tag = match c.kind {
            ChangeKind::Added => {
                a = a + 1;
                "A"
            },
            ChangeKind::Modified => {
                m = m + 1;
                "M"
            },
            ChangeKind::Deleted => {
                d = d + 1;
                "D"
            },
        };
        if !stat {
            let shown = sanitize_display(c.path.as_str());
            put(&mut out, cat3(tag, "  ", shown.as_str()));
            assert(text::texts(out@) =~= before + seq![
                letter(c.kind) + "  "@ + state::shown(c.path@),
            ]);
            put_detail(&mut out, &c.detail);
            assert(text::texts(out@) =~= changes_lines(changes@, i + 1));
        }
        i = i + 1;
    }
    let sa = decimal_text(a as u128);
    let sm = decimal_text(m as u128);
    let sd = decimal_text(d as u128);
    put(
        &mut out,
        cat5("summary: ", sa.as_str(), " added, ", sm.as_str(), " modified, ").concat(
            sd.as_str(),
        ).concat(" deleted"),
    );
    assert(text::texts(out@) =~= human(changes@, stat));
    out
}

/// The report of all changes, for programs: the list of them as the engine
/// writes it, which is empty where there are none.
pub open spec fn machine(changes: nat, written: Seq<char>) -> Seq<char> {
    if changes == 0 {
        "[]"@
    } else {
        written
    }
}

/// The report of all changes, for programs. `written` is the list of them as the
/// engine writes it.
pub fn print_json(changes: usize, written: &str) -> (r: String)
    ensures
        r@ == machine(changes as nat, written@),
        changes == 0 ==> r@ == "[]"@,
        changes > 0 ==> r@ == written@,
{
    if changes == 0 {
        "[]".to_owned()
    } else {
        written.to_owned()
    }
}

proof fn lemma_count(cs: Seq<FileChange>, k: ChangeKind, n: int)
    requires
        0 <= n <= cs.len(),
    ensures
        count(cs, k, n) == cs.take(n).filter(|c: FileChange| c.kind == k).len(),
    decreases n,
{
    let f = |c: FileChange| c.kind == k;
    reveal(Seq::filter);
    if n > 0 {
        lemma_count(cs, k, n - 1);
        assert(cs.take(n).drop_last() =~= cs.take(n - 1));
        assert(cs.take(n).last() == cs[n - 1]);
    }
}

/// The last line of a report says how many of the changes are of each kind: as
/// many are added as there are changes of that kind, and so for those that are
/// modified and those that are deleted. Where there is no change, it says that.
pub proof fn law_summary_counts(cs: Seq<FileChange>, stat: bool)
    ensures
        cs.len() > 0 ==> human(cs, stat).last() == "summary: "@ + number::decimal(
            cs.filter(|c: FileChange| c.kind is Added).len(),
        ) + " added, "@ + number::decimal(cs.filter(|c: FileChange| c.kind is Modified).len())
            + " modified, "@ + number::decimal(
            cs.filter(|c: FileChange| c.kind is Deleted).len(),
        ) + " deleted"@,
        cs.len() > 0 && stat ==> human(cs, stat).len() == 1,
        cs.len() == 0 ==> human(cs, stat) == seq!["no changes"@],
{
    let n = cs.len() as int;
    assert(cs.take(n) =~= cs);
    lemma_count(cs, ChangeKind::Added, n);
    lemma_count(cs, ChangeKind::Modified, n);
    lemma_count(cs, ChangeKind::Deleted, n);
    lemma_same_filter(
        cs,
        |c: FileChange| c.kind == ChangeKind::Added,
        |c: FileChange| c.kind is Added,
    );
    lemma_same_filter(
        cs,
        |c: FileChange| c.kind == ChangeKind::Modified,
        |c: FileChange| c.kind is Modified,
    );
    lemma_same_filter(
        cs,
        |c: FileChange| c.kind == ChangeKind::Deleted,
        |c: FileChange| c.kind is Deleted,
    );
}

proof fn lemma_same_filter(
    cs: Seq<FileChange>,
    f: spec_fn(FileChange) -> bool,
    g: spec_fn(FileChange) -> bool,
)
    requires
        forall|c: FileChange| f(c) == #[trigger] g(c),
    ensures
        cs.filter(f) == cs.filter(g),
    decreases cs.len(),
{
    reveal(Seq::filter);
    if cs.len() > 0 {
        lemma_same_filter(cs.drop_last(), f, g);
        assert(f(cs.last()) == g(cs.last()));
    }
}

/// What a report shows of one change: first a line with `A`, `M` or `D` and the
/// path; then, where it is known, what changed in the file: that it is binary, or
/// every line of the difference set in by four, or for each key its sign, its name
/// and its old and new values.
pub proof fn law_change_is_shown(c: FileChange, i: int)
    ensures
        ({
            let t = change_lines(c);
            &&& t.len() >= 1
            &&& c.kind is Added ==> t[0] == "A"@ + "  "@ + state::shown(c.path@)
            &&& c.kind is Modified ==> t[0] == "M"@ + "  "@ + state::shown(c.path@)
            &&& c.kind is Deleted ==> t[0] == "D"@ + "  "@ + state::shown(c.path@)
            &&& c.detail is None ==> t.len() == 1
            &&& c.detail matches Some(ContentDiff::Binary) ==> t.len() == 2 && t[1]
                == "    (binary content changed)"@
            &&& c.detail matches Some(ContentDiff::Text { unified }) ==> {
                let ls = text::lines(unified@);
                &&& t.len() == 1 + ls.len()
                &&& 0 <= i < ls.len() ==> t[1 + i] == "    "@ + state::shown(ls[i])
            }
            &&& c.detail matches Some(ContentDiff::Keys { changes }) ==> ((forall|j: int|
                0 <= j < changes@.len() ==> (#[trigger] changes@[j]).old_value is Some
                    || changes@[j].new_value is Some) ==> t.len() == 1 + changes@.len() && (0 <= i
                < changes@.len() ==> t[1 + i] == key_words(changes@[i])))
        }),
{
    if let Some(ContentDiff::Text { unified }) = c.detail {
        let ls = text::lines(unified@);
        lemma_text_lines(ls, ls.len() as int, i);
    }
    if let Some(ContentDiff::Keys { changes }) = c.detail {
        if forall|j: int|
            0 <= j < changes@.len() ==> (#[trigger] changes@[j]).old_value is Some
                || changes@[j].new_value is Some {
            lemma_key_lines(changes@, changes@.len() as int, i);
        }
    }
}

/// A change of a key that has a value, in words.
pub open spec fn key_words(k: KeyChange) -> Seq<char> {
    let sign = if k.kind is Added {
        "+"@
    } else if k.kind is Deleted {
        "-"@
    } else {
        "~"@
    };
    let head = "    "@ + sign + " "@ + state::shown(k.key@);
    if k.old_value is None {
        head + ": "@ + state::shown(k.new_value->0@)
    } else if k.new_value is None {
        head + ": (was "@ + state::shown(k.old_value->0@) + ")"@
    } else {
        head + ": "@ + state::shown(k.old_value->0@) + " -> "@ + state::shown(k.new_value->0@)
    }
}

proof fn lemma_text_lines(ls: Seq<Seq<char>>, n: int, i: int)
    requires
        0 <= n <= ls.len(),
    ensures
        text_lines(ls, n).len() == n,
        0 <= i < n ==> text_lines(ls, n)[i] == "    "@ + state::shown(ls[i]),
    decreases n,
{
    if n > 0 {
        lemma_text_lines(ls, n - 1, i);
    }
}

proof fn lemma_key_lines(ks: Seq<KeyChange>, n: int, i: int)
    requires
        0 <= n <= ks.len(),
        forall|j: int|
            0 <= j < ks.len() ==> (#[trigger] ks[j]).old_value is Some || ks[j].new_value is Some,
    ensures
        key_lines(ks, n).len() == n,
        0 <= i < n ==> key_lines(ks, n)[i] == key_words(ks[i]),
    decreases n,
{
    if n > 0 {
        lemma_key_lines(ks, n - 1, i);
        assert(ks[n - 1].old_value is Some || ks[n - 1].new_value is Some);
    }
}

/// A report that is not cut to its summary shows every change, in their order:
/// behind the lines of those before it come the lines of each.
pub proof fn law_every_change_is_shown(cs: Seq<FileChange>, n: int)
    requires
        0 <= n < cs.len(),
    ensures
        (changes_lines(cs, n) + change_lines(cs[n])).is_prefix_of(human(cs, false)),
        changes_lines(cs, 0).len() == 0,
        changes_lines(cs, n + 1) == changes_lines(cs, n) + change_lines(cs[n]),
        human(cs, false).drop_last() == changes_lines(cs, cs.len() as int),
{
    lemma_changes_prefix(cs, n + 1, cs.len() as int);
    let all = changes_lines(cs, cs.len() as int);
    let part = changes_lines(cs, n + 1);
    assert(human(cs, false).drop_last() =~= all);
    assert(part =~= human(cs, false).subrange(0, part.len() as int)) by {
        assert(part =~= all.subrange(0, part.len() as int));
    }
}

proof fn lemma_changes_prefix(cs: Seq<FileChange>, m: int, n: int)
    requires
        0 <= m <= n <= cs.len(),
    ensures
        changes_lines(cs, m).is_prefix_of(changes_lines(cs, n)),
    decreases n - m,
{
    if m < n {
        lemma_changes_prefix(cs, m, n - 1);
        let (a, b, c) = (changes_lines(cs, m), changes_lines(cs, n - 1), changes_lines(cs, n));
        assert(a =~= c.subrange(0, a.len() as int)) by {
            assert(a =~= b.subrange(0, a.len() as int));
        }
    } else {
        assert(changes_lines(cs, m) =~= changes_lines(cs, n).subrange(
            0,
            changes_lines(cs, m).len() as int,
        ));
    }
}

/// Every change is counted once.
pub proof fn law_counts_add_up(cs: Seq<FileChange>, n: int)
    requires
        0 <= n <= cs.len(),
    ensures
        count(cs, ChangeKind::Added, n) + count(cs, ChangeKind::Modified, n) + count(
            cs,
            ChangeKind::Deleted,
            n,
        ) == n,
    decreases n,
{
    if n > 0 {
        law_counts_add_up(cs, n - 1);
    }
}

/// No character of these lines must be kept from the terminal.
pub open spec fn safe(ls: Seq<Seq<char>>) -> bool {
    forall|i: int, j: int|
        0 <= i < ls.len() && 0 <= j < ls[i].len() ==> !state::unsafe_char(#[trigger] ls[i][j])
}

/// No character of this text must be kept from the terminal.
pub open spec fn safe_text(s: Seq<char>) -> bool {
    forall|j: int| 0 <= j < s.len() ==> !state::unsafe_char(#[trigger] s[j])
}

proof fn lemma_safe_push(ls: Seq<Seq<char>>, l: Seq<char>)
    requires
        safe(ls),
        safe_text(l),
    ensures
        safe(ls.push(l)),
{
}

proof fn lemma_safe_shown(s: Seq<char>)
    ensures
        safe_text(state::shown(s)),
{
    state::law_shown_is_safe(s);
}

proof fn lemma_safe_concat(a: Seq<char>, b: Seq<char>)
    requires
        safe_text(a),
        safe_text(b),
    ensures
        safe_text(a + b),
{
}

proof fn lemma_safe_literals()
    ensures
        safe_text("    "@),
        safe_text("  "@),
        safe_text(" "@),
        safe_text(": "@),
        safe_text(" -> "@),
        safe_text(": (was "@),
        safe_text(")"@),
        safe_text("+"@),
        safe_text("~"@),
        safe_text("-"@),
        safe_text("A"@),
        safe_text("M"@),
        safe_text("D"@),
        safe_text("    (binary content changed)"@),
{
    reveal_strlit("    ");
    reveal_strlit("  ");
    reveal_strlit(" ");
    reveal_strlit(": ");
    reveal_strlit(" -> ");
    reveal_strlit(": (was ");
    reveal_strlit(")");
    reveal_strlit("+");
    reveal_strlit("~");
    reveal_strlit("-");
    reveal_strlit("A");
    reveal_strlit("M");
    reveal_strlit("D");
    reveal_strlit("    (binary content changed)");
}

proof fn lemma_safe_keys(ks: Seq<KeyChange>, n: int)
    requires
        0 <= n <= ks.len(),
    ensures
        safe(key_lines(ks, n)),
    decreases n,
{
    if n > 0 {
        lemma_safe_keys(ks, n - 1);
        lemma_safe_literals();
        let k = ks[n - 1];
        let key = state::shown(k.key@);
        lemma_safe_shown(k.key@);
        let a = "    "@ + sign(k.kind);
        let b = a + " "@;
        lemma_safe_concat("    "@, sign(k.kind));
        lemma_safe_concat(a, " "@);
        lemma_safe_concat(b, key);
        let head = b + key;
        match (k.old_value, k.new_value) {
            (Some(o), Some(v)) => {
                lemma_safe_shown(o@);
                lemma_safe_shown(v@);
                lemma_safe_concat(head, ": "@);
                lemma_safe_concat(head + ": "@, state::shown(o@));
                lemma_safe_concat(head + ": "@ + state::shown(o@), " -> "@);
                lemma_safe_concat(head + ": "@ + state::shown(o@) + " -> "@, state::shown(v@));
            },
            (None, Some(v)) => {
                lemma_safe_shown(v@);
                lemma_safe_concat(head, ": "@);
                lemma_safe_concat(head + ": "@, state::shown(v@));
            },
            (Some(o), None) => {
                lemma_safe_shown(o@);
                lemma_safe_concat(head, ": (was "@);
                lemma_safe_concat(head + ": (was "@, state::shown(o@));
                lemma_safe_concat(head + ": (was "@ + state::shown(o@), ")"@);
            },
            (None, None) => {},
        }
        if let Some(l) = key_line(k) {
            lemma_safe_push(key_lines(ks, n - 1), l);
        }
    }
}

proof fn lemma_safe_texts(ls: Seq<Seq<char>>, n: int)
    requires
        0 <= n <= ls.len(),
    ensures
        safe(text_lines(ls, n)),
    decreases n,
{
    if n > 0 {
        lemma_safe_texts(ls, n - 1);
        lemma_safe_literals();
        lemma_safe_shown(ls[n - 1]);
        lemma_safe_concat("    "@, state::shown(ls[n - 1]));
        lemma_safe_push(text_lines(ls, n - 1), "    "@ + state::shown(ls[n - 1]));
    }
}

proof fn lemma_safe_changes(cs: Seq<FileChange>, n: int)
    requires
        0 <= n <= cs.len(),
    ensures
        safe(changes_lines(cs, n)),
    decreases n,
{
    if n > 0 {
        lemma_safe_changes(cs, n - 1);
        lemma_safe_literals();
        let c = cs[n - 1];
        let before = changes_lines(cs, n - 1);
        let head = letter(c.kind) + "  "@ + state::shown(c.path@);
        lemma_safe_shown(c.path@);
        lemma_safe_concat(letter(c.kind), "  "@);
        lemma_safe_concat(letter(c.kind) + "  "@, state::shown(c.path@));
        lemma_safe_push(before, head);
        let d = detail_lines(c.detail);
        match c.detail {
            Some(ContentDiff::Text { unified }) => lemma_safe_texts(
                text::lines(unified@),
                text::lines(unified@).len() as int,
            ),
            Some(ContentDiff::Keys { changes }) => lemma_safe_keys(
                changes@,
                changes@.len() as int,
            ),
            _ => {},
        }
        assert(safe(d));
        let all = before.push(head) + d;
        assert(changes_lines(cs, n) =~= all);
        assert forall|i: int, j: int|
            0 <= i < all.len() && 0 <= j < all[i].len() implies !state::unsafe_char(
            #[trigger] all[i][j],
        ) by {
            if i >= before.len() + 1 {
                assert(all[i] == d[i - before.len() - 1]);
            } else {
                assert(all[i] == before.push(head)[i]);
            }
        }
    }
}

proof fn lemma_safe_number(n: nat)
    ensures
        safe_text(number::decimal(n)),
{
    number::lemma_decimal(n);
    let d = number::decimal(n);
    assert forall|j: int| 0 <= j < d.len() implies !state::unsafe_char(#[trigger] d[j]) by {
        assert(number::digit(d[j]));
    }
}

/// The report of all changes holds nothing that must be kept from the terminal,
/// whatever the paths and the contents of the files are.
pub proof fn law_report_is_safe(cs: Seq<FileChange>, stat: bool)
    ensures
        safe(human(cs, stat)),
{
    reveal_strlit("no changes");
    reveal_strlit("summary: ");
    reveal_strlit(" added, ");
    reveal_strlit(" modified, ");
    reveal_strlit(" deleted");
    if cs.len() > 0 {
        let n = cs.len() as int;
        let a = number::decimal(count(cs, ChangeKind::Added, n));
        let m = number::decimal(count(cs, ChangeKind::Modified, n));
        let d = number::decimal(count(cs, ChangeKind::Deleted, n));
        lemma_safe_number(count(cs, ChangeKind::Added, n));
        lemma_safe_number(count(cs, ChangeKind::Modified, n));
        lemma_safe_number(count(cs, ChangeKind::Deleted, n));
        let last = summary_line(cs);
        assert(last == "summary: "@ + a + " added, "@ + m + " modified, "@ + d + " deleted"@);
        assert(safe_text(last));
        lemma_safe_changes(cs, n);
        lemma_safe_push(changes_lines(cs, n), last);
    }
}

/// The content of a file is compared only where it was modified and the host
/// still has the file as the snapshot saw it: `unchanged` says so, where the
/// host has it at all.
pub fn compares_content(kind: ChangeKind, unchanged: Option<bool>) -> (r: bool)
    ensures
        r == (kind is Modified && unchanged == Some(true)),
{
    match kind {
        ChangeKind::Modified => match unchanged {
            Some(u) => u,
            None => false,
        },
        _ => false,
    }
}

/// Why `diff` refuses.
#[derive(Clone, Copy, Debug, PartialEq, Eq, Structural)]
pub enum DiffRefusal {
    /// A process of the worktree runs.
    Running,
    /// Something else is mounted on the target.
    ForeignMount,
    /// The system refused; its error is the result.
    System,
}

/// What `diff` asks for next.
#[derive(Clone, Copy, Debug, PartialEq, Eq, Structural)]
pub enum DiffAsk {
    /// Find the worktree and read its metadata.
    Open,
    /// Does a process of the worktree run?
    CheckRunning,
    /// Is the target mounted, and does the worktree prove that to be a
    /// leftover?
    ProbeMount,
    /// Take the leftover mount down.
    Recover,
    /// Compare the snapshot with the layer.
    Compare,
    /// Add what changed in the files, where it can be told.
    Enrich,
    /// Report.
    Report,
    Refuse(DiffRefusal),
}

/// What came of it.
#[derive(Clone, Copy, Debug, PartialEq, Eq, Structural)]
pub enum DiffReply {
    Yes,
    No,
    Mount { mounted: bool, stale_run: bool, real_exists: bool },
}

/// The step after a step of `diff`.
pub open spec fn diff_next(content: bool, ask: DiffAsk, reply: DiffReply) -> DiffAsk {
    match ask {
        DiffAsk::Open => if reply is Yes {
            DiffAsk::CheckRunning
        } else {
            DiffAsk::Refuse(DiffRefusal::System)
        },
        DiffAsk::CheckRunning => if reply is No {
            DiffAsk::ProbeMount
        } else {
            DiffAsk::Refuse(DiffRefusal::Running)
        },
        DiffAsk::ProbeMount => match reply {
            DiffReply::Mount { mounted, stale_run, real_exists } => if !mounted {
                DiffAsk::Compare
            } else if stale_run || real_exists {
                DiffAsk::Recover
            } else {
                DiffAsk::Refuse(DiffRefusal::ForeignMount)
            },
            _ => DiffAsk::Refuse(DiffRefusal::System),
        },
        DiffAsk::Recover => if reply is Yes {
            DiffAsk::Compare
        } else {
            DiffAsk::Refuse(DiffRefusal::System)
        },
        DiffAsk::Compare => if !(reply is Yes) {
            DiffAsk::Refuse(DiffRefusal::System)
        } else if content {
            DiffAsk::Enrich
        } else {
            DiffAsk::Report
        },
        DiffAsk::Enrich => DiffAsk::Report,
        DiffAsk::Report => DiffAsk::Report,
        DiffAsk::Refuse(e) => DiffAsk::Refuse(e),
    }
}

/// The command `diff`, one step at a time.
pub fn diff_cmd(content: bool, ask: DiffAsk, reply: DiffReply) -> (r: DiffAsk)
    ensures
        r == diff_next(content, ask, reply),
{
    let yes = match reply {
        DiffReply::Yes => true,
        _ => false,
    };
    match ask {
        DiffAsk::Open => if yes {
            DiffAsk::CheckRunning
        } else {
            DiffAsk::Refuse(DiffRefusal::System)
        },
        DiffAsk::CheckRunning => match reply {
            DiffReply::No => DiffAsk::ProbeMount,
            _ => DiffAsk::Refuse(DiffRefusal::Running),
        },
        DiffAsk::ProbeMount => match reply {
            DiffReply::Mount { mounted, stale_run, real_exists } => match recover_stale_mount(
                mounted,
                stale_run,
                real_exists,
            ) {
                Recovery::NotMounted => DiffAsk::Compare,
                Recovery::Unmount => DiffAsk::Recover,
                Recovery::Refuse => DiffAsk::Refuse(DiffRefusal::ForeignMount),
            },
            _ => DiffAsk::Refuse(DiffRefusal::System),
        },
        DiffAsk::Recover => if yes {
            DiffAsk::Compare
        } else {
            DiffAsk::Refuse(DiffRefusal::System)
        },
        DiffAsk::Compare => if !yes {
            DiffAsk::Refuse(DiffRefusal::System)
        } else if content {
            DiffAsk::Enrich
        } else {
            DiffAsk::Report
        },
        DiffAsk::Enrich => DiffAsk::Report,
        DiffAsk::Report => DiffAsk::Report,
        DiffAsk::Refuse(e) => DiffAsk::Refuse(e),
    }
}

/// The steps of `diff`, with what came of each.
pub open spec fn diff_trace(content: bool, t: Seq<(DiffAsk, DiffReply)>) -> bool {
    &&& t.len() > 0 ==> t[0].0 is Open
    &&& forall|i: int|
        0 <= i && i + 1 < t.len() ==> (#[trigger] t[i + 1]).0 == diff_next(content, t[i].0, t[i].1)
}

/// A worktree is only compared where none of its processes was found running,
/// and where the target was not mounted, or by a leftover that was taken down.
pub proof fn law_diff_is_at_rest(content: bool, t: Seq<(DiffAsk, DiffReply)>, i: int)
    requires
        diff_trace(content, t),
        0 <= i < t.len(),
        t[i].0 is Compare,
    ensures
        t[1] == (DiffAsk::CheckRunning, DiffReply::No),
        t[2].1 matches DiffReply::Mount { mounted, stale_run, real_exists } && (!mounted || ((
        stale_run || real_exists) && t[3] == (DiffAsk::Recover, DiffReply::Yes))),
{
    assert(i > 0);
    assert(t[i - 1 + 1].0 == diff_next(content, t[i - 1].0, t[i - 1].1));
    assert(i - 1 > 0);
    assert(t[i - 2 + 1].0 == diff_next(content, t[i - 2].0, t[i - 2].1));
    assert(i - 2 > 0);
    assert(t[i - 3 + 1].0 == diff_next(content, t[i - 3].0, t[i - 3].1));
    if i - 3 > 0 {
        assert(t[i - 4 + 1].0 == diff_next(content, t[i - 4].0, t[i - 4].1));
        if i - 4 > 0 {
            assert(t[i - 5 + 1].0 == diff_next(content, t[i - 5].0, t[i - 5].1));
        }
    }
}

/// `diff` refuses for a reason, and each finding has its consequence: a process
/// that runs, and a mount that is not the worktree's, stop it; a leftover is
/// taken down before anything is compared; and what changed inside files is only
/// looked for where it was asked for. Where nothing stands in its way, it reports
/// within seven steps.
pub proof fn law_diff_heeds_what_it_finds(content: bool, t: Seq<(DiffAsk, DiffReply)>, i: int)
    requires
        diff_trace(content, t),
        0 <= i < t.len(),
    ensures
        t[i].0 matches DiffAsk::Refuse(e) ==> exists|j: int|
            0 <= j < i && match (#[trigger] t[j]).0 {
                DiffAsk::CheckRunning => e is Running && !(t[j].1 is No),
                DiffAsk::ProbeMount => (e is ForeignMount && t[j].1 == (DiffReply::Mount {
                    mounted: true,
                    stale_run: false,
                    real_exists: false,
                })) || (e is System && !(t[j].1 is Mount)),
                DiffAsk::Open => e is System && !(t[j].1 is Yes),
                DiffAsk::Recover => e is System && !(t[j].1 is Yes),
                DiffAsk::Compare => e is System && !(t[j].1 is Yes),
                _ => false,
            },
        i + 1 < t.len() && t[i].0 is CheckRunning ==> (t[i].1 is No <==> !(t[i + 1].0 is Refuse)),
        i + 1 < t.len() && t[i].0 is ProbeMount ==> (t[i].1 matches DiffReply::Mount {
            mounted,
            stale_run,
            real_exists,
        } ==> (!mounted <==> t[i + 1].0 is Compare) && (mounted && (stale_run || real_exists)
            <==> t[i + 1].0 is Recover)),
        t[i].0 is Enrich ==> content,
        t[i].0 is Report ==> steps::did(t, i, DiffAsk::Compare, DiffReply::Yes) && (content
            ==> steps::asked(t, i, DiffAsk::Enrich)),
        t[i].0 is Enrich ==> steps::did(t, i, DiffAsk::Compare, DiffReply::Yes),
        (forall|j: int|
            0 <= j < i ==> match (#[trigger] t[j]).0 {
                DiffAsk::CheckRunning => t[j].1 is No,
                DiffAsk::ProbeMount => t[j].1 matches DiffReply::Mount {
                    mounted,
                    stale_run,
                    real_exists,
                } && (!mounted || stale_run || real_exists),
                _ => t[j].1 is Yes,
            }) ==> !(t[i].0 is Refuse),
        i >= 6 ==> t[i].0 is Report || t[i].0 is Refuse,
    decreases i,
{
    lemma_diff_stage(content, t, i);
    if i + 1 < t.len() {
        assert(t[i + 1].0 == diff_next(content, t[i].0, t[i].1));
    }
    if i > 0 {
        law_diff_heeds_what_it_finds(content, t, i - 1);
        let (a, r) = t[i - 1];
        assert(t[i - 1 + 1].0 == diff_next(content, a, r));
        assert(t[i - 1] == (a, r));
        if let DiffAsk::Refuse(e) = t[i].0 {
            if a is Refuse {
                let j = choose|j: int|
                    0 <= j < i - 1 && match (#[trigger] t[j]).0 {
                        DiffAsk::CheckRunning => e is Running && !(t[j].1 is No),
                        DiffAsk::ProbeMount => (e is ForeignMount && t[j].1 == (DiffReply::Mount {
                            mounted: true,
                            stale_run: false,
                            real_exists: false,
                        })) || (e is System && !(t[j].1 is Mount)),
                        DiffAsk::Open => e is System && !(t[j].1 is Yes),
                        DiffAsk::Recover => e is System && !(t[j].1 is Yes),
                        DiffAsk::Compare => e is System && !(t[j].1 is Yes),
                        _ => false,
                    };
                assert(t[j] == t[j]);
            }
        }
    }
}

/// How far a comparison has come.
spec fn diff_stage(ask: DiffAsk) -> int {
    match ask {
        DiffAsk::Open => 0,
        DiffAsk::CheckRunning => 1,
        DiffAsk::ProbeMount => 2,
        DiffAsk::Recover => 3,
        DiffAsk::Compare => 4,
        DiffAsk::Enrich => 5,
        _ => 6,
    }
}

proof fn lemma_diff_stage(content: bool, t: Seq<(DiffAsk, DiffReply)>, i: int)
    requires
        diff_trace(content, t),
        0 <= i < t.len(),
    ensures
        diff_stage(t[i].0) >= i || diff_stage(t[i].0) == 6,
    decreases i,
{
    if i > 0 {
        lemma_diff_stage(content, t, i - 1);
        assert(t[i - 1 + 1].0 == diff_next(content, t[i - 1].0, t[i - 1].1));
    }
}

impl DiffRefusal {
    /// The text of the error.
    pub open spec fn text(self, id: Seq<char>, target: Seq<char>, system: Seq<char>) -> Seq<char> {
        match self {
            DiffRefusal::Running => "worktree '"@ + id
                + "' is running; diff is available after the process exits"@,
            DiffRefusal::ForeignMount => target
                + " is already a mountpoint; refusing to stack a second overlay"@,
            DiffRefusal::System => system,
        }
    }

    /// The text of the error.
    pub fn message(self, id: &str, target: &str, system: &str) -> (r: String)
        ensures
            r@ == self.text(id@, target@, system@),
            r@ == match self {
                DiffRefusal::Running => "worktree '"@ + id@
                    + "' is running; diff is available after the process exits"@,
                DiffRefusal::ForeignMount => target@
                    + " is already a mountpoint; refusing to stack a second overlay"@,
                DiffRefusal::System => system@,
            },
    {
        match self {
            DiffRefusal::Running => cat3(
                "worktree '",
                id,
                "' is running; diff is available after the process exits",
            ),
            DiffRefusal::ForeignMount => crate::backend::foreign_mount_message(target),
            DiffRefusal::System => system.to_owned(),
        }
    }
}

/// The note after a report: how long it took, and how many changes there are.
pub fn diff_note(ms: &str, changes: usize) -> (r: String)
    ensures
        r@ == "cowt: diff computed in "@ + ms@ + "ms ("@ + number::decimal(changes as nat)
            + " change(s))"@,
{
    let n = decimal_text(changes as u128);
    cat5("cowt: diff computed in ", ms, "ms (", n.as_str(), " change(s))")
}

} // verus!
