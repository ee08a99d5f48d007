//! Worktree state storage.
//!
//! Every forked worktree owns one directory under the state root:
//!
//! ```text
//! $COWT_HOME/  (default ~/.local/state/cowt)
//! └── <id>/
//!     ├── meta.json       worktree metadata (target, status, backend)
//!     ├── the manifest    base snapshot (metadata only, no file contents)
//!     ├── upper/          the isolated writes
//!     ├── work/           overlay scratch directory
//!     └── run.pid         the process of a run in flight (present only then)
//! ```

use vstd::prelude::*;
use crate::text;
use crate::path;
use crate::host::HostOs;
use crate::path::{is_single_component, join_path, names};
use crate::text::{chars_of, starts_with, strip_prefix, text_of};

verus! {

/// Lifecycle status of a worktree. That a worktree is running is read off its
/// pid file, never stored.
#[derive(Clone, Copy, Debug, PartialEq, Eq, Structural)]
pub enum Status {
    Ready,
    Applied,
}

impl Default for Status {
    fn default() -> (r: Status)
        ensures
            r == Status::Ready,
    {
        Status::Ready
    }
}

/// The metadata of a worktree.
#[derive(Clone, Debug)]
pub struct WorktreeMeta {
    pub id: String,
    pub name: Option<String>,
    pub target: String,
    pub created_epoch: u64,
    pub status: Status,
    pub backend: String,
}

/// The texts and numbers of a worktree's metadata.
pub struct MetaView {
    pub id: Seq<char>,
    pub name: Option<Seq<char>>,
    pub target: Seq<char>,
    pub created_epoch: u64,
    pub status: Status,
    pub backend: Seq<char>,
}

impl View for WorktreeMeta {
    type V = MetaView;

    open spec fn view(&self) -> MetaView {
        MetaView {
            id: self.id@,
            name: crate::text::opt_text(self.name),
            target: self.target@,
            created_epoch: self.created_epoch,
            status: self.status,
            backend: self.backend@,
        }
    }
}

/// The name of the file of a worktree's state that holds this part of it.
pub open spec fn json_name(part: Seq<char>) -> Seq<char> {
    part + ".json"@
}

/// The name of the file of a worktree's state that holds this part of it: its
/// `meta`, or its `manifest`.
pub fn json_file(part: &str) -> (r: String)
    ensures
        r@ == json_name(part@),
        r@ == part@ + ".json"@,
{
    text::cat2(part, ".json")
}

/// The views of a list of metadata.
pub open spec fn metas_view(v: Seq<WorktreeMeta>) -> Seq<MetaView> {
    v.map_values(|m: WorktreeMeta| m@)
}

/// The Unicode general category `Cf`, the characters that only change how text
/// is laid out or read: direction controls, zero-width characters and joiners,
/// number and annotation signs, shorthand and musical controls, tags, and the
/// byte order mark. U+2065, which stands unassigned among them, counts as one.
pub open spec fn format_char(c: char) -> bool {
    ||| c == '\u{ad}'
    ||| '\u{600}' <= c <= '\u{605}'
    ||| c == '\u{61c}'
    ||| c == '\u{6dd}'
    ||| c == '\u{70f}'
    ||| '\u{890}' <= c <= '\u{891}'
    ||| c == '\u{8e2}'
    ||| c == '\u{180e}'
    ||| '\u{200b}' <= c <= '\u{200f}'
    ||| '\u{202a}' <= c <= '\u{202e}'
    ||| '\u{2060}' <= c <= '\u{206f}'
    ||| c == '\u{feff}'
    ||| '\u{fff9}' <= c <= '\u{fffb}'
    ||| c == '\u{110bd}'
    ||| c == '\u{110cd}'
    ||| '\u{13430}' <= c <= '\u{1343f}'
    ||| '\u{1bca0}' <= c <= '\u{1bca3}'
    ||| '\u{1d173}' <= c <= '\u{1d17a}'
    ||| c == '\u{e0001}'
    ||| '\u{e0020}' <= c <= '\u{e007f}'
}

/// `c` is a format character.
pub fn is_format(c: char) -> (r: bool)
    ensures
        r == format_char(c),
{
    c == '\u{ad}'
        || ('\u{600}' <= c && c <= '\u{605}')
        || c == '\u{61c}'
        || c == '\u{6dd}'
        || c == '\u{70f}'
        || ('\u{890}' <= c && c <= '\u{891}')
        || c == '\u{8e2}'
        || c == '\u{180e}'
        || ('\u{200b}' <= c && c <= '\u{200f}')
        || ('\u{202a}' <= c && c <= '\u{202e}')
        || ('\u{2060}' <= c && c <= '\u{206f}')
        || c == '\u{feff}'
        || ('\u{fff9}' <= c && c <= '\u{fffb}')
        || c == '\u{110bd}'
        || c == '\u{110cd}'
        || ('\u{13430}' <= c && c <= '\u{1343f}')
        || ('\u{1bca0}' <= c && c <= '\u{1bca3}')
        || ('\u{1d173}' <= c && c <= '\u{1d17a}')
        || c == '\u{e0001}'
        || ('\u{e0020}' <= c && c <= '\u{e007f}')
}

/// A character that must not reach the terminal as it is.
pub open spec fn unsafe_char(c: char) -> bool {
    (text::control(c) && c != '\t' && c != '\n' && c != '\r') || format_char(c)
}

/// The character shown for `c`.
pub open spec fn shown_char(c: char) -> char {
    if unsafe_char(c) {
        '\u{fffd}'
    } else {
        c
    }
}

/// The text shown for `s`.
pub open spec fn shown(s: Seq<char>) -> Seq<char> {
    s.map_values(|c: char| shown_char(c))
}

/// Renders text for the terminal: control characters other than tab, carriage
/// return and line feed become U+FFFD, and so do the format characters, so
/// that names and contents cannot inject escape sequences or pose as other
/// names.
pub fn sanitize_display(s: &str) -> (r: String)
    ensures
        r@ == shown(s@),
{
    let x = chars_of(s);
    let mut r = String::new();
    let mut i: usize = 0;
    while i < x.len()
        invariant
            i <= x@.len(),
            x@ == s@,
            r@ == shown(s@.take(i as int)),
        decreases x@.len() - i,
    {
        let c = x[i];
        let ghost r0 = r@;
        if (c.is_control() && c != '\t' && c != '\n' && c != '\r') || is_format(c) {
            r.push('\u{fffd}');
        } else {
            r.push(c);
        }
        assert(r@ =~= r0.push(shown_char(c)));
        assert(shown(s@.take(i + 1)) =~= shown(s@.take(i as int)).push(shown_char(c)));
        i = i + 1;
    }
    assert(s@.take(s@.len() as int) =~= s@);
    r
}

/// What is shown holds no unsafe character, and showing it again changes
/// nothing.
pub proof fn law_shown_is_safe(s: Seq<char>)
    ensures
        forall|i: int| 0 <= i < shown(s).len() ==> !unsafe_char(#[trigger] shown(s)[i]),
        shown(shown(s)) == shown(s),
{
    assert(shown(shown(s)) =~= shown(s));
}

/// What is shown of a text has its length. Each character is shown as it is or as
/// U+FFFD: a control character as U+FFFD, but for tab, line feed and carriage
/// return, and so the characters that only change how text is laid out or read.
/// Every other one is shown as it is, printable ASCII among them.
pub proof fn law_shown(s: Seq<char>, i: int)
    requires
        0 <= i < s.len(),
    ensures
        shown(s).len() == s.len(),
        shown(s)[i] == s[i] || shown(s)[i] == '\u{fffd}',
        s[i] < ' ' && s[i] != '\t' && s[i] != '\n' && s[i] != '\r' ==> shown(s)[i] == '\u{fffd}',
        '\u{7f}' <= s[i] <= '\u{9f}' ==> shown(s)[i] == '\u{fffd}',
        ({
            let n = s[i] as int;
            let format = {
                ||| n == 0xad
                ||| 0x600 <= n <= 0x605
                ||| n == 0x61c
                ||| n == 0x6dd
                ||| n == 0x70f
                ||| 0x890 <= n <= 0x891
                ||| n == 0x8e2
                ||| n == 0x180e
                ||| 0x200b <= n <= 0x200f
                ||| 0x202a <= n <= 0x202e
                ||| 0x2060 <= n <= 0x206f
                ||| n == 0xfeff
                ||| 0xfff9 <= n <= 0xfffb
                ||| n == 0x110bd
                ||| n == 0x110cd
                ||| 0x13430 <= n <= 0x1343f
                ||| 0x1bca0 <= n <= 0x1bca3
                ||| 0x1d173 <= n <= 0x1d17a
                ||| n == 0xe0001
                ||| 0xe0020 <= n <= 0xe007f
            };
            &&& format ==> shown(s)[i] == '\u{fffd}'
            &&& shown(s)[i] != s[i] ==> format || n < 0x20 || 0x7f <= n <= 0x9f
        }),
        s[i] == '\t' || s[i] == '\n' || s[i] == '\r' ==> shown(s)[i] == s[i],
        ' ' <= s[i] <= '~' ==> shown(s)[i] == s[i],
{
}

/// A text that can be a worktree's id or name: one path component, outside the
/// namespace of dropped worktrees, on one line.
pub open spec fn valid_name(os: HostOs, s: Seq<char>) -> bool {
    &&& path::single_component(os, s)
    &&& !".trash-"@.is_prefix_of(s)
    &&& forall|i: int| 0 <= i < s.len() ==> !text::control(#[trigger] s[i])
}

/// A text that can be a worktree's id or name. Creating and looking up share
/// this rule, so that no worktree is created that cannot be looked up.
pub fn valid_id_or_name(os: HostOs, s: &str) -> (r: bool)
    ensures
        r == valid_name(os, s@),
        r ==> s@.len() > 0 && !s@.contains('/') && !s@.contains('\\') && s@ != seq!['.'],
        r ==> !text::contains_text(s@, seq!['.', '.']) && !".trash-"@.is_prefix_of(s@),
        r ==> forall|i: int|
            0 <= i < s@.len() ==> ' ' <= #[trigger] s@[i] && !('\u{7f}' <= s@[i] <= '\u{9f}'),
{
    proof {
        law_valid_name(os, s@);
    }
    if !is_single_component(os, s) {
        return false;
    }
    if starts_with(s, ".trash-") {
        return false;
    }
    let x = chars_of(s);
    let mut i: usize = 0;
    while i < x.len()
        invariant
            i <= x@.len(),
            x@ == s@,
            forall|j: int| 0 <= j < i ==> !text::control(#[trigger] x@[j]),
        decreases x@.len() - i,
    {
        if x[i].is_control() {
            assert(text::control(s@[i as int]));
            return false;
        }
        i = i + 1;
    }
    true
}

/// A text can be a worktree's id or name if and only if it is not empty, is not
/// the directory it stands in, holds no separator of either kind, no two dots in
/// a row and no control character, does not begin as the name of a dropped worktree
/// does, and, on Windows, does not begin with a drive.
pub proof fn law_valid_name(os: HostOs, s: Seq<char>)
    ensures
        valid_name(os, s) <==> {
            &&& s.len() > 0
            &&& s != seq!['.']
            &&& !s.contains('/')
            &&& !s.contains('\\')
            &&& !text::contains_text(s, seq!['.', '.'])
            &&& !".trash-"@.is_prefix_of(s)
            &&& forall|i: int|
                0 <= i < s.len() ==> ' ' <= #[trigger] s[i] && !('\u{7f}' <= s[i] <= '\u{9f}')
            &&& !(os is Windows && s.len() >= 2 && s[1] == ':' && ('a' <= s[0] <= 'z' || 'A' <= s[0]
                <= 'Z'))
        },
{
    let two = seq!['.', '.'];
    if text::contains_text(s, two) {
        let k = choose|k: int| text::stands_at(s, two, k);
        assert(s.subrange(k, k + 2)[0] == s[k] && s.subrange(k, k + 2)[1] == s[k + 1]);
        assert(two[0] == '.' && two[1] == '.');
        assert(s[k] == '.' && s[k + 1] == '.');
    } else {
        assert forall|i: int| 0 <= i < s.len() - 1 implies !(#[trigger] s[i] == '.' && s[i + 1]
            == '.') by {
            if s[i] == '.' && s[i + 1] == '.' {
                assert(s.subrange(i, i + 2) =~= two);
                assert(text::stands_at(s, two, i));
            }
        }
    }
    if forall|i: int|
        0 <= i < s.len() ==> ' ' <= #[trigger] s[i] && !('\u{7f}' <= s[i] <= '\u{9f}') {
        assert forall|i: int| 0 <= i < s.len() implies !text::control(#[trigger] s[i]) by {}
    }
    if forall|i: int| 0 <= i < s.len() ==> !text::control(#[trigger] s[i]) {
        assert forall|i: int| 0 <= i < s.len() implies ' ' <= #[trigger] s[i] && !('\u{7f}' <= s[i]
            <= '\u{9f}') by {
            assert(!text::control(s[i]));
        }
    }
}

/// The hexadecimal digit of a number below sixteen.
pub open spec fn hex_digit(n: int) -> char {
    if n < 10 {
        ('0' as int + n) as char
    } else {
        ('a' as int + n - 10) as char
    }
}

/// Two hexadecimal digits for each byte, the high one first.
pub open spec fn hex_text(bytes: Seq<u8>) -> Seq<char> {
    Seq::new(
        2 * bytes.len(),
        |i: int|
            if i % 2 == 0 {
                hex_digit(bytes[i / 2] as int / 16)
            } else {
                hex_digit(bytes[i / 2] as int % 16)
            },
    )
}

fn hex_char(n: u8) -> (r: char)
    requires
        n < 16,
    ensures
        r == hex_digit(n as int),
{
    if n < 10 {
        (48 + n) as char
    } else {
        (87 + n) as char
    }
}

/// The bytes in hexadecimal, in lower case.
pub fn hex(bytes: &[u8]) -> (r: String)
    ensures
        r@ == hex_text(bytes@),
{
    let mut r = String::new();
    let mut i: usize = 0;
    while i < bytes.len()
        invariant
            i <= bytes@.len(),
            r@ == hex_text(bytes@.take(i as int)),
        decreases bytes@.len() - i,
    {
        let b = bytes[i];
        let ghost r0 = r@;
        let hi = hex_char(b / 16);
        let lo = hex_char(b % 16);
        r.push(hi);
        r.push(lo);
        assert(r@ =~= r0.push(hi).push(lo));
        assert(hex_text(bytes@.take(i + 1)) =~= hex_text(bytes@.take(i as int)).push(hi).push(lo));
        i = i + 1;
    }
    assert(bytes@.take(bytes@.len() as int) =~= bytes@);
    r
}

/// Different bytes have different hexadecimal texts.
pub proof fn law_hex_injective(a: Seq<u8>, b: Seq<u8>)
    requires
        hex_text(a) == hex_text(b),
    ensures
        a == b,
{
    assert(hex_text(a).len() == 2 * a.len() && hex_text(b).len() == 2 * b.len());
    assert forall|i: int| 0 <= i < a.len() implies a[i] == b[i] by {
        let ha = hex_text(a)[2 * i];
        let la = hex_text(a)[2 * i + 1];
        assert(ha == hex_digit(a[i] as int / 16) && ha == hex_digit(b[i] as int / 16));
        assert(la == hex_digit(a[i] as int % 16) && la == hex_digit(b[i] as int % 16));
        assert(a[i] as int / 16 == b[i] as int / 16);
        assert(a[i] as int % 16 == b[i] as int % 16);
    }
    assert(a =~= b);
}

/// Each byte is written as two digits, the sixteens before the ones.
pub proof fn law_hex_digits(b: Seq<u8>, i: int)
    requires
        0 <= i < b.len(),
    ensures
        hex_text(b).len() == 2 * b.len(),
        hex_text(b)[2 * i] == "0123456789abcdef"@[b[i] as int / 16],
        hex_text(b)[2 * i + 1] == "0123456789abcdef"@[b[i] as int % 16],
{
    reveal_strlit("0123456789abcdef");
}

/// The eight bytes that a worktree's id is made of: random ones, or, where
/// there are none to be had, the time mixed with the process number.
pub open spec fn id_seed(random: Option<[u8; 8]>, nanos: u128, pid: u32) -> Seq<u8> {
    match random {
        Some(b) => b@,
        None => vstd::bytes::spec_u64_to_le_bytes(
            (#[verifier::truncate] (nanos as u64)) ^ ((pid as u64) << 32),
        ),
    }
}

/// A new worktree's id: the seed in hexadecimal.
pub fn short_id(random: Option<[u8; 8]>, nanos: u128, pid: u32) -> (r: String)
    ensures
        r@ == hex_text(id_seed(random, nanos, pid)),
        random matches Some(b) ==> r@ == hex_text(b@),
        random is None ==> r@ == hex_text(
            vstd::bytes::spec_u64_to_le_bytes(
                (#[verifier::truncate] (nanos as u64)) ^ ((pid as u64) << 32),
            ),
        ),
        r@.len() == 16,
        forall|os: HostOs| valid_name(os, r@),
{
    let r = match random {
        Some(b) => hex(b.as_slice()),
        None => {
            let low: u64 = #[verifier::truncate]
            (nanos as u64);
            let seed: u64 = low ^ ((pid as u64) << 32);
            let bytes = vstd::bytes::u64_to_le_bytes(seed);
            hex(bytes.as_slice())
        },
    };
    proof {
        vstd::bytes::lemma_auto_spec_u64_to_from_le_bytes();
        assert forall|os: HostOs| valid_name(os, r@) by {
            law_hex_is_name(os, id_seed(random, nanos, pid));
        }
    }
    r
}

/// The hexadecimal text of one or more bytes can be a worktree's id.
pub proof fn law_hex_is_name(os: HostOs, b: Seq<u8>)
    requires
        b.len() > 0,
    ensures
        valid_name(os, hex_text(b)),
{
    let s = hex_text(b);
    assert forall|i: int| 0 <= i < s.len() implies ('0' <= #[trigger] s[i] <= '9' || 'a' <= s[i]
        <= 'f') by {}
    assert(s.len() >= 2);
    assert(s != seq!['.']) by {
        assert(seq!['.'].len() == 1);
    }
    assert(!".trash-"@.is_prefix_of(s)) by {
        reveal_strlit(".trash-");
        if ".trash-"@.is_prefix_of(s) {
            assert(s.subrange(0, 7)[0] == '.');
            assert(s[0] == '.');
        }
    }
}

/// The prefix of extended-length paths.
pub open spec fn verbatim_prefix() -> Seq<char> {
    "\\\\?\\"@
}

/// Strips the `\\?\` prefix of extended-length paths, which would not compare
/// equal to the same path written without it.
pub fn dos_path(p: &str) -> (r: String)
    ensures
        r@ == match text::after_prefix(p@, verbatim_prefix()) {
            Some(rest) => rest,
            None => p@,
        },
        "\\\\?\\"@.is_prefix_of(p@) ==> p@ == "\\\\?\\"@ + r@,
        !"\\\\?\\"@.is_prefix_of(p@) ==> r@ == p@,
{
    proof {
        let v = "\\\\?\\"@;
        if v.is_prefix_of(p@) {
            assert(p@ =~= v + p@.skip(v.len() as int));
        }
    }
    match strip_prefix(p, "\\\\?\\") {
        Some(rest) => rest,
        None => p.to_owned(),
    }
}

/// The default place of the state root.
pub open spec fn default_root(os: HostOs, local_app_data: Option<Seq<char>>, home: Seq<char>) -> Seq<
    char,
> {
    if os == HostOs::Windows {
        path::joined(
            os,
            match local_app_data {
                Some(d) => d,
                None => path::joined(os, home, ".cowt"@),
            },
            "cowt"@,
        )
    } else {
        path::joined(os, home, ".local/state/cowt"@)
    }
}

/// The default place of the state root: below the home directory, or, on
/// Windows, below the local application data where that is set.
pub fn default_state_dir(os: HostOs, local_app_data: Option<String>, home: &str) -> (r: String)
    ensures
        r@ == default_root(os, crate::text::opt_text(local_app_data), home@),
        !(os is Windows) ==> r@ == path::joined(os, home@, ".local/state/cowt"@),
        os is Windows ==> match local_app_data {
            Some(d) => r@ == path::joined(os, d@, "cowt"@),
            None => r@ == path::joined(os, path::joined(os, home@, ".cowt"@), "cowt"@),
        },
{
    match os {
        HostOs::Windows => match local_app_data {
            Some(d) => join_path(os, d.as_str(), "cowt"),
            None => {
                let below = join_path(os, home, ".cowt");
                join_path(os, below.as_str(), "cowt")
            },
        },
        _ => join_path(os, home, ".local/state/cowt"),
    }
}

/// A text without the dots at its start.
pub open spec fn undotted(s: Seq<char>) -> Seq<char>
    decreases s.len(),
{
    if s.len() > 0 && s[0] == '.' {
        undotted(s.skip(1))
    } else {
        s
    }
}

/// These names without the dots they start with, as far as something is left of
/// them.
pub open spec fn slug_parts(names: Seq<Seq<char>>) -> Seq<Seq<char>>
    decreases names.len(),
{
    if names.len() == 0 {
        Seq::empty()
    } else {
        let before = slug_parts(names.drop_last());
        let p = undotted(names.last());
        if p.len() == 0 {
            before
        } else {
            before.push(p)
        }
    }
}

/// The default name of a worktree over `target`.
pub open spec fn slug(os: HostOs, target: Seq<char>) -> Seq<char> {
    let parts = slug_parts(path::names_of(path::comps(os, target)));
    if parts.len() == 0 {
        "worktree"@
    } else if parts.len() == 1 {
        parts[0]
    } else {
        parts[parts.len() - 2] + "-"@ + parts.last()
    }
}

fn without_dots(s: &str) -> (r: String)
    ensures
        r@ == undotted(s@),
{
    let x = chars_of(s);
    let mut i: usize = 0;
    assert(s@.skip(0) =~= s@);
    while i < x.len() && x[i] == '.'
        invariant
            i <= x@.len(),
            x@ == s@,
            undotted(s@) == undotted(s@.skip(i as int)),
        decreases x@.len() - i,
    {
        assert(s@.skip(i as int).skip(1) =~= s@.skip(i + 1));
        i = i + 1;
    }
    let r = text_of(&x, i, x.len());
    assert(r@ =~= s@.skip(i as int));
    r
}

/// Derives a worktree's name from its target: the last two names on the path,
/// joined by a hyphen (`/home/u/.config/Code` gives `config-Code`). A prefix and
/// the root are no names.
pub fn default_name(os: HostOs, target: &str) -> (r: String)
    ensures
        r@ == slug(os, target@),
        r@.len() > 0,
{
    let c = names(os, target);
    let ghost all = path::names_of(path::comps(os, target@));
    let mut parts: Vec<String> = Vec::new();
    let mut i: usize = 0;
    proof {
        reveal_strlit("worktree");
        assert(slug_parts(all.take(0)) =~= Seq::empty());
    }
    while i < c.len()
        invariant
            i <= c@.len(),
            text::texts(c@) == all,
            text::texts(parts@) == slug_parts(all.take(i as int)),
            forall|j: int| 0 <= j < parts@.len() ==> (#[trigger] parts@[j])@.len() > 0,
        decreases c@.len() - i,
    {
        let ghost p0 = parts@;
        proof {
            assert(all.take(i + 1).drop_last() =~= all.take(i as int));
            assert(all[i as int] == c@[i as int]@);
        }
        let p = without_dots(c[i].as_str());
        if !p.as_str().is_empty() {
            let ghost pv = p@;
            parts.push(p);
            assert(text::texts(parts@) =~= text::texts(p0).push(pv));
        }
        i = i + 1;
    }
    assert(all.take(all.len() as int) =~= all);
    let n = parts.len();
    if n == 0 {
        return "worktree".to_owned();
    }
    assert(text::texts(parts@).last() == parts@.last()@);
    if n == 1 {
        return parts[0].clone();
    }
    assert(text::texts(parts@)[n - 2] == parts@[n - 2]@);
    let mut r = parts[n - 2].clone();
    r.append("-");
    r.append(parts[n - 1].as_str());
    r
}

/// A worktree is named after the last two names on its target's path that hold
/// more than dots, without the dots they start with; after the only one where
/// there is one; and `worktree` where there is none.
pub proof fn law_default_name(
    os: HostOs,
    target: Seq<char>,
    c: Seq<path::Part>,
    d1: Seq<char>,
    a: Seq<char>,
    d2: Seq<char>,
    b: Seq<char>,
)
    requires
        a.len() > 0 && a[0] != '.',
        b.len() > 0 && b[0] != '.',
        forall|i: int| 0 <= i < d1.len() ==> d1[i] == '.',
        forall|i: int| 0 <= i < d2.len() ==> d2[i] == '.',
    ensures
        path::comps(os, target) == c.push(path::Part::Name(d1 + a)).push(path::Part::Name(d2 + b))
            ==> slug(os, target) == a + "-"@ + b,
        path::names_of(c).len() == 0 && path::comps(os, target) == c.push(path::Part::Name(d2 + b))
            ==> slug(os, target) == b,
        path::names_of(path::comps(os, target)).len() == 0 ==> slug(os, target) == "worktree"@,
{
    lemma_undotted(d1, a);
    lemma_undotted(d2, b);
    let all = path::names_of(path::comps(os, target));
    if all.len() == 0 {
        assert(slug_parts(all) =~= Seq::<Seq<char>>::empty());
    }
    let (na, nb) = (path::Part::Name(d1 + a), path::Part::Name(d2 + b));
    let m = c.push(na);
    assert(m.drop_last() =~= c);
    assert(m.push(nb).drop_last() =~= m);
    assert(c.push(nb).drop_last() =~= c);
    if path::comps(os, target) == m.push(nb) {
        let ns = path::names_of(c);
        assert(path::names_of(m) == ns.push(d1 + a));
        assert(all == path::names_of(m).push(d2 + b));
        assert(all.drop_last() =~= ns.push(d1 + a));
        assert(ns.push(d1 + a).drop_last() =~= ns);
        assert(slug_parts(ns.push(d1 + a)) == slug_parts(ns).push(a));
        assert(slug_parts(all) == slug_parts(ns).push(a).push(b));
    }
    if path::names_of(c).len() == 0 && path::comps(os, target) == c.push(nb) {
        let ns = path::names_of(c);
        assert(all == ns.push(d2 + b));
        assert(all.drop_last() =~= ns);
        assert(slug_parts(ns) =~= Seq::<Seq<char>>::empty());
        assert(slug_parts(all) == slug_parts(ns).push(b));
    }
}

/// A name that holds nothing but dots adds nothing to a worktree's name, wherever
/// it stands at the end of the path.
pub proof fn law_dots_name_nothing(
    os: HostOs,
    target: Seq<char>,
    other: Seq<char>,
    dots: Seq<char>,
)
    requires
        forall|i: int| 0 <= i < dots.len() ==> dots[i] == '.',
        path::comps(os, target) == path::comps(os, other).push(path::Part::Name(dots)),
    ensures
        slug(os, target) == slug(os, other),
{
    lemma_only_dots(dots);
    let c = path::comps(os, other);
    let ns = path::names_of(c);
    assert(path::comps(os, target).drop_last() =~= c);
    assert(path::names_of(path::comps(os, target)) == ns.push(dots));
    assert(ns.push(dots).drop_last() =~= ns);
    assert(slug_parts(ns.push(dots)) == slug_parts(ns));
}

proof fn lemma_only_dots(d: Seq<char>)
    requires
        forall|i: int| 0 <= i < d.len() ==> d[i] == '.',
    ensures
        undotted(d).len() == 0,
    decreases d.len(),
{
    if d.len() > 0 {
        lemma_only_dots(d.skip(1));
    }
}

proof fn lemma_undotted(d: Seq<char>, a: Seq<char>)
    requires
        a.len() > 0 && a[0] != '.',
        forall|i: int| 0 <= i < d.len() ==> d[i] == '.',
    ensures
        undotted(d + a) == a,
    decreases d.len(),
{
    if d.len() > 0 {
        assert forall|i: int| 0 <= i < d.skip(1).len() implies d.skip(1)[i] == '.' by {}
        lemma_undotted(d.skip(1), a);
        assert((d + a).skip(1) =~= d.skip(1) + a);
        assert((d + a)[0] == d[0]);
    } else {
        assert(d + a =~= a);
    }
}

/// The state root cannot be found: neither it nor the home directory is set.
#[derive(Clone, Copy, Debug, PartialEq, Eq, Structural)]
pub enum OpenError {
    HomeNotSet,
}

/// The home directory: `$HOME`, or on Windows `%USERPROFILE%` where that is not
/// set.
pub fn home_dir(home: Option<String>, user_profile: Option<String>, os: HostOs) -> (r: Option<String>)
    ensures
        r == if home is Some {
            home
        } else if os == HostOs::Windows {
            user_profile
        } else {
            None
        },
{
    match home {
        Some(h) => Some(h),
        None => match os {
            HostOs::Windows => user_profile,
            _ => None,
        },
    }
}

/// The directory that holds the state of all worktrees.
#[derive(Clone, Debug)]
pub struct State {
    root: String,
    os: HostOs,
}

impl State {
    /// The state root.
    pub closed spec fn root_view(&self) -> Seq<char> {
        self.root@
    }

    /// The host that reads the paths.
    pub closed spec fn host(&self) -> HostOs {
        self.os
    }

    /// Chooses the state root: `$COWT_HOME` where it is set to something,
    /// else the default place below the home directory. The second part of
    /// the result says that `$COWT_HOME` was set but empty, which is worth a
    /// warning.
    pub fn open(
        cowt_home: Option<String>,
        home: Option<String>,
        local_app_data: Option<String>,
        os: HostOs,
    ) -> (r: Result<(State, bool), OpenError>)
        ensures
            ({
                let given = cowt_home matches Some(p) && p@.len() > 0;
                &&& r is Err <==> !given && home is None
                &&& r matches Ok((s, warn)) ==> {
                    &&& s.root_view() == if given {
                        cowt_home->0@
                    } else {
                        default_root(os, crate::text::opt_text(local_app_data), home->0@)
                    }
                    &&& s.host() == os
                    &&& warn == (cowt_home is Some && !given)
                }
            }),
    {
        let warn = match cowt_home {
            Some(p) => {
                if !p.as_str().is_empty() {
                    return Ok((State { root: p, os }, false));
                }
                true
            },
            None => false,
        };
        match home {
            Some(h) => {
                let root = default_state_dir(os, local_app_data, h.as_str());
                Ok((State { root, os }, warn))
            },
            None => Err(OpenError::HomeNotSet),
        }
    }

    /// The state root.
    pub fn root(&self) -> (r: &String)
        ensures
            r@ == self.root_view(),
    {
        &self.root
    }

    /// The directory of the worktree `id`.
    pub fn dir(&self, id: &str) -> (r: String)
        ensures
            r@ == path::joined(self.host(), self.root_view(), id@),
    {
        join_path(self.os, self.root.as_str(), id)
    }

    /// The host that reads the paths.
    pub fn os(&self) -> (r: HostOs)
        ensures
            r == self.host(),
    {
        self.os
    }
}

/// The directory of a worktree lies directly in the state root: one component
/// below it, and that component is the id.
pub proof fn law_dir_inside_root(os: HostOs, root: Seq<char>, id: Seq<char>)
    requires
        path::single_component(os, id),
        path::whole(os, root),
    ensures
        path::comps(os, path::joined(os, root, id)) == path::comps(os, root).push(
            path::Part::Name(id),
        ),
        path::within(os, path::joined(os, root, id), root),
{
    path::lemma_join_component(os, root, id);
    let c = path::comps(os, root);
    assert(c =~= c.push(path::Part::Name(id)).subrange(0, c.len() as int));
}

} // verus!
