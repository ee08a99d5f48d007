//! The copy-on-write filesystem behind a merged view: what each request does to
//! the layers, and what it is answered. The host directory is only read; a file
//! that is to be written is copied into the upper layer first.

use std::collections::HashMap;
use vstd::prelude::*;
use crate::host::HostOs;
use crate::inodes;
use crate::inodes::InoTable;
use crate::layers;
use crate::layers::{is_reserved_name, Place};
use crate::path;
use crate::path::join_path;
use crate::steps;
use crate::text;

verus! {

broadcast use vstd::std_specs::hash::group_hash_axioms;

/// What an answer can say went wrong.
#[derive(Clone, Copy, Debug, PartialEq, Eq, Structural)]
pub enum Errno {
    /// There is no such entry.
    NoEntry,
    /// The request is not permitted.
    NotPermitted,
    /// The request makes no sense.
    Invalid,
    /// The handle is not open for this.
    BadHandle,
    /// Reading or writing failed.
    Io,
    /// What the system said; reading or writing failed where it said nothing.
    System,
}

/// What a handle was opened on.
#[derive(Clone, Copy, Debug, PartialEq, Eq, Structural)]
pub enum Handle {
    File,
    Dir,
}

/// The copy-on-write filesystem: where its layers are, the numbers it gave to
/// paths, and the handles that are open.
pub struct CowFs {
    lower: String,
    upper: String,
    inos: InoTable,
    handles: HashMap<u64, Handle>,
    next_fh: u64,
}

impl CowFs {
    pub closed spec fn lower_dir(&self) -> Seq<char> {
        self.lower@
    }

    pub closed spec fn upper_dir(&self) -> Seq<char> {
        self.upper@
    }

    pub closed spec fn table(&self) -> InoTable {
        self.inos
    }

    /// What a handle was opened on, if it is open.
    pub closed spec fn handle(&self, fh: u64) -> Option<Handle> {
        if self.handles@.contains_key(fh) {
            Some(self.handles@[fh])
        } else {
            None
        }
    }

    /// The number of handles that were ever opened.
    pub closed spec fn opened(&self) -> u64 {
        self.next_fh
    }

    /// The open handles are among those that were opened, which start at 2.
    pub closed spec fn wf(&self) -> bool {
        &&& self.inos.wf()
        &&& forall|fh: u64| #[trigger]
            self.handles@.contains_key(fh) ==> 2 <= fh && fh < self.next_fh + 2
    }

    /// A filesystem over two layers.
    pub fn new(lower: String, upper: String) -> (r: CowFs)
        ensures
            r.wf(),
            r.lower_dir() == lower@,
            r.upper_dir() == upper@,
            r.opened() == 0,
            r.table().next_ino() == 2,
            forall|fh: u64| #[trigger] r.handle(fh) is None,
            forall|i: u64| #[trigger] r.table().path(i) == if i == inodes::ROOT_INO {
                Some(Seq::<char>::empty())
            } else {
                None
            },
            r.table().path(1) == Some(Seq::<char>::empty()),
    {
        CowFs { lower, upper, inos: InoTable::new(), handles: HashMap::new(), next_fh: 0 }
    }

    /// Where a path lies in the upper layer.
    pub fn upper_of(&self, rel: &str) -> (r: String)
        ensures
            r@ == path::joined(HostOs::MacOs, self.upper_dir(), rel@),
    {
        join_path(HostOs::MacOs, self.upper.as_str(), rel)
    }

    /// Where a path lies in the lower layer.
    pub fn lower_of(&self, rel: &str) -> (r: String)
        ensures
            r@ == path::joined(HostOs::MacOs, self.lower_dir(), rel@),
    {
        join_path(HostOs::MacOs, self.lower.as_str(), rel)
    }

    /// The path that has this number.
    pub fn path_of(&self, ino: u64) -> (r: Option<String>)
        ensures
            text::opt_text(r) == self.table().path(ino),
    {
        self.inos.path_of(ino)
    }

    /// The path of an entry of the directory that has this number.
    pub fn child(&self, parent: u64, name: &str) -> (r: Option<String>)
        ensures
            text::opt_text(r) == match self.table().path(parent) {
                Some(p) => Some(path::joined(HostOs::MacOs, p, name@)),
                None => None,
            },
    {
        match self.inos.path_of(parent) {
            Some(p) => Some(join_path(HostOs::MacOs, p.as_str(), name)),
            None => None,
        }
    }

    /// The number of a path; a new one if it has none.
    pub fn number(&mut self, rel: &str) -> (r: u64)
        requires
            old(self).wf(),
            old(self).table().next_ino() < u64::MAX,
        ensures
            final(self).wf(),
            final(self).table().ino(rel@) == Some(r),
            final(self).table().path(r) == Some(rel@),
            old(self).table().ino(rel@) matches Some(i) ==> r == i && final(self).table()
                == old(self).table(),
            old(self).table().ino(rel@) is None ==> r == old(self).table().next_ino()
                && final(self).table().next_ino() == r + 1,
            forall|i: u64| i != r ==> #[trigger] final(self).table().path(i)
                == old(self).table().path(i),
            forall|p: Seq<char>| p != rel@ ==> #[trigger] final(self).table().ino(p)
                == old(self).table().ino(p),
            final(self).lower_dir() == old(self).lower_dir(),
            final(self).upper_dir() == old(self).upper_dir(),
            final(self).opened() == old(self).opened(),
            forall|fh: u64| #[trigger] final(self).handle(fh) == old(self).handle(fh),
    {
        self.inos.assign(rel)
    }

    /// Opens a handle: one that no open handle has.
    pub fn open_handle(&mut self, kind: Handle) -> (r: u64)
        requires
            old(self).wf(),
            old(self).opened() < u64::MAX - 2,
        ensures
            final(self).wf(),
            old(self).handle(r) is None,
            r == old(self).opened() + 2,
            final(self).opened() == old(self).opened() + 1,
            forall|fh: u64| #[trigger] final(self).handle(fh) == if fh == r {
                Some(kind)
            } else {
                old(self).handle(fh)
            },
            final(self).table() == old(self).table(),
            final(self).lower_dir() == old(self).lower_dir(),
            final(self).upper_dir() == old(self).upper_dir(),
    {
        let fh: u64 = self.next_fh + 2;
        self.next_fh = self.next_fh + 1;
        self.handles.insert(fh, kind);
        fh
    }

    /// What a handle was opened on, if it is open.
    pub fn handle_of(&self, fh: u64) -> (r: Option<Handle>)
        ensures
            r == self.handle(fh),
    {
        match self.handles.get(&fh) {
            Some(h) => Some(*h),
            None => None,
        }
    }

    /// Closes a handle.
    pub fn release(&mut self, fh: u64)
        requires
            old(self).wf(),
        ensures
            final(self).wf(),
            forall|g: u64| #[trigger] final(self).handle(g) == if g == fh {
                None
            } else {
                old(self).handle(g)
            },
            final(self).opened() == old(self).opened(),
            final(self).table() == old(self).table(),
            final(self).lower_dir() == old(self).lower_dir(),
            final(self).upper_dir() == old(self).upper_dir(),
    {
        self.handles.remove(&fh);
    }
}

// --------------------------------------------------------------- attributes

/// What the system says of a file.
#[derive(Clone, Copy, Debug, PartialEq, Eq, Structural)]
pub struct FileProbe {
    pub is_dir: bool,
    pub is_symlink: bool,
    pub len: u64,
    pub mode: u32,
}

/// The kinds of files that the view shows.
#[derive(Clone, Copy, Debug, PartialEq, Eq, Structural)]
pub enum FileKind {
    Directory,
    Symlink,
    File,
}

/// The attributes that the view shows.
#[derive(Clone, Copy, Debug, PartialEq, Eq, Structural)]
pub struct Attr {
    pub ino: u64,
    pub size: u64,
    pub blocks: u64,
    pub kind: FileKind,
    pub perm: u16,
    pub nlink: u32,
    pub blksize: u32,
}

/// The permission bits of a mode.
pub open spec fn perm_bits(mode: u32) -> u32 {
    mode & 0xfff
}

/// The permission bits of a mode.
pub fn permissions(mode: u32) -> (r: u32)
    ensures
        r == perm_bits(mode),
        r == mode & 0o7777,
        r <= 0xfff,
{
    assert(mode & 0xfff <= 0xfff) by (bit_vector);
    mode & 0xfff
}

/// The attributes of a file: its real permission bits, and its size in blocks
/// of 512 bytes, rounded up.
pub fn attr_of(ino: u64, probe: FileProbe) -> (r: Attr)
    ensures
        r.ino == ino,
        r.size == probe.len,
        r.blocks == (probe.len + 511) / 512,
        r.kind == if probe.is_dir {
            FileKind::Directory
        } else if probe.is_symlink {
            FileKind::Symlink
        } else {
            FileKind::File
        },
        r.perm == perm_bits(probe.mode),
        r.perm == probe.mode & 0o7777,
        r.nlink == 1,
        r.blksize == 4096,
{
    let kind = if probe.is_dir {
        FileKind::Directory
    } else if probe.is_symlink {
        FileKind::Symlink
    } else {
        FileKind::File
    };
    let whole: u64 = probe.len / 512;
    let blocks: u64 = if probe.len % 512 == 0 {
        whole
    } else {
        whole + 1
    };
    let perm: u32 = permissions(probe.mode);
    Attr { ino, size: probe.len, blocks, kind, perm: perm as u16, nlink: 1, blksize: 4096 }
}

/// The kind that a listing shows: it does not look through links.
pub fn listed_kind(probe: Option<FileProbe>) -> (r: FileKind)
    ensures
        r == if probe matches Some(p) && p.is_dir {
            FileKind::Directory
        } else {
            FileKind::File
        },
{
    match probe {
        Some(p) => if p.is_dir {
            FileKind::Directory
        } else {
            FileKind::File
        },
        None => FileKind::File,
    }
}

/// The place of the first entry that a listing gives: entry `i` has the number
/// `i + 1`, and those up to `offset` were given before.
pub open spec fn listing_start(entries: int, offset: int) -> int {
    if offset <= 0 {
        0
    } else if offset >= entries {
        entries
    } else {
        offset
    }
}

/// The place of the first entry that a listing gives.
pub fn readdir(entries: usize, offset: i64) -> (r: usize)
    ensures
        r == listing_start(entries as int, offset as int),
        offset <= 0 ==> r == 0,
        offset > 0 && offset >= entries ==> r == entries,
        0 < offset < entries ==> r == offset,
{
    if offset <= 0 {
        0
    } else if (offset as u64) >= (entries as u64) {
        entries
    } else {
        offset as usize
    }
}

/// The entries that a listing gives.
pub open spec fn listed_from(entries: Seq<Seq<char>>, offset: int) -> Seq<Seq<char>> {
    entries.skip(listing_start(entries.len() as int, offset))
}

/// A listing that is continued at the number of the last entry that was given
/// gives the rest: however a listing is cut, every entry is given once, in its
/// order.
pub proof fn law_listing_continues(entries: Seq<Seq<char>>, offset: int, given: int)
    requires
        0 <= offset <= entries.len(),
        0 <= given <= listed_from(entries, offset).len(),
    ensures
        listed_from(entries, offset).take(given) + listed_from(entries, offset + given)
            == listed_from(entries, offset),
{
    assert(listed_from(entries, offset).take(given) + listed_from(entries, offset + given)
        =~= listed_from(entries, offset));
}

/// A listing that starts at the beginning gives every entry, and one that starts
/// behind the last gives none.
pub proof fn law_listing_gives_all(entries: Seq<Seq<char>>, offset: int)
    ensures
        offset <= 0 ==> listed_from(entries, offset) == entries,
        0 <= offset <= entries.len() ==> listed_from(entries, offset).len() == entries.len() - offset,
        offset >= entries.len() ==> listed_from(entries, offset).len() == 0,
{
    assert(offset <= 0 ==> listed_from(entries, offset) =~= entries);
}

/// Where a read or write that asks for this offset starts.
pub fn file_offset(offset: i64) -> (r: u64)
    ensures
        r == if offset < 0 {
            0
        } else {
            offset as int
        },
{
    if offset < 0 {
        0
    } else {
        offset as u64
    }
}

// ------------------------------------------------------------------ opening

/// The open is one that can write. `mask` holds the system's flags for that.
pub fn wants_write(flags: i32, mask: i32) -> (r: bool)
    ensures
        r == ((flags & mask) != 0),
{
    (flags & mask) != 0
}

/// How to open a file.
#[derive(Clone, Copy, Debug, PartialEq, Eq, Structural)]
pub struct OpenPlan {
    /// Copy the file into the upper layer first.
    pub copy_up: bool,
    /// Open the file in the upper layer; else in the lower one.
    pub from_upper: bool,
    /// Open it for writing.
    pub write: bool,
}

/// How to open a path. A file of the host directory is never opened for
/// writing: it is copied into the upper layer, and the copy is opened.
pub fn open(known: bool, place: Place, write: bool) -> (r: Result<OpenPlan, Errno>)
    ensures
        r is Err <==> !known || place is Nowhere,
        r matches Err(e) ==> e == Errno::NoEntry,
        r matches Ok(p) ==> p.write == write && p.copy_up == (write && !(place is Upper))
            && p.from_upper == (write || place is Upper),
        r matches Ok(p) ==> (p.write ==> p.from_upper),
{
    if !known {
        return Err(Errno::NoEntry);
    }
    match place {
        Place::Nowhere => Err(Errno::NoEntry),
        Place::Upper => Ok(OpenPlan { copy_up: false, from_upper: true, write }),
        _ => Ok(OpenPlan { copy_up: write, from_upper: write, write }),
    }
}

// ----------------------------------------------------------------- creating

/// What is to be made.
#[derive(Clone, Copy, Debug, PartialEq, Eq, Structural)]
pub enum NewEntry {
    Directory,
    Symlink,
    /// A file, asked for with this mode.
    Node(u32),
    File,
}

/// A mode asks for a plain file.
pub open spec fn plain_file(mode: u32) -> bool {
    mode & 0o170000 == 0o100000
}

/// Why an entry cannot be made here, if it cannot: devices and pipes are not
/// made at all, the directory must be known, and the name must not be one that
/// the layer keeps for itself.
pub open spec fn create_refusal(what: NewEntry, known: bool, name: Seq<char>) -> Option<Errno> {
    if what matches NewEntry::Node(m) && !plain_file(m) {
        Some(Errno::NotPermitted)
    } else if !known {
        Some(Errno::NoEntry)
    } else if layers::reserved(name) {
        Some(Errno::NotPermitted)
    } else {
        None
    }
}

/// What making an entry asks for next.
#[derive(Clone, Copy, Debug, PartialEq, Eq, Structural)]
pub enum MakeAsk {
    /// Remove the deletion markers for it, as far as that works.
    ClearMarkers,
    /// Make the directories it lies in.
    MakeParents,
    /// Make it, in the upper layer.
    Make,
    /// Give it the permission bits that were asked for.
    SetMode,
    /// Look at it.
    Look,
    /// Answer with what was found.
    Answer,
    Fail(Errno),
}

/// The first step of making an entry.
pub open spec fn make_first(what: NewEntry, known: bool, name: Seq<char>) -> MakeAsk {
    match create_refusal(what, known, name) {
        Some(e) => MakeAsk::Fail(e),
        None => MakeAsk::ClearMarkers,
    }
}

/// The step after a step of making an entry. A directory is made together with
/// those it lies in.
pub open spec fn make_next(what: NewEntry, ask: MakeAsk, worked: bool) -> MakeAsk {
    match ask {
        MakeAsk::ClearMarkers => if what is Directory {
            MakeAsk::Make
        } else {
            MakeAsk::MakeParents
        },
        MakeAsk::MakeParents => if worked {
            MakeAsk::Make
        } else {
            MakeAsk::Fail(Errno::System)
        },
        MakeAsk::Make => if !worked {
            MakeAsk::Fail(Errno::System)
        } else if what is Directory {
            MakeAsk::SetMode
        } else {
            MakeAsk::Look
        },
        MakeAsk::SetMode => if worked {
            MakeAsk::Look
        } else {
            MakeAsk::Fail(Errno::System)
        },
        MakeAsk::Look => if worked {
            MakeAsk::Answer
        } else {
            MakeAsk::Fail(Errno::Io)
        },
        MakeAsk::Answer => MakeAsk::Answer,
        MakeAsk::Fail(e) => MakeAsk::Fail(e),
    }
}

/// The first step of making an entry.
pub fn make_start(what: NewEntry, known: bool, name: &str) -> (r: MakeAsk)
    ensures
        r == make_first(what, known, name@),
{
    if let NewEntry::Node(m) = what {
        if m & 0o170000 != 0o100000 {
            return MakeAsk::Fail(Errno::NotPermitted);
        }
    }
    if !known {
        return MakeAsk::Fail(Errno::NoEntry);
    }
    if is_reserved_name(name) {
        return MakeAsk::Fail(Errno::NotPermitted);
    }
    MakeAsk::ClearMarkers
}

/// Makes an entry, one step at a time.
pub fn make(what: NewEntry, ask: MakeAsk, worked: bool) -> (r: MakeAsk)
    ensures
        r == make_next(what, ask, worked),
{
    let dir = match what {
        NewEntry::Directory => true,
        _ => false,
    };
    match ask {
        MakeAsk::ClearMarkers => if dir {
            MakeAsk::Make
        } else {
            MakeAsk::MakeParents
        },
        MakeAsk::MakeParents => if worked {
            MakeAsk::Make
        } else {
            MakeAsk::Fail(Errno::System)
        },
        MakeAsk::Make => if !worked {
            MakeAsk::Fail(Errno::System)
        } else if dir {
            MakeAsk::SetMode
        } else {
            MakeAsk::Look
        },
        MakeAsk::SetMode => if worked {
            MakeAsk::Look
        } else {
            MakeAsk::Fail(Errno::System)
        },
        MakeAsk::Look => if worked {
            MakeAsk::Answer
        } else {
            MakeAsk::Fail(Errno::Io)
        },
        MakeAsk::Answer => MakeAsk::Answer,
        MakeAsk::Fail(e) => MakeAsk::Fail(e),
    }
}

/// The steps of making an entry, with what came of each.
pub open spec fn make_trace(
    what: NewEntry,
    known: bool,
    name: Seq<char>,
    t: Seq<(MakeAsk, bool)>,
) -> bool {
    &&& t.len() > 0 ==> t[0].0 == make_first(what, known, name)
    &&& forall|i: int|
        0 <= i && i + 1 < t.len() ==> (#[trigger] t[i + 1]).0 == make_next(what, t[i].0, t[i].1)
}

/// No entry is ever made under a name that the layer keeps for itself, and what
/// hid the name before is cleared first.
pub proof fn law_reserved_names_are_refused(
    what: NewEntry,
    known: bool,
    name: Seq<char>,
    t: Seq<(MakeAsk, bool)>,
    i: int,
)
    requires
        make_trace(what, known, name, t),
        0 <= i < t.len(),
        !(t[i].0 is Fail),
    ensures
        known,
        !layers::reserved(name),
        t[0].0 is ClearMarkers,
        i > 0 ==> !(t[i].0 is ClearMarkers),
    decreases i,
{
    if i > 0 {
        assert(t[i - 1 + 1].0 == make_next(what, t[i - 1].0, t[i - 1].1));
        law_reserved_names_are_refused(what, known, name, t, i - 1);
    }
}

/// How far the making of an entry has come.
spec fn make_stage(ask: MakeAsk) -> int {
    match ask {
        MakeAsk::ClearMarkers => 0,
        MakeAsk::MakeParents => 1,
        MakeAsk::Make => 2,
        MakeAsk::SetMode => 3,
        MakeAsk::Look => 4,
        _ => 5,
    }
}

/// An entry that is answered as made was made in the upper layer, after the
/// directories it lies in; a directory, and only that, has the permission bits
/// that were asked for; and what is answered was looked at. Its name is neither
/// that of a deletion marker nor that of an unfinished copy, and what was asked
/// for with a mode is a plain file.
pub proof fn law_made_is_there(
    what: NewEntry,
    known: bool,
    name: Seq<char>,
    t: Seq<(MakeAsk, bool)>,
    i: int,
)
    requires
        make_trace(what, known, name, t),
        0 <= i < t.len(),
    ensures
        t[i].0 is Make || t[i].0 is SetMode || t[i].0 is Look || t[i].0 is Answer ==> known && !(
        ".wh."@.is_prefix_of(name)) && !(".cowt-copy-tmp."@.is_prefix_of(name)) && (
        what matches NewEntry::Node(m) ==> m & 0o170000 == 0o100000),
        t[i].0 is Make || t[i].0 is SetMode || t[i].0 is Look || t[i].0 is Answer ==> steps::asked(
            t,
            i,
            MakeAsk::ClearMarkers,
        ) && (what is Directory || steps::did(t, i, MakeAsk::MakeParents, true)),
        t[i].0 is SetMode || t[i].0 is Look || t[i].0 is Answer ==> steps::did(
            t,
            i,
            MakeAsk::Make,
            true,
        ),
        t[i].0 is Look || t[i].0 is Answer ==> (what is Directory ==> steps::did(
            t,
            i,
            MakeAsk::SetMode,
            true,
        )),
        t[i].0 is SetMode ==> what is Directory,
        t[i].0 is Answer ==> steps::did(t, i, MakeAsk::Look, true),
    decreases i,
{
    if i > 0 {
        law_made_is_there(what, known, name, t, i - 1);
        law_refused_entries(what, known, name);
        lemma_make_start(what, known, name, t, i - 1);
        assert(t[i - 1 + 1].0 == make_next(what, t[i - 1].0, t[i - 1].1));
        assert(t[i - 1] == (t[i - 1].0, t[i - 1].1));
    }
}

proof fn lemma_make_start(
    what: NewEntry,
    known: bool,
    name: Seq<char>,
    t: Seq<(MakeAsk, bool)>,
    i: int,
)
    requires
        make_trace(what, known, name, t),
        0 <= i < t.len(),
    ensures
        !(t[i].0 is Fail) ==> make_first(what, known, name) is ClearMarkers,
    decreases i,
{
    if i > 0 {
        lemma_make_start(what, known, name, t, i - 1);
        assert(t[i - 1 + 1].0 == make_next(what, t[i - 1].0, t[i - 1].1));
    }
}

/// An entry is refused outright exactly where it is asked for with a mode that
/// is none of a plain file, where the directory is not known, or where its name
/// is that of a deletion marker or of an unfinished copy. The directory that is
/// not known is reported as such, unless the mode alone forbids it.
pub proof fn law_refused_entries(what: NewEntry, known: bool, name: Seq<char>)
    ensures
        ({
            let odd = what is Node && what->Node_0 & 0o170000 != 0o100000;
            let own = ".wh."@.is_prefix_of(name) || ".cowt-copy-tmp."@.is_prefix_of(name);
            &&& make_first(what, known, name) == MakeAsk::Fail(Errno::NotPermitted) <==> odd || (
            known && own)
            &&& make_first(what, known, name) == MakeAsk::Fail(Errno::NoEntry) <==> !odd && !known
            &&& make_first(what, known, name) is ClearMarkers <==> !odd && known && !own
        }),
{
}

proof fn lemma_make_stage(
    what: NewEntry,
    known: bool,
    name: Seq<char>,
    t: Seq<(MakeAsk, bool)>,
    i: int,
)
    requires
        make_trace(what, known, name, t),
        0 <= i < t.len(),
    ensures
        make_stage(t[i].0) >= i || make_stage(t[i].0) == 5,
    decreases i,
{
    if i > 0 {
        lemma_make_stage(what, known, name, t, i - 1);
        assert(t[i - 1 + 1].0 == make_next(what, t[i - 1].0, t[i - 1].1));
    }
}

/// The making of an entry that fails after it began does so because the system
/// refused a step, which is then passed on, or because what was made could not be
/// looked at. Where every step works it is answered as made within six steps.
pub proof fn law_making_fails_for_a_reason(
    what: NewEntry,
    known: bool,
    name: Seq<char>,
    t: Seq<(MakeAsk, bool)>,
    i: int,
)
    requires
        make_trace(what, known, name, t),
        0 <= i < t.len(),
        t[0].0 is ClearMarkers,
    ensures
        t[i].0 matches MakeAsk::Fail(e) ==> (e is System && exists|j: int|
            0 <= j < i && !(#[trigger] t[j]).1 && (t[j].0 is MakeParents || t[j].0 is Make
                || t[j].0 is SetMode)) || (e is Io && steps::did(t, i, MakeAsk::Look, false)),
        steps::always(t, i, true) ==> !(t[i].0 is Fail),
        i >= 5 ==> t[i].0 is Answer || t[i].0 is Fail,
    decreases i,
{
    lemma_make_stage(what, known, name, t, i);
    if i > 0 {
        law_making_fails_for_a_reason(what, known, name, t, i - 1);
        assert(t[i - 1 + 1].0 == make_next(what, t[i - 1].0, t[i - 1].1));
        assert(t[i - 1] == (t[i - 1].0, t[i - 1].1));
        if t[i].0 is Fail && t[i - 1].0 is Fail && t[i - 1].0->Fail_0 is System {
            let j = choose|j: int|
                0 <= j < i - 1 && !(#[trigger] t[j]).1 && (t[j].0 is MakeParents || t[j].0 is Make
                    || t[j].0 is SetMode);
            assert(!t[j].1);
        }
        if steps::always(t, i, true) {
            assert(steps::always(t, i - 1, true));
            assert(t[i - 1].1);
        }
    }
}

// ----------------------------------------------------------------- renaming

/// What renaming asks for next.
#[derive(Clone, Copy, Debug, PartialEq, Eq, Structural)]
pub enum RenameAsk {
    /// Copy what is at the old path into the upper layer.
    CopyUpTree,
    /// Does the upper layer have the old path?
    CheckSource,
    /// Make the directories that the new path lies in.
    MakeParents,
    /// Delete what is at the new path, as far as that works.
    DeleteTarget,
    /// Mark the old path as deleted.
    WriteMarker,
    /// Rename, in the upper layer.
    Rename,
    /// Answer that it is done.
    Answer,
    Fail(Errno),
}

/// What is known when a rename starts.
#[derive(Clone, Copy, Debug, PartialEq, Eq, Structural)]
pub struct RenameProbe {
    /// Both directories are known.
    pub known: bool,
    /// The new name is one that the layer keeps for itself.
    pub reserved: bool,
    /// The lower layer has the old path.
    pub in_lower: bool,
    /// The upper layer has the old path.
    pub in_upper: bool,
    /// What is at the new path is to be replaced.
    pub replaces: bool,
    /// The old path is marked before the rename, so that a crash between the
    /// two never leaves both paths.
    pub marks_first: bool,
}

/// The first step of renaming.
pub open spec fn rename_first(p: RenameProbe) -> RenameAsk {
    if !p.known {
        RenameAsk::Fail(Errno::NoEntry)
    } else if p.reserved {
        RenameAsk::Fail(Errno::NotPermitted)
    } else if p.in_lower && !p.in_upper {
        RenameAsk::CopyUpTree
    } else {
        RenameAsk::CheckSource
    }
}

/// What comes once the new path is free.
pub open spec fn rename_free(p: RenameProbe) -> RenameAsk {
    if p.in_lower && p.marks_first {
        RenameAsk::WriteMarker
    } else {
        RenameAsk::Rename
    }
}

/// The step after a step of renaming.
pub open spec fn rename_next(p: RenameProbe, ask: RenameAsk, worked: bool) -> RenameAsk {
    match ask {
        RenameAsk::CopyUpTree => if worked {
            RenameAsk::CheckSource
        } else {
            RenameAsk::Fail(Errno::System)
        },
        RenameAsk::CheckSource => if worked {
            RenameAsk::MakeParents
        } else {
            RenameAsk::Fail(Errno::NoEntry)
        },
        RenameAsk::MakeParents => if !worked {
            RenameAsk::Fail(Errno::System)
        } else if p.replaces {
            RenameAsk::DeleteTarget
        } else {
            rename_free(p)
        },
        RenameAsk::DeleteTarget => rename_free(p),
        RenameAsk::WriteMarker => if !worked {
            RenameAsk::Fail(Errno::System)
        } else if p.marks_first {
            RenameAsk::Rename
        } else {
            RenameAsk::Answer
        },
        RenameAsk::Rename => if !worked {
            RenameAsk::Fail(Errno::System)
        } else if p.in_lower && !p.marks_first {
            RenameAsk::WriteMarker
        } else {
            RenameAsk::Answer
        },
        RenameAsk::Answer => RenameAsk::Answer,
        RenameAsk::Fail(e) => RenameAsk::Fail(e),
    }
}

/// The first step of renaming.
pub fn rename_start(p: RenameProbe) -> (r: RenameAsk)
    ensures
        r == rename_first(p),
{
    if !p.known {
        RenameAsk::Fail(Errno::NoEntry)
    } else if p.reserved {
        RenameAsk::Fail(Errno::NotPermitted)
    } else if p.in_lower && !p.in_upper {
        RenameAsk::CopyUpTree
    } else {
        RenameAsk::CheckSource
    }
}

fn step_free(p: RenameProbe) -> (r: RenameAsk)
    ensures
        r == rename_free(p),
{
    if p.in_lower && p.marks_first {
        RenameAsk::WriteMarker
    } else {
        RenameAsk::Rename
    }
}

/// Renames, one step at a time. What the lower layer has under the old path is
/// copied up, so that the rename happens in the upper layer alone, and is
/// marked as deleted, so that it does not show again.
pub fn rename(p: RenameProbe, ask: RenameAsk, worked: bool) -> (r: RenameAsk)
    ensures
        r == rename_next(p, ask, worked),
{
    match ask {
        RenameAsk::CopyUpTree => if worked {
            RenameAsk::CheckSource
        } else {
            RenameAsk::Fail(Errno::System)
        },
        RenameAsk::CheckSource => if worked {
            RenameAsk::MakeParents
        } else {
            RenameAsk::Fail(Errno::NoEntry)
        },
        RenameAsk::MakeParents => if !worked {
            RenameAsk::Fail(Errno::System)
        } else if p.replaces {
            RenameAsk::DeleteTarget
        } else {
            step_free(p)
        },
        RenameAsk::DeleteTarget => step_free(p),
        RenameAsk::WriteMarker => if !worked {
            RenameAsk::Fail(Errno::System)
        } else if p.marks_first {
            RenameAsk::Rename
        } else {
            RenameAsk::Answer
        },
        RenameAsk::Rename => if !worked {
            RenameAsk::Fail(Errno::System)
        } else if p.in_lower && !p.marks_first {
            RenameAsk::WriteMarker
        } else {
            RenameAsk::Answer
        },
        RenameAsk::Answer => RenameAsk::Answer,
        RenameAsk::Fail(e) => RenameAsk::Fail(e),
    }
}

/// The steps of renaming, with what came of each.
pub open spec fn rename_trace(p: RenameProbe, t: Seq<(RenameAsk, bool)>) -> bool {
    &&& t.len() > 0 ==> t[0].0 == rename_first(p)
    &&& forall|i: int|
        0 <= i && i + 1 < t.len() ==> (#[trigger] t[i + 1]).0 == rename_next(p, t[i].0, t[i].1)
}

/// Where the old path is marked first, the rename comes right after its marker
/// was written, if the lower layer has the old path: no crash leaves both
/// paths.
pub proof fn law_marked_before_renamed(p: RenameProbe, t: Seq<(RenameAsk, bool)>, i: int)
    requires
        rename_trace(p, t),
        0 <= i < t.len(),
        t[i].0 is Rename,
        p.in_lower,
        p.marks_first,
    ensures
        i > 0,
        t[i - 1] == (RenameAsk::WriteMarker, true),
{
    assert(i > 0);
    assert(t[i - 1 + 1].0 == rename_next(p, t[i - 1].0, t[i - 1].1));
}

/// A rename that is answered as done has renamed, and has marked the old path
/// as deleted where the lower layer has it; it never went to a name that the
/// layer keeps for itself.
pub proof fn law_rename_is_complete(p: RenameProbe, t: Seq<(RenameAsk, bool)>, i: int)
    requires
        rename_trace(p, t),
        0 <= i < t.len(),
    ensures
        !(t[i].0 is Fail) ==> p.known && !p.reserved,
        t[i].0 is Answer ==> exists|j: int|
            0 <= j < i && #[trigger] t[j] == (RenameAsk::Rename, true),
        t[i].0 is Answer && p.in_lower ==> exists|j: int|
            0 <= j < i && #[trigger] t[j] == (RenameAsk::WriteMarker, true),
        t[i].0 is WriteMarker && !p.marks_first ==> i > 0 && t[i - 1] == (RenameAsk::Rename, true),
    decreases i,
{
    if i > 0 {
        law_rename_is_complete(p, t, i - 1);
        assert(t[i - 1 + 1].0 == rename_next(p, t[i - 1].0, t[i - 1].1));
        if t[i].0 is Answer && !(t[i - 1].0 is Answer) {
            if t[i - 1].0 is Rename {
                assert(t[i - 1] == (RenameAsk::Rename, true));
                if p.in_lower {
                    law_marked_before_renamed(p, t, i - 1);
                    assert(t[i - 2] == (RenameAsk::WriteMarker, true));
                }
            } else {
                assert(t[i - 1] == (RenameAsk::WriteMarker, true));
                assert(t[i - 2] == (RenameAsk::Rename, true));
            }
        }
    }
}

/// How far a rename has come.
spec fn rename_stage(p: RenameProbe, ask: RenameAsk) -> int {
    match ask {
        RenameAsk::CopyUpTree => 0,
        RenameAsk::CheckSource => 1,
        RenameAsk::MakeParents => 2,
        RenameAsk::DeleteTarget => 3,
        RenameAsk::WriteMarker => if p.marks_first {
            4
        } else {
            5
        },
        RenameAsk::Rename => if p.marks_first {
            5
        } else {
            4
        },
        _ => 6,
    }
}

/// A rename that is answered as done took the whole tree of the host directory
/// into the upper layer where it was only there, found the old path in the upper
/// layer, made the directories of the new one, and took away what was at the new
/// path where that is to be replaced, and only then. It marks the old path as
/// deleted exactly where the host directory has it.
pub proof fn law_renamed_in_full(p: RenameProbe, t: Seq<(RenameAsk, bool)>, i: int)
    requires
        rename_trace(p, t),
        0 <= i < t.len(),
    ensures
        t[i].0 is Rename || t[i].0 is Answer ==> (p.in_lower && !p.in_upper ==> steps::did(
            t,
            i,
            RenameAsk::CopyUpTree,
            true,
        )) && steps::did(t, i, RenameAsk::CheckSource, true) && steps::did(
            t,
            i,
            RenameAsk::MakeParents,
            true,
        ) && (p.replaces ==> steps::asked(t, i, RenameAsk::DeleteTarget)),
        t[i].0 is Answer ==> steps::did(t, i, RenameAsk::Rename, true) && (p.in_lower ==> steps::did(
            t,
            i,
            RenameAsk::WriteMarker,
            true,
        )),
        t[i].0 is DeleteTarget ==> p.replaces,
        t[i].0 is WriteMarker ==> p.in_lower,
        t[i].0 is CopyUpTree ==> p.in_lower && !p.in_upper,
{
    law_rename_is_complete(p, t, i);
    lemma_rename_so_far(p, t, i);
    if t[i].0 is Answer {
        let j = choose|j: int| 0 <= j < i && #[trigger] t[j] == (RenameAsk::Rename, true);
        lemma_rename_so_far(p, t, j);
    }
}

proof fn lemma_rename_so_far(p: RenameProbe, t: Seq<(RenameAsk, bool)>, i: int)
    requires
        rename_trace(p, t),
        0 <= i < t.len(),
    ensures
        t[i].0 is CopyUpTree ==> i == 0 && p.in_lower && !p.in_upper,
        !(t[i].0 is CopyUpTree) && !(t[i].0 is Fail) ==> (p.in_lower && !p.in_upper ==> steps::did(
            t,
            i,
            RenameAsk::CopyUpTree,
            true,
        )),
        !(t[i].0 is CopyUpTree) && !(t[i].0 is CheckSource) && !(t[i].0 is Fail) ==> steps::did(
            t,
            i,
            RenameAsk::CheckSource,
            true,
        ),
        t[i].0 is DeleteTarget || t[i].0 is WriteMarker || t[i].0 is Rename || t[i].0 is Answer
            ==> steps::did(t, i, RenameAsk::MakeParents, true),
        t[i].0 is WriteMarker || t[i].0 is Rename || t[i].0 is Answer ==> (p.replaces
            ==> steps::asked(t, i, RenameAsk::DeleteTarget)),
        t[i].0 is DeleteTarget ==> p.replaces,
        t[i].0 is WriteMarker ==> p.in_lower,
    decreases i,
{
    if i > 0 {
        lemma_rename_so_far(p, t, i - 1);
        assert(t[i - 1 + 1].0 == rename_next(p, t[i - 1].0, t[i - 1].1));
        assert(t[i - 1] == (t[i - 1].0, t[i - 1].1));
    }
}

proof fn lemma_rename_stage(p: RenameProbe, t: Seq<(RenameAsk, bool)>, i: int)
    requires
        rename_trace(p, t),
        0 <= i < t.len(),
    ensures
        rename_stage(p, t[i].0) >= i || rename_stage(p, t[i].0) == 6,
    decreases i,
{
    if i > 0 {
        lemma_rename_stage(p, t, i - 1);
        assert(t[i - 1 + 1].0 == rename_next(p, t[i - 1].0, t[i - 1].1));
    }
}

/// A rename that fails does so for a reason: a directory is not known, or the old
/// path is in neither layer; the new name is one that the layer keeps for itself;
/// or the system refused a step. Where none of this holds and every step works,
/// it is answered as done within seven steps.
pub proof fn law_rename_fails_for_a_reason(p: RenameProbe, t: Seq<(RenameAsk, bool)>, i: int)
    requires
        rename_trace(p, t),
        0 <= i < t.len(),
    ensures
        t[i].0 matches RenameAsk::Fail(e) ==> (e is NoEntry && (!p.known || steps::did(
            t,
            i,
            RenameAsk::CheckSource,
            false,
        ))) || (e is NotPermitted && p.known && p.reserved) || (e is System && exists|j: int|
            0 <= j < i && !(#[trigger] t[j]).1 && !(t[j].0 is CheckSource) && !(
            t[j].0 is DeleteTarget)),
        p.known && !p.reserved && steps::always(t, i, true) ==> !(t[i].0 is Fail),
        i >= 6 ==> t[i].0 is Answer || t[i].0 is Fail,
    decreases i,
{
    lemma_rename_stage(p, t, i);
    if i > 0 {
        law_rename_fails_for_a_reason(p, t, i - 1);
        assert(t[i - 1 + 1].0 == rename_next(p, t[i - 1].0, t[i - 1].1));
        assert(t[i - 1] == (t[i - 1].0, t[i - 1].1));
        if t[i].0 is Fail && t[i - 1].0 is Fail && t[i - 1].0->Fail_0 is System {
            let j = choose|j: int|
                0 <= j < i - 1 && !(#[trigger] t[j]).1 && !(t[j].0 is CheckSource) && !(
                t[j].0 is DeleteTarget);
            assert(!t[j].1);
        }
        if steps::always(t, i, true) {
            assert(steps::always(t, i - 1, true));
            assert(t[i - 1].1);
        }
    }
}

/// What the merged view shows at a path.
#[derive(Debug)]
pub enum Shown {
    /// Something that is no directory.
    File,
    /// A directory with these entries.
    Dir(Vec<(String, Shown)>),
}

/// The files at and below a path, in the order of the listings.
pub open spec fn files(rel: Seq<Seq<char>>, t: Shown) -> Seq<Seq<Seq<char>>>
    decreases t, rank(t),
{
    match t {
        Shown::File => seq![rel],
        Shown::Dir(v) => files_below(rel, t, v@.len() as int),
    }
}

/// More than the number of entries of a directory.
pub open spec fn rank(t: Shown) -> int {
    match t {
        Shown::File => 0,
        Shown::Dir(v) => v@.len() as int + 1,
    }
}

/// The files below the first `n` entries of a directory.
pub open spec fn files_below(rel: Seq<Seq<char>>, t: Shown, n: int) -> Seq<Seq<Seq<char>>>
    decreases t, n,
{
    match t {
        Shown::File => Seq::empty(),
        Shown::Dir(v) => if n <= 0 || n > v@.len() {
            Seq::empty()
        } else {
            files_below(rel, t, n - 1) + files(rel.push(v@[n - 1].0@), v@[n - 1].1)
        },
    }
}

/// The paths of a list.
pub open spec fn paths(v: Seq<Vec<String>>) -> Seq<Seq<Seq<char>>> {
    v.map_values(|p: Vec<String>| text::texts(p@))
}

fn collect_files(rel: &Vec<String>, t: &Shown, out: &mut Vec<Vec<String>>)
    ensures
        paths(final(out)@) == paths(old(out)@) + files(text::texts(rel@), *t),
    decreases *t,
{
    match t {
        Shown::File => {
            let ghost before = out@;
            let copy = layers::copy_path(rel, rel.len());
            assert(text::texts(rel@).take(rel@.len() as int) =~= text::texts(rel@));
            out.push(copy);
            assert(paths(out@) =~= paths(before) + seq![text::texts(rel@)]);
        },
        Shown::Dir(v) => {
            let ghost before = out@;
            let mut i: usize = 0;
            assert(paths(out@) =~= paths(before) + files_below(text::texts(rel@), *t, 0));
            while i < v.len()
                invariant
                    i <= v@.len(),
                    *t == Shown::Dir(*v),
                    paths(out@) == paths(before) + files_below(text::texts(rel@), *t, i as int),
                decreases v@.len() - i,
            {
                let mut child = layers::copy_path(rel, rel.len());
                let ghost c0 = child@;
                child.push(v[i].0.clone());
                assert(text::texts(rel@).take(rel@.len() as int) =~= text::texts(rel@));
                assert(text::texts(child@) =~= text::texts(c0).push(v@[i as int].0@));
                assert(decreases_to!(*t => v@[i as int].1));
                collect_files(&child, &v[i].1, out);
                i = i + 1;
                assert(paths(out@) =~= paths(before) + files_below(
                    text::texts(rel@),
                    *t,
                    i as int,
                ));
            }
        },
    }
}

/// The files to copy into the upper layer so that it holds a whole tree, whose
/// directories `tree_dirs` gives.
pub fn copy_up_tree(rel: &Vec<String>, t: &Shown) -> (r: Vec<Vec<String>>)
    ensures
        paths(r@) == files(text::texts(rel@), *t),
{
    let mut out: Vec<Vec<String>> = Vec::new();
    collect_files(rel, t, &mut out);
    assert(paths(out@) =~= files(text::texts(rel@), *t));
    out
}

/// The directories at and below a path, each before those in it.
pub open spec fn dirs(rel: Seq<Seq<char>>, t: Shown) -> Seq<Seq<Seq<char>>>
    decreases t, rank(t),
{
    match t {
        Shown::File => Seq::empty(),
        Shown::Dir(v) => seq![rel] + dirs_below(rel, t, v@.len() as int),
    }
}

/// The directories at and below the first `n` entries of a directory.
pub open spec fn dirs_below(rel: Seq<Seq<char>>, t: Shown, n: int) -> Seq<Seq<Seq<char>>>
    decreases t, n,
{
    match t {
        Shown::File => Seq::empty(),
        Shown::Dir(v) => if n <= 0 || n > v@.len() {
            Seq::empty()
        } else {
            dirs_below(rel, t, n - 1) + dirs(rel.push(v@[n - 1].0@), v@[n - 1].1)
        },
    }
}

fn collect_dirs(rel: &Vec<String>, t: &Shown, out: &mut Vec<Vec<String>>)
    ensures
        paths(final(out)@) == paths(old(out)@) + dirs(text::texts(rel@), *t),
    decreases *t,
{
    let ghost start = out@;
    match t {
        Shown::File => {
            assert(paths(out@) =~= paths(start) + dirs(text::texts(rel@), *t));
        },
        Shown::Dir(v) => {
            let copy = layers::copy_path(rel, rel.len());
            assert(text::texts(rel@).take(rel@.len() as int) =~= text::texts(rel@));
            out.push(copy);
            let ghost before = out@;
            assert(paths(before) =~= paths(start) + seq![text::texts(rel@)]);
            let mut i: usize = 0;
            assert(paths(out@) =~= paths(before) + dirs_below(text::texts(rel@), *t, 0));
            while i < v.len()
                invariant
                    i <= v@.len(),
                    *t == Shown::Dir(*v),
                    paths(out@) == paths(before) + dirs_below(text::texts(rel@), *t, i as int),
                decreases v@.len() - i,
            {
                let mut child = layers::copy_path(rel, rel.len());
                let ghost c0 = child@;
                child.push(v[i].0.clone());
                assert(text::texts(rel@).take(rel@.len() as int) =~= text::texts(rel@));
                assert(text::texts(child@) =~= text::texts(c0).push(v@[i as int].0@));
                assert(decreases_to!(*t => v@[i as int].1));
                collect_dirs(&child, &v[i].1, out);
                i = i + 1;
                assert(paths(out@) =~= paths(before) + dirs_below(
                    text::texts(rel@),
                    *t,
                    i as int,
                ));
            }
            assert(paths(out@) =~= paths(start) + dirs(text::texts(rel@), *t));
        },
    }
}

/// The directories to make in the upper layer so that it holds a whole tree,
/// the empty ones too, each before those in it.
pub fn tree_dirs(rel: &Vec<String>, t: &Shown) -> (r: Vec<Vec<String>>)
    ensures
        paths(r@) == dirs(text::texts(rel@), *t),
{
    let mut out: Vec<Vec<String>> = Vec::new();
    collect_dirs(rel, t, &mut out);
    assert(paths(out@) =~= dirs(text::texts(rel@), *t));
    out
}

/// What a directory shows under a name.
pub open spec fn child(d: Seq<(String, Shown)>, name: Seq<char>) -> Option<Shown>
    decreases d.len(),
{
    if d.len() == 0 {
        None
    } else {
        match child(d.drop_last(), name) {
            Some(t) => Some(t),
            None => if d.last().0@ == name {
                Some(d.last().1)
            } else {
                None
            },
        }
    }
}

/// What a tree shows at a path.
pub open spec fn node(t: Shown, path: Seq<Seq<char>>) -> Option<Shown>
    decreases path.len(),
{
    if path.len() == 0 {
        Some(t)
    } else {
        match t {
            Shown::File => None,
            Shown::Dir(v) => match child(v@, path[0]) {
                Some(c) => node(c, path.skip(1)),
                None => None,
            },
        }
    }
}

proof fn lemma_child(d: Seq<(String, Shown)>, name: Seq<char>) -> (k: int)
    requires
        child(d, name) is Some,
    ensures
        0 <= k < d.len(),
        d[k].0@ == name,
        child(d, name) == Some(d[k].1),
    decreases d.len(),
{
    if child(d.drop_last(), name) is Some {
        lemma_child(d.drop_last(), name)
    } else {
        d.len() - 1
    }
}

proof fn lemma_has_below(rel: Seq<Seq<char>>, t: Shown, k: int, n: int, p: Seq<Seq<char>>)
    requires
        t is Dir,
        0 <= k < n <= t->Dir_0@.len(),
    ensures
        files(rel.push(t->Dir_0@[k].0@), t->Dir_0@[k].1).contains(p) ==> files_below(
            rel,
            t,
            n,
        ).contains(p),
        dirs(rel.push(t->Dir_0@[k].0@), t->Dir_0@[k].1).contains(p) ==> dirs_below(
            rel,
            t,
            n,
        ).contains(p),
    decreases n,
{
    let c = t->Dir_0@[n - 1];
    let (f, d) = (files(rel.push(c.0@), c.1), dirs(rel.push(c.0@), c.1));
    let (fa, da) = (files_below(rel, t, n - 1), dirs_below(rel, t, n - 1));
    let (fb, db) = (files_below(rel, t, n), dirs_below(rel, t, n));
    if k < n - 1 {
        lemma_has_below(rel, t, k, n - 1, p);
    }
    if fa.contains(p) {
        let i = choose|i: int| 0 <= i < fa.len() && fa[i] == p;
        assert(fb[i] == p);
    }
    if da.contains(p) {
        let i = choose|i: int| 0 <= i < da.len() && da[i] == p;
        assert(db[i] == p);
    }
    if k == n - 1 {
        if f.contains(p) {
            let i = choose|i: int| 0 <= i < f.len() && f[i] == p;
            assert(fb[fa.len() + i] == p);
        }
        if d.contains(p) {
            let i = choose|i: int| 0 <= i < d.len() && d[i] == p;
            assert(db[da.len() + i] == p);
        }
    }
}

/// Copying a tree copies all of it: every file that it shows is copied, and
/// every directory, also one with nothing in it, is made.
pub proof fn law_tree_is_covered(rel: Seq<Seq<char>>, t: Shown, path: Seq<Seq<char>>)
    requires
        node(t, path) is Some,
    ensures
        node(t, path)->0 is File ==> files(rel, t).contains(rel + path),
        node(t, path)->0 is Dir ==> dirs(rel, t).contains(rel + path),
    decreases path.len(),
{
    if path.len() == 0 {
        assert(rel + path =~= rel);
        if t is File {
            assert(files(rel, t)[0] == rel);
        } else {
            assert(dirs(rel, t)[0] == rel);
        }
    } else {
        let v = t->Dir_0@;
        let k = lemma_child(v, path[0]);
        let p = rel + path;
        law_tree_is_covered(rel.push(path[0]), v[k].1, path.skip(1));
        assert(rel.push(path[0]) + path.skip(1) =~= p);
        lemma_has_below(rel, t, k, v.len() as int, p);
        let d = dirs_below(rel, t, v.len() as int);
        if d.contains(p) {
            let i = choose|i: int| 0 <= i < d.len() && d[i] == p;
            assert(dirs(rel, t)[i + 1] == p);
        }
    }
}

/// What is copied for a tree lies in that tree.
pub proof fn law_tree_stays_below(rel: Seq<Seq<char>>, t: Shown, i: int)
    requires
        0 <= i < files(rel, t).len(),
    ensures
        rel.is_prefix_of(files(rel, t)[i]),
    decreases t, rank(t),
{
    match t {
        Shown::File => {
            assert(rel =~= rel.subrange(0, rel.len() as int));
        },
        Shown::Dir(v) => {
            lemma_below(rel, t, v@.len() as int, i);
        },
    }
}

proof fn lemma_below(rel: Seq<Seq<char>>, t: Shown, n: int, i: int)
    requires
        0 <= i < files_below(rel, t, n).len(),
    ensures
        rel.is_prefix_of(files_below(rel, t, n)[i]),
    decreases t, n,
{
    if let Shown::Dir(v) = t {
        if 0 < n <= v@.len() {
            let a = files_below(rel, t, n - 1);
            let child = rel.push(v@[n - 1].0@);
            if i < a.len() {
                lemma_below(rel, t, n - 1, i);
            } else {
                law_tree_stays_below(child, v@[n - 1].1, i - a.len());
                let p = files(child, v@[n - 1].1)[i - a.len()];
                assert(files_below(rel, t, n)[i] == p);
                assert(child =~= p.subrange(0, child.len() as int));
                assert(rel =~= child.subrange(0, rel.len() as int));
                assert(rel =~= p.subrange(0, rel.len() as int));
            }
        }
    }
}

/// `x` is shown in `t` at this path.
pub open spec fn shows(t: Shown, path: Seq<Seq<char>>, x: Shown) -> bool
    decreases path.len(),
{
    if path.len() == 0 {
        t == x
    } else {
        t is Dir && exists|k: int|
            0 <= k < t->Dir_0@.len() && (#[trigger] t->Dir_0@[k]).0@ == path[0] && shows(
                t->Dir_0@[k].1,
                path.skip(1),
                x,
            )
    }
}

/// Copying a tree copies nothing but what it shows: each path that is copied is
/// that of a file below the path, and each that is made that of a directory, which
/// is made after the one it lies in.
pub proof fn law_tree_is_exact(rel: Seq<Seq<char>>, t: Shown)
    ensures
        forall|i: int|
            0 <= i < files(rel, t).len() ==> rel.is_prefix_of(#[trigger] files(rel, t)[i]) && shows(
                t,
                files(rel, t)[i].skip(rel.len() as int),
                Shown::File,
            ),
        forall|i: int|
            0 <= i < dirs(rel, t).len() ==> rel.is_prefix_of(#[trigger] dirs(rel, t)[i]) && exists|
                x: Shown,
            | #[trigger]
                shows(t, dirs(rel, t)[i].skip(rel.len() as int), x) && x is Dir,
        forall|i: int|
            0 < i < dirs(rel, t).len() ==> exists|j: int|
                0 <= j < i && #[trigger] dirs(rel, t)[j] == (#[trigger] dirs(rel, t)[i]).drop_last(),
        dirs(rel, t).len() > 0 ==> dirs(rel, t)[0] == rel,
{
    assert forall|i: int| 0 <= i < files(rel, t).len() implies rel.is_prefix_of(
        #[trigger] files(rel, t)[i],
    ) && shows(t, files(rel, t)[i].skip(rel.len() as int), Shown::File) by {
        lemma_file_of(rel, t, i);
    }
    assert forall|i: int| 0 <= i < dirs(rel, t).len() implies rel.is_prefix_of(
        #[trigger] dirs(rel, t)[i],
    ) && exists|x: Shown| #[trigger]
        shows(t, dirs(rel, t)[i].skip(rel.len() as int), x) && x is Dir by {
        lemma_dir_of(rel, t, i);
    }
    assert forall|i: int| 0 < i < dirs(rel, t).len() implies exists|j: int|
        0 <= j < i && #[trigger] dirs(rel, t)[j] == (#[trigger] dirs(rel, t)[i]).drop_last() by {
        lemma_dir_of(rel, t, i);
    }
    if dirs(rel, t).len() > 0 {
        lemma_dir_of(rel, t, 0);
    }
}

proof fn lemma_shown_below(rel: Seq<Seq<char>>, t: Shown, k: int, p: Seq<Seq<char>>, x: Shown)
    requires
        t is Dir,
        0 <= k < t->Dir_0@.len(),
        rel.push(t->Dir_0@[k].0@).is_prefix_of(p),
        shows(t->Dir_0@[k].1, p.skip(rel.len() as int + 1), x),
    ensures
        rel.is_prefix_of(p),
        p.len() > rel.len(),
        shows(t, p.skip(rel.len() as int), x),
{
    let child = rel.push(t->Dir_0@[k].0@);
    let below = p.skip(rel.len() as int);
    assert(child =~= p.subrange(0, child.len() as int));
    assert(rel =~= p.subrange(0, rel.len() as int));
    assert(p[rel.len() as int] == child[rel.len() as int]);
    assert(below.skip(1) =~= p.skip(child.len() as int));
    assert(below[0] == t->Dir_0@[k].0@);
    assert(t->Dir_0@[k].0@ == below[0]);
}

proof fn lemma_file_of(rel: Seq<Seq<char>>, t: Shown, i: int)
    requires
        0 <= i < files(rel, t).len(),
    ensures
        rel.is_prefix_of(files(rel, t)[i]),
        shows(t, files(rel, t)[i].skip(rel.len() as int), Shown::File),
    decreases t, rank(t),
{
    match t {
        Shown::File => {
            assert(rel.subrange(0, rel.len() as int) =~= rel);
            assert(rel.skip(rel.len() as int) =~= Seq::<Seq<char>>::empty());
        },
        Shown::Dir(v) => {
            lemma_file_below(rel, t, v@.len() as int, i);
        },
    }
}

proof fn lemma_file_below(rel: Seq<Seq<char>>, t: Shown, n: int, i: int)
    requires
        0 <= i < files_below(rel, t, n).len(),
    ensures
        rel.is_prefix_of(files_below(rel, t, n)[i]),
        shows(t, files_below(rel, t, n)[i].skip(rel.len() as int), Shown::File),
    decreases t, n,
{
    if let Shown::Dir(v) = t {
        if 0 < n <= v@.len() {
            let a = files_below(rel, t, n - 1);
            let b = files_below(rel, t, n);
            if i < a.len() {
                lemma_file_below(rel, t, n - 1, i);
                assert(b[i] == a[i]);
            } else {
                let child = rel.push(v@[n - 1].0@);
                lemma_file_of(child, v@[n - 1].1, i - a.len());
                assert(b[i] == files(child, v@[n - 1].1)[i - a.len()]);
                lemma_shown_below(rel, t, n - 1, b[i], Shown::File);
            }
        }
    }
}

proof fn lemma_dir_of(rel: Seq<Seq<char>>, t: Shown, i: int)
    requires
        0 <= i < dirs(rel, t).len(),
    ensures
        rel.is_prefix_of(dirs(rel, t)[i]),
        exists|x: Shown| #[trigger]
            shows(t, dirs(rel, t)[i].skip(rel.len() as int), x) && x is Dir,
        i == 0 ==> dirs(rel, t)[i] == rel,
        i > 0 ==> exists|j: int|
            0 <= j < i && #[trigger] dirs(rel, t)[j] == dirs(rel, t)[i].drop_last(),
    decreases t, rank(t),
{
    let all = dirs(rel, t);
    if let Shown::Dir(v) = t {
        assert(all[0] == rel);
        if i == 0 {
            assert(rel.subrange(0, rel.len() as int) =~= rel);
            assert(rel.skip(rel.len() as int) =~= Seq::<Seq<char>>::empty());
            assert(shows(t, rel.skip(rel.len() as int), t));
        } else {
            let b = dirs_below(rel, t, v@.len() as int);
            assert(all[i] == b[i - 1]);
            lemma_dir_below(rel, t, v@.len() as int, i - 1);
            let q = all[i].drop_last();
            if q == rel {
                assert(all[0] == q);
            } else {
                let j = choose|j: int| 0 <= j < i - 1 && #[trigger] b[j] == q;
                assert(all[j + 1] == q);
            }
        }
    }
}

proof fn lemma_dir_below(rel: Seq<Seq<char>>, t: Shown, n: int, i: int)
    requires
        0 <= i < dirs_below(rel, t, n).len(),
    ensures
        rel.is_prefix_of(dirs_below(rel, t, n)[i]),
        exists|x: Shown| #[trigger]
            shows(t, dirs_below(rel, t, n)[i].skip(rel.len() as int), x) && x is Dir,
        dirs_below(rel, t, n)[i].drop_last() == rel || exists|j: int|
            0 <= j < i && #[trigger] dirs_below(rel, t, n)[j] == dirs_below(
                rel,
                t,
                n,
            )[i].drop_last(),
    decreases t, n,
{
    if let Shown::Dir(v) = t {
        if 0 < n <= v@.len() {
            let a = dirs_below(rel, t, n - 1);
            let b = dirs_below(rel, t, n);
            if i < a.len() {
                lemma_dir_below(rel, t, n - 1, i);
                assert(b[i] == a[i]);
                let q = a[i].drop_last();
                if q != rel {
                    let j = choose|j: int| 0 <= j < i && #[trigger] a[j] == q;
                    assert(b[j] == q);
                }
            } else {
                let child = rel.push(v@[n - 1].0@);
                let c = dirs(child, v@[n - 1].1);
                let m = i - a.len();
                lemma_dir_of(child, v@[n - 1].1, m);
                assert(b[i] == c[m]);
                let x = choose|x: Shown| #[trigger]
                    shows(v@[n - 1].1, c[m].skip(child.len() as int), x) && x is Dir;
                lemma_shown_below(rel, t, n - 1, b[i], x);
                if m == 0 {
                    assert(child.drop_last() =~= rel);
                } else {
                    let j = choose|j: int| 0 <= j < m && #[trigger] c[j] == c[m].drop_last();
                    assert(b[a.len() + j] == b[i].drop_last());
                }
            }
        }
    }
}

// ------------------------------------------------------- changing attributes

/// The handle that a request for new attributes names.
#[derive(Clone, Copy, Debug, PartialEq, Eq, Structural)]
pub enum NamedHandle {
    Absent,
    File,
    Other,
}

/// What a request asks to change.
#[derive(Clone, Copy, Debug, PartialEq, Eq, Structural)]
pub struct SetAttr {
    pub mode: Option<u32>,
    pub size: Option<u64>,
    /// The number is that of a known path.
    pub known: bool,
    pub handle: NamedHandle,
}

/// What changing attributes asks for next.
#[derive(Clone, Copy, Debug, PartialEq, Eq, Structural)]
pub enum SetAsk {
    /// Copy the file into the upper layer where it is not there, as far as
    /// that works; then set these permission bits.
    CopyUpForMode(u32),
    /// Give the file in the upper layer these permission bits.
    SetMode(u32),
    /// Cut the file behind the handle to this length.
    TruncateHandle(u64),
    /// Copy the file into the upper layer where it is not there, as far as
    /// that works; then cut it to this length.
    CopyUpForSize(u64),
    /// Cut the file in the upper layer to this length.
    TruncateFile(u64),
    /// Look at the path.
    Look,
    /// Answer with what was found.
    Answer,
    Fail(Errno),
}

/// What comes once nothing is left to change.
pub open spec fn set_look(r: SetAttr) -> SetAsk {
    if r.known {
        SetAsk::Look
    } else {
        SetAsk::Fail(Errno::NoEntry)
    }
}

/// What comes once the permission bits are set.
pub open spec fn set_size(r: SetAttr) -> SetAsk {
    match r.size {
        None => set_look(r),
        Some(n) => match r.handle {
            NamedHandle::File => SetAsk::TruncateHandle(n),
            NamedHandle::Other => set_look(r),
            NamedHandle::Absent => if r.known {
                SetAsk::CopyUpForSize(n)
            } else {
                set_look(r)
            },
        },
    }
}

/// The first step of changing attributes.
pub open spec fn set_first(r: SetAttr) -> SetAsk {
    match r.mode {
        Some(m) => if r.known {
            SetAsk::CopyUpForMode(perm_bits(m))
        } else {
            set_size(r)
        },
        None => set_size(r),
    }
}

/// The step after a step of changing attributes.
pub open spec fn set_next(r: SetAttr, ask: SetAsk, worked: bool) -> SetAsk {
    match ask {
        SetAsk::CopyUpForMode(m) => SetAsk::SetMode(m),
        SetAsk::SetMode(_) => if worked {
            set_size(r)
        } else {
            SetAsk::Fail(Errno::System)
        },
        SetAsk::TruncateHandle(_) => if worked {
            set_look(r)
        } else {
            SetAsk::Fail(Errno::System)
        },
        SetAsk::CopyUpForSize(n) => SetAsk::TruncateFile(n),
        SetAsk::TruncateFile(_) => if worked {
            set_look(r)
        } else {
            SetAsk::Fail(Errno::System)
        },
        SetAsk::Look => if worked {
            SetAsk::Answer
        } else {
            SetAsk::Fail(Errno::NoEntry)
        },
        SetAsk::Answer => SetAsk::Answer,
        SetAsk::Fail(e) => SetAsk::Fail(e),
    }
}

fn step_look(r: SetAttr) -> (s: SetAsk)
    ensures
        s == set_look(r),
{
    if r.known {
        SetAsk::Look
    } else {
        SetAsk::Fail(Errno::NoEntry)
    }
}

fn step_size(r: SetAttr) -> (s: SetAsk)
    ensures
        s == set_size(r),
{
    match r.size {
        None => step_look(r),
        Some(n) => match r.handle {
            NamedHandle::File => SetAsk::TruncateHandle(n),
            NamedHandle::Other => step_look(r),
            NamedHandle::Absent => if r.known {
                SetAsk::CopyUpForSize(n)
            } else {
                step_look(r)
            },
        },
    }
}

/// The first step of changing attributes.
pub fn setattr_start(r: SetAttr) -> (s: SetAsk)
    ensures
        s == set_first(r),
{
    match r.mode {
        Some(m) => if r.known {
            SetAsk::CopyUpForMode(permissions(m))
        } else {
            step_size(r)
        },
        None => step_size(r),
    }
}

/// Changes attributes, one step at a time: the permission bits, and the length.
pub fn setattr(r: SetAttr, ask: SetAsk, worked: bool) -> (s: SetAsk)
    ensures
        s == set_next(r, ask, worked),
{
    match ask {
        SetAsk::CopyUpForMode(m) => SetAsk::SetMode(m),
        SetAsk::SetMode(_) => if worked {
            step_size(r)
        } else {
            SetAsk::Fail(Errno::System)
        },
        SetAsk::TruncateHandle(_) => if worked {
            step_look(r)
        } else {
            SetAsk::Fail(Errno::System)
        },
        SetAsk::CopyUpForSize(n) => SetAsk::TruncateFile(n),
        SetAsk::TruncateFile(_) => if worked {
            step_look(r)
        } else {
            SetAsk::Fail(Errno::System)
        },
        SetAsk::Look => if worked {
            SetAsk::Answer
        } else {
            SetAsk::Fail(Errno::NoEntry)
        },
        SetAsk::Answer => SetAsk::Answer,
        SetAsk::Fail(e) => SetAsk::Fail(e),
    }
}

/// The steps of changing attributes, with what came of each.
pub open spec fn set_trace(r: SetAttr, t: Seq<(SetAsk, bool)>) -> bool {
    &&& t.len() > 0 ==> t[0].0 == set_first(r)
    &&& forall|i: int|
        0 <= i && i + 1 < t.len() ==> (#[trigger] t[i + 1]).0 == set_next(r, t[i].0, t[i].1)
}

/// A file is only ever changed by its path in the upper layer, and right after
/// its copy there was asked for: a change of permission bits or length does not
/// reach the host directory.
pub proof fn law_changes_are_copied_up(r: SetAttr, t: Seq<(SetAsk, bool)>, i: int)
    requires
        set_trace(r, t),
        0 <= i < t.len(),
    ensures
        t[i].0 matches SetAsk::SetMode(m) ==> i > 0 && t[i - 1].0 == SetAsk::CopyUpForMode(m)
            && r.mode is Some && m == perm_bits(r.mode->0),
        t[i].0 matches SetAsk::TruncateFile(n) ==> i > 0 && t[i - 1].0 == SetAsk::CopyUpForSize(n)
            && r.size == Some(n),
        t[i].0 matches SetAsk::CopyUpForSize(n) ==> r.size == Some(n),
        t[i].0 matches SetAsk::CopyUpForMode(m) ==> i == 0,
    decreases i,
{
    if i > 0 {
        law_changes_are_copied_up(r, t, i - 1);
        assert(t[i - 1 + 1].0 == set_next(r, t[i - 1].0, t[i - 1].1));
    }
}

/// How far a change of attributes has come.
spec fn set_stage(ask: SetAsk) -> int {
    match ask {
        SetAsk::CopyUpForMode(_) => 0,
        SetAsk::SetMode(_) => 1,
        SetAsk::TruncateHandle(_) => 2,
        SetAsk::CopyUpForSize(_) => 2,
        SetAsk::TruncateFile(_) => 3,
        SetAsk::Look => 4,
        _ => 5,
    }
}

/// A request for new attributes that is answered as done was for a known path
/// and has made every change that it asks for, and no other: permission bits
/// are given to the file in the upper layer, a size without a handle cuts that
/// file to exactly this size, and a size with a file's handle cuts the file
/// behind it. What is answered was looked at.
pub proof fn law_attributes_are_changed(r: SetAttr, t: Seq<(SetAsk, bool)>, i: int)
    requires
        set_trace(r, t),
        0 <= i < t.len(),
    ensures
        t[i].0 is Look || t[i].0 is Answer ==> r.known,
        t[i].0 is Look || t[i].0 is Answer ==> (r.mode matches Some(m) ==> steps::did(
            t,
            i,
            SetAsk::SetMode(m & 0o7777),
            true,
        )),
        t[i].0 is Look || t[i].0 is Answer ==> (r.size matches Some(n) ==> (r.handle is Absent
            ==> steps::did(t, i, SetAsk::TruncateFile(n), true))),
        t[i].0 is Look || t[i].0 is Answer ==> (r.size matches Some(n) ==> (r.handle is File
            ==> steps::did(t, i, SetAsk::TruncateHandle(n), true))),
        t[i].0 is Answer ==> steps::did(t, i, SetAsk::Look, true),
        t[i].0 matches SetAsk::SetMode(m) ==> r.known && r.mode is Some,
        t[i].0 matches SetAsk::TruncateFile(n) ==> r.known && r.size == Some(n)
            && r.handle is Absent,
        t[i].0 matches SetAsk::TruncateHandle(n) ==> r.size == Some(n) && r.handle is File,
{
    lemma_set_so_far(r, t, i);
}

proof fn lemma_set_so_far(r: SetAttr, t: Seq<(SetAsk, bool)>, i: int)
    requires
        set_trace(r, t),
        0 <= i < t.len(),
    ensures
        t[i].0 matches SetAsk::CopyUpForMode(m) ==> i == 0 && r.known && r.mode is Some && m
            == r.mode->0 & 0o7777,
        t[i].0 matches SetAsk::SetMode(m) ==> r.known && r.mode is Some && m == r.mode->0 & 0o7777,
        t[i].0 matches SetAsk::CopyUpForSize(n) ==> r.known && r.size == Some(n)
            && r.handle is Absent,
        t[i].0 matches SetAsk::TruncateFile(n) ==> r.known && r.size == Some(n)
            && r.handle is Absent,
        t[i].0 matches SetAsk::TruncateHandle(n) ==> r.size == Some(n) && r.handle is File,
        !(t[i].0 is CopyUpForMode) && !(t[i].0 is SetMode) && !(t[i].0 is Fail) && r.known ==> (
        r.mode matches Some(m) ==> steps::did(t, i, SetAsk::SetMode(m & 0o7777), true)),
        t[i].0 is Look || t[i].0 is Answer ==> r.known && (r.size matches Some(n) ==> match r.handle {
            NamedHandle::Absent => steps::did(t, i, SetAsk::TruncateFile(n), true),
            NamedHandle::File => steps::did(t, i, SetAsk::TruncateHandle(n), true),
            NamedHandle::Other => true,
        }),
        t[i].0 is Answer ==> steps::did(t, i, SetAsk::Look, true),
    decreases i,
{
    if i > 0 {
        lemma_set_so_far(r, t, i - 1);
        assert(t[i - 1 + 1].0 == set_next(r, t[i - 1].0, t[i - 1].1));
        assert(t[i - 1] == (t[i - 1].0, t[i - 1].1));
    }
}

/// A change of attributes that fails does so for a reason: the system refused
/// the change, which is then passed on, or the path is not known, or was not
/// there when it was looked at. Where the path is known and every step works, it
/// is answered as done within six steps.
pub proof fn law_attributes_fail_for_a_reason(r: SetAttr, t: Seq<(SetAsk, bool)>, i: int)
    requires
        set_trace(r, t),
        0 <= i < t.len(),
    ensures
        t[i].0 matches SetAsk::Fail(e) ==> (e is System && exists|j: int|
            0 <= j < i && !(#[trigger] t[j]).1 && (t[j].0 is SetMode || t[j].0 is TruncateFile
                || t[j].0 is TruncateHandle)) || (e is NoEntry && (!r.known || steps::did(
            t,
            i,
            SetAsk::Look,
            false,
        ))),
        r.known && steps::always(t, i, true) ==> !(t[i].0 is Fail),
        i >= 5 ==> t[i].0 is Answer || t[i].0 is Fail,
        !r.known && t[i].0 == SetAsk::Fail(Errno::NoEntry) ==> (r.size matches Some(n) ==> (
        r.handle is File ==> steps::did(t, i, SetAsk::TruncateHandle(n), true))),
    decreases i,
{
    lemma_set_stage(r, t, i);
    lemma_set_so_far(r, t, i);
    if i > 0 {
        lemma_set_so_far(r, t, i - 1);
        law_attributes_fail_for_a_reason(r, t, i - 1);
        assert(t[i - 1 + 1].0 == set_next(r, t[i - 1].0, t[i - 1].1));
        assert(t[i - 1] == (t[i - 1].0, t[i - 1].1));
        if t[i].0 is Fail && t[i - 1].0 is Fail && t[i - 1].0->Fail_0 is System {
            let j = choose|j: int|
                0 <= j < i - 1 && !(#[trigger] t[j]).1 && (t[j].0 is SetMode || t[j].0 is TruncateFile
                    || t[j].0 is TruncateHandle);
            assert(!t[j].1);
        }
        if steps::always(t, i, true) {
            assert(steps::always(t, i - 1, true));
            assert(t[i - 1].1);
        }
    }
}

proof fn lemma_set_stage(r: SetAttr, t: Seq<(SetAsk, bool)>, i: int)
    requires
        set_trace(r, t),
        0 <= i < t.len(),
    ensures
        set_stage(t[i].0) >= i || set_stage(t[i].0) == 5,
    decreases i,
{
    if i > 0 {
        lemma_set_stage(r, t, i - 1);
        assert(t[i - 1 + 1].0 == set_next(r, t[i - 1].0, t[i - 1].1));
    }
}

/// The answer to a request for the target of a link.
pub fn readlink(known: bool, place: Place, is_link: bool) -> (r: Option<Errno>)
    ensures
        r == if !known || place is Nowhere {
            Some(Errno::NoEntry)
        } else if !is_link {
            Some(Errno::Invalid)
        } else {
            None
        },
{
    if !known {
        return Some(Errno::NoEntry);
    }
    match place {
        Place::Nowhere => Some(Errno::NoEntry),
        _ => if is_link {
            None
        } else {
            Some(Errno::Invalid)
        },
    }
}

/// What the view says of the volume it is on: a fixed size.
#[derive(Clone, Copy, Debug, PartialEq, Eq, Structural)]
pub struct VolumeStat {
    pub blocks: u64,
    pub free: u64,
    pub available: u64,
    pub files: u64,
    pub free_files: u64,
    pub block_size: u32,
    pub name_length: u32,
    pub fragment_size: u32,
}

/// What the view says of the volume it is on.
pub fn statfs() -> (r: VolumeStat)
    ensures
        r.blocks == 0x4000_0000,
        r.free == 0x2000_0000,
        r.available == 0x2000_0000,
        r.files == 0x10_0000,
        r.free_files == 0x10_0000,
        r.block_size == 4096,
        r.name_length == 255,
        r.fragment_size == 4096,
{
    VolumeStat {
        blocks: 0x4000_0000,
        free: 0x2000_0000,
        available: 0x2000_0000,
        files: 0x10_0000,
        free_files: 0x10_0000,
        block_size: 4096,
        name_length: 255,
        fragment_size: 4096,
    }
}

} // verus!
