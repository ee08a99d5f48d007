//! `fork`: making a worktree over a host directory.

use vstd::prelude::*;
use crate::host::HostOs;
use crate::number;
use crate::number::decimal_text;
use crate::path;
use crate::path::is_within;
use crate::state;
use crate::state::{default_name, sanitize_display, MetaView, Status, WorktreeMeta};
use crate::text;
use crate::text::{cat2, cat3, cat4, cat5, put};

verus! {

/// Where a directory lies with regard to what may be isolated.
#[derive(Clone, Copy, Debug, PartialEq, Eq, Structural)]
pub enum Bounds {
    /// It may be isolated.
    Inside,
    /// It holds the state root, or lies in it.
    HoldsState,
    /// It does not lie in the home directory.
    OutsideHome,
    /// The home directory is not known.
    NoHome,
}

/// Where a directory lies. A directory and the state root must not hold each
/// other. Without `force`, it must lie in the home directory; where that is not
/// known, nothing does.
pub open spec fn bounds(
    os: HostOs,
    target: Seq<char>,
    root: Seq<char>,
    home: Option<Seq<char>>,
    force: bool,
) -> Bounds {
    if path::within(os, target, root) || path::within(os, root, target) {
        Bounds::HoldsState
    } else if force {
        Bounds::Inside
    } else {
        match home {
            None => Bounds::NoHome,
            Some(h) => if path::within(os, target, h) {
                Bounds::Inside
            } else {
                Bounds::OutsideHome
            },
        }
    }
}

/// Where a directory lies. The paths are canonical.
pub fn check_bounds(
    os: HostOs,
    target: &str,
    root: &str,
    home: Option<String>,
    force: bool,
) -> (r: Bounds)
    ensures
        r == bounds(os, target@, root@, text::opt_text(home), force),
{
    if is_within(os, target, root) || is_within(os, root, target) {
        return Bounds::HoldsState;
    }
    if force {
        return Bounds::Inside;
    }
    match home {
        None => Bounds::NoHome,
        Some(h) => if is_within(os, target, h.as_str()) {
            Bounds::Inside
        } else {
            Bounds::OutsideHome
        },
    }
}

/// Why a directory is not isolated.
#[derive(Clone, Copy, Debug, PartialEq, Eq, Structural)]
pub enum ForkRefusal {
    NotFound,
    NotADirectory,
    HoldsState,
    OutsideHome,
    NoHome,
    Mounted,
    /// Nothing could be read: as many entries failed.
    Unreadable(usize),
    /// The system refused, or the name is taken; the error is the result.
    System,
}

/// What `fork` asks for next.
#[derive(Clone, Copy, Debug, PartialEq, Eq, Structural)]
pub enum ForkAsk {
    /// Find the canonical path.
    Canonicalize,
    /// Is it a directory?
    CheckDirectory,
    /// Find the state root.
    OpenState,
    /// Where does it lie?
    CheckBounds,
    /// Is it mounted?
    CheckMounted,
    /// Take the snapshot.
    Scan,
    /// Create the worktree.
    Create,
    /// Report it.
    Report,
    Refuse(ForkRefusal),
}

/// What came of it.
#[derive(Clone, Copy, Debug, PartialEq, Eq, Structural)]
pub enum ForkReply {
    Yes,
    No,
    Lies(Bounds),
    Scanned { entries: usize, warnings: usize },
}

/// The step after a step of `fork`.
pub open spec fn fork_next(ask: ForkAsk, reply: ForkReply) -> ForkAsk {
    match ask {
        ForkAsk::Canonicalize => if reply is Yes {
            ForkAsk::CheckDirectory
        } else {
            ForkAsk::Refuse(ForkRefusal::NotFound)
        },
        ForkAsk::CheckDirectory => if reply is Yes {
            ForkAsk::OpenState
        } else {
            ForkAsk::Refuse(ForkRefusal::NotADirectory)
        },
        ForkAsk::OpenState => if reply is Yes {
            ForkAsk::CheckBounds
        } else {
            ForkAsk::Refuse(ForkRefusal::System)
        },
        ForkAsk::CheckBounds => match reply {
            ForkReply::Lies(Bounds::Inside) => ForkAsk::CheckMounted,
            ForkReply::Lies(Bounds::HoldsState) => ForkAsk::Refuse(ForkRefusal::HoldsState),
            ForkReply::Lies(Bounds::OutsideHome) => ForkAsk::Refuse(ForkRefusal::OutsideHome),
            ForkReply::Lies(Bounds::NoHome) => ForkAsk::Refuse(ForkRefusal::NoHome),
            _ => ForkAsk::Refuse(ForkRefusal::System),
        },
        ForkAsk::CheckMounted => if reply is No {
            ForkAsk::Scan
        } else {
            ForkAsk::Refuse(ForkRefusal::Mounted)
        },
        ForkAsk::Scan => match reply {
            ForkReply::Scanned { entries, warnings } => if entries == 0 && warnings > 0 {
                ForkAsk::Refuse(ForkRefusal::Unreadable(warnings))
            } else {
                ForkAsk::Create
            },
            _ => ForkAsk::Refuse(ForkRefusal::System),
        },
        ForkAsk::Create => if reply is Yes {
            ForkAsk::Report
        } else {
            ForkAsk::Refuse(ForkRefusal::System)
        },
        ForkAsk::Report => ForkAsk::Report,
        ForkAsk::Refuse(e) => ForkAsk::Refuse(e),
    }
}

/// The command `fork`, one step at a time.
pub fn fork(ask: ForkAsk, reply: ForkReply) -> (r: ForkAsk)
    ensures
        r == fork_next(ask, reply),
{
    let yes = match reply {
        ForkReply::Yes => true,
        _ => false,
    };
    match ask {
        ForkAsk::Canonicalize => if yes {
            ForkAsk::CheckDirectory
        } else {
            ForkAsk::Refuse(ForkRefusal::NotFound)
        },
        ForkAsk::CheckDirectory => if yes {
            ForkAsk::OpenState
        } else {
            ForkAsk::Refuse(ForkRefusal::NotADirectory)
        },
        ForkAsk::OpenState => if yes {
            ForkAsk::CheckBounds
        } else {
            ForkAsk::Refuse(ForkRefusal::System)
        },
        ForkAsk::CheckBounds => match reply {
            ForkReply::Lies(b) => match b {
                Bounds::Inside => ForkAsk::CheckMounted,
                Bounds::HoldsState => ForkAsk::Refuse(ForkRefusal::HoldsState),
                Bounds::OutsideHome => ForkAsk::Refuse(ForkRefusal::OutsideHome),
                Bounds::NoHome => ForkAsk::Refuse(ForkRefusal::NoHome),
            },
            _ => ForkAsk::Refuse(ForkRefusal::System),
        },
        ForkAsk::CheckMounted => match reply {
            ForkReply::No => ForkAsk::Scan,
            _ => ForkAsk::Refuse(ForkRefusal::Mounted),
        },
        ForkAsk::Scan => match reply {
            ForkReply::Scanned { entries, warnings } => if entries == 0 && warnings > 0 {
                ForkAsk::Refuse(ForkRefusal::Unreadable(warnings))
            } else {
                ForkAsk::Create
            },
            _ => ForkAsk::Refuse(ForkRefusal::System),
        },
        ForkAsk::Create => if yes {
            ForkAsk::Report
        } else {
            ForkAsk::Refuse(ForkRefusal::System)
        },
        ForkAsk::Report => ForkAsk::Report,
        ForkAsk::Refuse(e) => ForkAsk::Refuse(e),
    }
}

/// The steps of `fork`, with what came of each.
pub open spec fn fork_trace(t: Seq<(ForkAsk, ForkReply)>) -> bool {
    &&& t.len() > 0 ==> t[0].0 is Canonicalize
    &&& forall|i: int|
        0 <= i && i + 1 < t.len() ==> (#[trigger] t[i + 1]).0 == fork_next(t[i].0, t[i].1)
}

/// A worktree is only created over a directory that lies inside the bounds, was
/// not mounted, and whose snapshot is not empty for want of access.
pub proof fn law_fork_keeps_bounds(t: Seq<(ForkAsk, ForkReply)>, i: int)
    requires
        fork_trace(t),
        0 <= i < t.len(),
        t[i].0 is Create,
    ensures
        i == 6,
        t[1] == (ForkAsk::CheckDirectory, ForkReply::Yes),
        t[3] == (ForkAsk::CheckBounds, ForkReply::Lies(Bounds::Inside)),
        t[4] == (ForkAsk::CheckMounted, ForkReply::No),
        t[5].1 matches ForkReply::Scanned { entries, warnings } && (entries > 0 || warnings == 0),
{
    assert(i > 0);
    assert(t[i - 1 + 1].0 == fork_next(t[i - 1].0, t[i - 1].1));
    assert(i - 1 > 0);
    assert(t[i - 2 + 1].0 == fork_next(t[i - 2].0, t[i - 2].1));
    assert(i - 2 > 0);
    assert(t[i - 3 + 1].0 == fork_next(t[i - 3].0, t[i - 3].1));
    assert(i - 3 > 0);
    assert(t[i - 4 + 1].0 == fork_next(t[i - 4].0, t[i - 4].1));
    assert(i - 4 > 0);
    assert(t[i - 5 + 1].0 == fork_next(t[i - 5].0, t[i - 5].1));
    assert(i - 5 > 0);
    assert(t[i - 6 + 1].0 == fork_next(t[i - 6].0, t[i - 6].1));
    if i - 6 > 0 {
        assert(t[i - 7 + 1].0 == fork_next(t[i - 7].0, t[i - 7].1));
    }
}

/// The steps of the command come in one order, each only after the one before it
/// was answered well: the path is found, it is a directory, the state root is
/// found, the directory lies inside the bounds, is not mounted, and is scanned; then
/// the worktree is created, and then it is reported.
pub proof fn law_fork_is_in_order(t: Seq<(ForkAsk, ForkReply)>, i: int)
    requires
        fork_trace(t),
        0 <= i < t.len(),
    ensures
        t[i].0 is Canonicalize <==> i == 0,
        t[i].0 is CheckDirectory ==> i == 1 && t[0].1 is Yes,
        t[i].0 is OpenState ==> i == 2 && t[1] == (ForkAsk::CheckDirectory, ForkReply::Yes),
        t[i].0 is CheckBounds ==> i == 3 && t[2] == (ForkAsk::OpenState, ForkReply::Yes),
        t[i].0 is CheckMounted ==> i == 4 && t[3] == (
            ForkAsk::CheckBounds,
            ForkReply::Lies(Bounds::Inside),
        ),
        t[i].0 is Scan ==> i == 5 && t[4] == (ForkAsk::CheckMounted, ForkReply::No),
        t[i].0 is Create ==> i == 6 && t[5].0 is Scan && (t[5].1 matches ForkReply::Scanned {
            entries,
            warnings,
        } && (entries > 0 || warnings == 0)),
        t[i].0 is Report ==> i >= 7 && t[6] == (ForkAsk::Create, ForkReply::Yes),
        i >= 7 ==> t[i].0 is Report || t[i].0 is Refuse,
    decreases i,
{
    if i > 0 {
        law_fork_is_in_order(t, i - 1);
        assert(t[i - 1 + 1].0 == fork_next(t[i - 1].0, t[i - 1].1));
    }
}

/// The command is refused only for a reason, and for that one; and then it stays
/// refused.
pub proof fn law_fork_is_refused_for_a_reason(t: Seq<(ForkAsk, ForkReply)>, i: int)
    requires
        fork_trace(t),
        0 <= i && i + 1 < t.len(),
    ensures
        t[i].0 is Refuse ==> t[i + 1].0 == t[i].0,
        t[i + 1].0 matches ForkAsk::Refuse(e) ==> t[i].0 == ForkAsk::Refuse(e) || match e {
            ForkRefusal::NotFound => t[i].0 is Canonicalize && !(t[i].1 is Yes),
            ForkRefusal::NotADirectory => t[i].0 is CheckDirectory && !(t[i].1 is Yes),
            ForkRefusal::HoldsState => t[i] == (
                ForkAsk::CheckBounds,
                ForkReply::Lies(Bounds::HoldsState),
            ),
            ForkRefusal::OutsideHome => t[i] == (
                ForkAsk::CheckBounds,
                ForkReply::Lies(Bounds::OutsideHome),
            ),
            ForkRefusal::NoHome => t[i] == (ForkAsk::CheckBounds, ForkReply::Lies(Bounds::NoHome)),
            ForkRefusal::Mounted => t[i].0 is CheckMounted && !(t[i].1 is No),
            ForkRefusal::Unreadable(n) => t[i] == (
                ForkAsk::Scan,
                ForkReply::Scanned { entries: 0, warnings: n },
            ) && n > 0,
            ForkRefusal::System => {
                ||| (t[i].0 is OpenState || t[i].0 is Create) && !(t[i].1 is Yes)
                ||| t[i].0 is CheckBounds && !(t[i].1 is Lies)
                ||| t[i].0 is Scan && !(t[i].1 is Scanned)
            },
        },
{
    assert((t[i + 1]).0 == fork_next(t[i].0, t[i].1));
}

/// What lies inside the bounds lies neither in the state root nor around it, and
/// without `force` it lies in the home directory.
pub proof fn law_bounds(
    os: HostOs,
    target: Seq<char>,
    root: Seq<char>,
    home: Option<Seq<char>>,
    force: bool,
)
    requires
        bounds(os, target, root, home, force) is Inside,
    ensures
        !path::within(os, target, root),
        !path::within(os, root, target),
        !force ==> home is Some && path::within(os, target, home->0),
{
}

/// Where a directory lies is told exactly: it holds the state root or lies in it,
/// whatever else holds; or else, without `force`, the home directory is not known,
/// or it is and the directory does not lie in it; or else the directory may be
/// isolated.
pub proof fn law_bounds_are_told(
    os: HostOs,
    target: Seq<char>,
    root: Seq<char>,
    home: Option<Seq<char>>,
    force: bool,
)
    ensures
        bounds(os, target, root, home, force) is HoldsState <==> path::within(os, target, root)
            || path::within(os, root, target),
        bounds(os, target, root, home, force) is NoHome <==> !path::within(os, target, root)
            && !path::within(os, root, target) && !force && home is None,
        bounds(os, target, root, home, force) is OutsideHome <==> !path::within(os, target, root)
            && !path::within(os, root, target) && !force && home is Some && !path::within(
            os,
            target,
            home->0,
        ),
        bounds(os, target, root, home, force) is Inside <==> !path::within(os, target, root)
            && !path::within(os, root, target) && (force || (home is Some && path::within(
            os,
            target,
            home->0,
        ))),
{
}

/// The metadata of a new worktree: ready, and named after its target where no
/// name is given.
pub fn new_meta(
    os: HostOs,
    id: &str,
    name: Option<String>,
    target: &str,
    epoch: u64,
    backend: &str,
) -> (r: WorktreeMeta)
    ensures
        r@ == (MetaView {
            id: id@,
            name: match name {
                Some(n) => Some(n@),
                None => Some(state::slug(os, target@)),
            },
            target: target@,
            created_epoch: epoch,
            status: Status::Ready,
            backend: backend@,
        }),
{
    let name = match name {
        Some(n) => n,
        None => default_name(os, target),
    };
    WorktreeMeta {
        id: id.to_owned(),
        name: Some(name),
        target: target.to_owned(),
        created_epoch: epoch,
        status: Status::Ready,
        backend: backend.to_owned(),
    }
}

impl ForkRefusal {
    /// The text of the error. Where the target cannot be found, or the system
    /// refuses, `system` is what the system said.
    pub open spec fn text(self, target: Seq<char>, root: Seq<char>, system: Seq<char>) -> Seq<char> {
        match self {
            ForkRefusal::NotFound => "target directory "@ + target + " not found: "@ + system,
            ForkRefusal::NotADirectory => target + " is not a directory"@,
            ForkRefusal::HoldsState => "refusing to isolate "@ + target
                + ": it contains (or is inside) the cowt state root "@ + root,
            ForkRefusal::OutsideHome => "refusing to isolate "@ + target
                + ": only directories under $HOME are supported\n(system directories are out of scope by design; pass --force-path to override)"@,
            ForkRefusal::NoHome => "refusing to isolate "@ + target
                + ": $HOME is not set and --force-path was not given"@,
            ForkRefusal::Mounted => "refusing to fork "@ + target
                + ": it is currently mounted (a `cowt run` in progress or a foreign mount); fork after the run finishes"@,
            ForkRefusal::Unreadable(n) => "cannot fork "@ + target
                + ": the scan found 0 entries with "@ + number::decimal(n as nat)
                + " error(s) (directory unreadable?); fix permissions or drop the directory"@,
            ForkRefusal::System => system,
        }
    }

    /// The text of the error.
    pub fn message(self, target: &str, root: &str, system: &str) -> (r: String)
        ensures
            r@ == self.text(target@, root@, system@),
            r@ == match self {
                ForkRefusal::NotFound => "target directory "@ + target@ + " not found: "@ + system@,
                ForkRefusal::NotADirectory => target@ + " is not a directory"@,
                ForkRefusal::HoldsState => "refusing to isolate "@ + target@
                    + ": it contains (or is inside) the cowt state root "@ + root@,
                ForkRefusal::OutsideHome => "refusing to isolate "@ + target@
                    + ": only directories under $HOME are supported\n(system directories are out of scope by design; pass --force-path to override)"@,
                ForkRefusal::NoHome => "refusing to isolate "@ + target@
                    + ": $HOME is not set and --force-path was not given"@,
                ForkRefusal::Mounted => "refusing to fork "@ + target@
                    + ": it is currently mounted (a `cowt run` in progress or a foreign mount); fork after the run finishes"@,
                ForkRefusal::Unreadable(n) => "cannot fork "@ + target@
                    + ": the scan found 0 entries with "@ + number::decimal(n as nat)
                    + " error(s) (directory unreadable?); fix permissions or drop the directory"@,
                ForkRefusal::System => system@,
            },
    {
        match self {
            ForkRefusal::NotFound => cat4("target directory ", target, " not found: ", system),
            ForkRefusal::NotADirectory => cat2(target, " is not a directory"),
            ForkRefusal::HoldsState => cat4(
                "refusing to isolate ",
                target,
                ": it contains (or is inside) the cowt state root ",
                root,
            ),
            ForkRefusal::OutsideHome => cat3(
                "refusing to isolate ",
                target,
                ": only directories under $HOME are supported\n(system directories are out of scope by design; pass --force-path to override)",
            ),
            ForkRefusal::NoHome => cat3(
                "refusing to isolate ",
                target,
                ": $HOME is not set and --force-path was not given",
            ),
            ForkRefusal::Mounted => cat3(
                "refusing to fork ",
                target,
                ": it is currently mounted (a `cowt run` in progress or a foreign mount); fork after the run finishes",
            ),
            ForkRefusal::Unreadable(n) => {
                let shown = decimal_text(n as u128);
                cat5(
                    "cannot fork ",
                    target,
                    ": the scan found 0 entries with ",
                    shown.as_str(),
                    " error(s) (directory unreadable?); fix permissions or drop the directory",
                )
            },
            ForkRefusal::System => system.to_owned(),
        }
    }
}

/// What a snapshot found.
#[derive(Debug)]
pub struct ScanCounts {
    pub entries: usize,
    pub files: usize,
    pub symlinks: usize,
    /// The entries that were skipped, each with the reason.
    pub warnings: Vec<(String, String)>,
}

/// The lines for the first `n` entries that were skipped.
pub open spec fn skipped_lines(w: Seq<(String, String)>, n: int) -> Seq<Seq<char>>
    decreases n,
{
    if n <= 0 {
        Seq::empty()
    } else {
        skipped_lines(w, n - 1).push(
            "    - "@ + state::shown(w[n - 1].0@) + ": "@ + w[n - 1].1@,
        )
    }
}

/// The lines about entries that were skipped: how many, and the first five.
pub open spec fn warning_lines(w: Seq<(String, String)>) -> Seq<Seq<char>> {
    if w.len() == 0 {
        Seq::empty()
    } else {
        seq!["  warnings: "@ + number::decimal(w.len()) + " entr(y/ies) skipped:"@]
            + skipped_lines(
            w,
            if w.len() < 5 {
                w.len() as int
            } else {
                5
            },
        )
    }
}

/// The report of a new worktree. Times are given as text.
pub open spec fn report_lines(
    meta: MetaView,
    dir: Seq<char>,
    scan: ScanCounts,
    scan_ms: Seq<char>,
    total_ms: Seq<char>,
) -> Seq<Seq<char>> {
    let first = seq!["forked worktree "@ + meta.id];
    let name = match meta.name {
        Some(n) => seq!["  name:    "@ + state::shown(n)],
        None => Seq::empty(),
    };
    let middle = seq![
        "  target:  "@ + state::shown(meta.target),
        "  backend: "@ + meta.backend,
        "  state:   "@ + state::shown(dir),
        "  base:    "@ + number::decimal(scan.entries as nat) + " entries ("@ + number::decimal(
            scan.files as nat,
        ) + " files) scanned in "@ + scan_ms + "ms"@,
    ];
    let last = seq!["  fork completed in "@ + total_ms + "ms"@];
    first + name + middle + warning_lines(scan.warnings@) + last
}

/// The report of a new worktree.
pub fn fork_report(
    meta: &WorktreeMeta,
    dir: &str,
    scan: &ScanCounts,
    scan_ms: &str,
    total_ms: &str,
) -> (r: Vec<String>)
    ensures
        text::texts(r@) == report_lines(meta@, dir@, *scan, scan_ms@, total_ms@),
{
    let mut out: Vec<String> = Vec::new();
    put(&mut out, cat2("forked worktree ", meta.id.as_str()));
    if let Some(n) = &meta.name {
        let shown = sanitize_display(n.as_str());
        put(&mut out, cat2("  name:    ", shown.as_str()));
    }
    let target = sanitize_display(meta.target.as_str());
    put(&mut out, cat2("  target:  ", target.as_str()));
    put(&mut out, cat2("  backend: ", meta.backend.as_str()));
    let place = sanitize_display(dir);
    put(&mut out, cat2("  state:   ", place.as_str()));
    let entries = decimal_text(scan.entries as u128);
    let files = decimal_text(scan.files as u128);
    put(
        &mut out,
        cat5(
            "  base:    ",
            entries.as_str(),
            " entries (",
            files.as_str(),
            " files) scanned in ",
        ).concat(scan_ms).concat("ms"),
    );
    let ghost head = text::texts(out@);
    let w = &scan.warnings;
    let n: usize = w.len();
    if n > 0 {
        let count = decimal_text(n as u128);
        put(&mut out, cat3("  warnings: ", count.as_str(), " entr(y/ies) skipped:"));
        let most: usize = if n < 5 {
            n
        } else {
            5
        };
        let ghost front = text::texts(out@);
        let mut i: usize = 0;
        assert(text::texts(out@) =~= front + skipped_lines(w@, 0));
        while i < most
            invariant
                i <= most <= w@.len(),
                text::texts(out@) == front + skipped_lines(w@, i as int),
            decreases most - i,
        {
            let p = sanitize_display(w[i].0.as_str());
            put(&mut out, cat4("    - ", p.as_str(), ": ", w[i].1.as_str()));
            i = i + 1;
            assert(text::texts(out@) =~= front + skipped_lines(w@, i as int));
        }
        assert(text::texts(out@) =~= head + warning_lines(w@));
    } else {
        assert(text::texts(out@) =~= head + warning_lines(w@));
    }
    put(&mut out, cat3("  fork completed in ", total_ms, "ms"));
    assert(text::texts(out@) =~= report_lines(meta@, dir@, *scan, scan_ms@, total_ms@));
    out
}

/// The report says what was made: the worktree's id, its name if it has one, its
/// target, its backend, where its state lies, how much was scanned and how long that
/// took, how many entries were skipped, with the first five of them, and how long
/// it took in all.
pub proof fn law_fork_is_reported(
    meta: MetaView,
    dir: Seq<char>,
    scan: ScanCounts,
    scan_ms: Seq<char>,
    total_ms: Seq<char>,
    k: int,
)
    ensures
        ({
            let r = report_lines(meta, dir, scan, scan_ms, total_ms);
            let n: int = if meta.name is Some {
                2
            } else {
                1
            };
            let w = scan.warnings@;
            let most: int = if w.len() < 5 {
                w.len() as int
            } else {
                5
            };
            &&& r[0] == "forked worktree "@ + meta.id
            &&& meta.name matches Some(name) ==> r[1] == "  name:    "@ + state::shown(name)
            &&& r[n] == "  target:  "@ + state::shown(meta.target)
            &&& r[n + 1] == "  backend: "@ + meta.backend
            &&& r[n + 2] == "  state:   "@ + state::shown(dir)
            &&& r[n + 3] == "  base:    "@ + number::decimal(scan.entries as nat) + " entries ("@
                + number::decimal(scan.files as nat) + " files) scanned in "@ + scan_ms + "ms"@
            &&& w.len() > 0 ==> r[n + 4] == "  warnings: "@ + number::decimal(w.len())
                + " entr(y/ies) skipped:"@
            &&& 0 <= k < most ==> r[n + 5 + k] == "    - "@ + state::shown(w[k].0@) + ": "@ + w[k].1@
            &&& r.last() == "  fork completed in "@ + total_ms + "ms"@
            &&& r.len() == n + 5 + (if w.len() > 0 {
                1 + most
            } else {
                0
            })
        }),
{
    let w = scan.warnings@;
    let most: int = if w.len() < 5 {
        w.len() as int
    } else {
        5
    };
    lemma_skipped(w, most, k);
}

proof fn lemma_skipped(w: Seq<(String, String)>, n: int, k: int)
    requires
        0 <= n <= w.len(),
    ensures
        skipped_lines(w, n).len() == n,
        0 <= k < n ==> skipped_lines(w, n)[k] == "    - "@ + state::shown(w[k].0@) + ": "@
            + w[k].1@,
    decreases n,
{
    if n > 0 {
        lemma_skipped(w, n - 1, k);
    }
}

/// The warning for links in a snapshot, if there are any: writes through them
/// are not isolated.
pub fn symlink_warning(symlinks: usize) -> (r: Option<String>)
    ensures
        symlinks == 0 ==> r is None,
        symlinks > 0 ==> (r matches Some(s) && s@ == "cowt: warning: "@ + number::decimal(
            symlinks as nat,
        )
            + " symlink(s) detected — writes through them during `cowt run`\nreach the host target directly (not isolated, invisible to `cowt diff`)"@),
{
    if symlinks == 0 {
        return None;
    }
    let n = decimal_text(symlinks as u128);
    Some(
        cat3(
            "cowt: warning: ",
            n.as_str(),
            " symlink(s) detected — writes through them during `cowt run`\nreach the host target directly (not isolated, invisible to `cowt diff`)",
        ),
    )
}

} // verus!
