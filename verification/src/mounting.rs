//! Putting a merged view in the place of a host directory, and taking it away
//! again.
//!
//! Where the platform has no overlay of its own, the host directory is moved
//! aside to `real` in the worktree's state, the view is mounted at `view`, and
//! a link to the view takes the host directory's place.

use vstd::prelude::*;
use crate::backend::{default_backend, HostBackend, Mode};
use crate::host::HostOs;
use crate::linux;
use crate::path;
use crate::path::{file_name, is_within, join_path, parent, same_path};
use crate::text;
use crate::text::{cat2, cat3, cat4, cat5, same};

verus! {

/// Where a worktree's state keeps the host directory and the view.
#[derive(Debug)]
pub struct Layout {
    pub real: String,
    pub view: String,
}

impl Layout {
    /// The layout of the worktree whose state directory is `dir`.
    pub open spec fn of(self, os: HostOs, dir: Seq<char>) -> bool {
        &&& self.real@ == path::joined(os, dir, "real"@)
        &&& self.view@ == path::joined(os, dir, "view"@)
    }

    /// The layout of the worktree whose layer is `upper`: the layer sits
    /// directly in the worktree's state directory.
    pub fn from_upper(os: HostOs, upper: &str) -> (r: Layout)
        requires
            path::parent_of(os, upper@) is Some,
        ensures
            r.of(os, path::parent_of(os, upper@)->0),
            r.real@ == path::joined(os, path::parent_of(os, upper@)->0, "real"@),
            r.view@ == path::joined(os, path::parent_of(os, upper@)->0, "view"@),
    {
        match parent(os, upper) {
            Some(dir) => Layout::from_state(os, dir.as_str()),
            None => Layout { real: String::new(), view: String::new() },
        }
    }

    /// The layout of the worktree whose state directory is `dir`.
    pub fn from_state(os: HostOs, dir: &str) -> (r: Layout)
        ensures
            r.of(os, dir@),
            r.real@ == path::joined(os, dir@, "real"@),
            r.view@ == path::joined(os, dir@, "view"@),
    {
        Layout { real: join_path(os, dir, "real"), view: join_path(os, dir, "view") }
    }
}

/// What is found at a mountpoint.
#[derive(Clone, Copy, Debug, PartialEq, Eq, Structural)]
pub struct PointProbe {
    /// A symbolic link is there.
    pub is_symlink: bool,
    /// A link or junction is there, and can be read.
    pub link_reads: bool,
    /// A worktree of this target still holds the host directory.
    pub stranded: bool,
}

/// The mountpoint is in use: by an entry in the table of mounts, by a link, or
/// by a run that was killed after it moved the host directory aside and before
/// it made the link.
pub fn is_mounted(
    backend: &HostBackend,
    mounts: Option<String>,
    probe: PointProbe,
    mountpoint: &str,
) -> (r: bool)
    ensures
        r == match backend {
            HostBackend::Overlay(_) => mounts matches Some(m) && linux::mounted_in(
                m@,
                mountpoint@,
            ),
            HostBackend::FuseT(_) => probe.is_symlink || probe.stranded,
            HostBackend::WinFsp(_) => probe.link_reads || probe.stranded,
            HostBackend::Missing(_) => false,
        },
{
    match backend {
        HostBackend::Overlay(_) => linux::is_mounted_proc(mounts, mountpoint),
        HostBackend::FuseT(_) => probe.is_symlink || probe.stranded,
        HostBackend::WinFsp(_) => probe.link_reads || probe.stranded,
        HostBackend::Missing(_) => false,
    }
}

/// The mount is one that this tool can have made. Where the mount is a link,
/// taking it down checks the link itself.
pub fn mount_is_ours(os: HostOs, mounts: Option<String>, target: &str) -> (r: bool)
    ensures
        r == (os == HostOs::Linux ==> (mounts matches Some(m) && linux::ours_in(m@, target@))),
{
    match os {
        HostOs::Linux => linux::mount_is_ours_proc(mounts, target),
        _ => true,
    }
}

/// An entry of the state root and the target in its metadata, where that can
/// be read.
#[derive(Debug)]
pub struct StateEntry {
    pub dir: String,
    pub target: Option<String>,
}

/// The first entry from `i` on whose worktree has this target.
pub open spec fn state_for(
    os: HostOs,
    entries: Seq<StateEntry>,
    mountpoint: Seq<char>,
    i: int,
) -> Option<Seq<char>>
    decreases entries.len() - i,
{
    if i < 0 || i >= entries.len() {
        None
    } else if entries[i].target matches Some(t) && path::comps(os, t@) == path::comps(
        os,
        mountpoint,
    ) {
        Some(entries[i].dir@)
    } else {
        state_for(os, entries, mountpoint, i + 1)
    }
}

/// The state of the worktree that has this target: all that still connects a
/// host directory that was moved aside to its place.
pub fn find_state_for(os: HostOs, entries: &Vec<StateEntry>, mountpoint: &str) -> (r: Option<String>)
    ensures
        text::opt_text(r) == state_for(os, entries@, mountpoint@, 0),
{
    let mut i: usize = 0;
    while i < entries.len()
        invariant
            i <= entries@.len(),
            state_for(os, entries@, mountpoint@, 0) == state_for(os, entries@, mountpoint@, i as int),
        decreases entries@.len() - i,
    {
        if let Some(t) = &entries[i].target {
            if same_path(os, t.as_str(), mountpoint) {
                return Some(entries[i].dir.clone());
            }
        }
        i = i + 1;
    }
    None
}

/// The state that is found for a mountpoint is that of a worktree whose target is
/// that place, and no earlier entry's target is; where none is found, no entry's
/// target is.
pub proof fn law_state_is_found(
    os: HostOs,
    entries: Seq<StateEntry>,
    mountpoint: Seq<char>,
    j: int,
)
    requires
        0 <= j < entries.len(),
    ensures
        state_for(os, entries, mountpoint, 0) is None ==> !(entries[j].target matches Some(t)
            && path::comps(os, t@) == path::comps(os, mountpoint)),
        (entries[j].target matches Some(t) && path::comps(os, t@) == path::comps(os, mountpoint))
            && (forall|k: int|
            0 <= k < j ==> !((#[trigger] entries[k]).target matches Some(t) && path::comps(os, t@)
                == path::comps(os, mountpoint))) ==> state_for(os, entries, mountpoint, 0) == Some(
            entries[j].dir@,
        ),
{
    lemma_state_from(os, entries, mountpoint, 0, j);
}

proof fn lemma_state_from(
    os: HostOs,
    entries: Seq<StateEntry>,
    mountpoint: Seq<char>,
    i: int,
    j: int,
)
    requires
        0 <= i <= j < entries.len(),
    ensures
        state_for(os, entries, mountpoint, i) is None ==> !(entries[j].target matches Some(t)
            && path::comps(os, t@) == path::comps(os, mountpoint)),
        (entries[j].target matches Some(t) && path::comps(os, t@) == path::comps(os, mountpoint))
            && (forall|k: int|
            i <= k < j ==> !((#[trigger] entries[k]).target matches Some(t) && path::comps(os, t@)
                == path::comps(os, mountpoint))) ==> state_for(os, entries, mountpoint, i) == Some(
            entries[j].dir@,
        ),
    decreases j - i,
{
    if i < j {
        lemma_state_from(os, entries, mountpoint, i + 1, j);
        assert(entries[i] == entries[i]);
    }
}

/// What is found next to a view.
#[derive(Clone, Copy, Debug, PartialEq, Eq, Structural)]
pub struct ViewProbe {
    pub meta: bool,
    pub manifest: bool,
    pub upper: bool,
}

/// A link leads to a view of this tool: to something called `view` in the state
/// directory of a worktree below the state root.
pub open spec fn cowt_view(os: HostOs, link: Seq<char>, root: Seq<char>, probe: ViewProbe) -> bool {
    let dir = match path::parent_of(os, link) {
        Some(p) => p,
        None => Seq::empty(),
    };
    &&& path::name_of(os, link) == Some("view"@)
    &&& path::within(os, dir, root)
    &&& probe.meta || probe.manifest || probe.upper
}

/// A link leads to a view of this tool.
pub fn is_cowt_view(os: HostOs, link: &str, root: &str, probe: ViewProbe) -> (r: bool)
    ensures
        r == cowt_view(os, link@, root@, probe),
        r ==> path::name_of(os, link@) == Some("view"@) && (probe.meta || probe.manifest
            || probe.upper),
        r ==> match path::parent_of(os, link@) {
            Some(dir) => path::within(os, dir, root@),
            None => path::within(os, Seq::<char>::empty(), root@),
        },
{
    let named = match file_name(os, link) {
        Some(n) => same(n.as_str(), "view"),
        None => false,
    };
    if !named {
        return false;
    }
    let dir = match parent(os, link) {
        Some(p) => p,
        None => String::new(),
    };
    is_within(os, dir.as_str(), root) && (probe.meta || probe.manifest || probe.upper)
}

/// A junction leads to a view of this tool: to something called `view`.
pub fn is_view_name(os: HostOs, link: &str) -> (r: bool)
    ensures
        r == (path::name_of(os, link@) == Some("view"@)),
{
    match file_name(os, link) {
        Some(n) => same(n.as_str(), "view"),
        None => false,
    }
}

/// The names of the layer and of the view are single components.
proof fn lemma_fixed_names(os: HostOs)
    ensures
        path::single_component(os, "upper"@),
        path::single_component(os, "view"@),
{
    reveal_strlit("upper");
    reveal_strlit("view");
}

/// The layout that is found from a worktree's layer is that of the worktree's
/// state directory: the layer's parent is that directory.
pub proof fn law_layout_is_found(os: HostOs, dir: Seq<char>)
    requires
        path::whole(os, dir),
    ensures
        path::parent_of(os, path::joined(os, dir, "upper"@)) matches Some(d) && path::comps(os, d)
            == path::comps(os, dir),
{
    let upper = path::joined(os, dir, "upper"@);
    lemma_fixed_names(os);
    path::lemma_join_component(os, dir, "upper"@);
    path::law_parent(os, upper);
    let c = path::comps(os, dir);
    let n = path::Part::Name("upper"@);
    assert(c.push(n).last() == n);
    assert(c.push(n).drop_last() =~= c);
    assert(c.len() == 0 ==> c.push(n)[0] == n);
}

/// A link to the view of a worktree of this state root is known as one.
pub proof fn law_own_view_is_known(
    os: HostOs,
    root: Seq<char>,
    dir: Seq<char>,
    probe: ViewProbe,
)
    requires
        path::whole(os, dir),
        path::within(os, dir, root),
        probe.meta || probe.manifest || probe.upper,
    ensures
        cowt_view(os, path::joined(os, dir, "view"@), root, probe),
{
    let view = path::joined(os, dir, "view"@);
    lemma_fixed_names(os);
    path::lemma_join_component(os, dir, "view"@);
    path::law_parent(os, view);
    let c = path::comps(os, dir);
    let n = path::Part::Name("view"@);
    assert(c.push(n).last() == n);
    assert(c.push(n).drop_last() =~= c);
    assert(c.len() == 0 ==> c.push(n)[0] == n);
}

/// What came of a step.
#[derive(Clone, Copy, Debug, PartialEq, Eq, Structural)]
pub enum Reply {
    /// It is so; it worked.
    Yes,
    /// It is not so; it failed.
    No,
    /// It failed because the two places are on different volumes.
    Crosses,
}

// ------------------------------------------------------------------ restore

/// What stands at a mountpoint.
#[derive(Clone, Copy, Debug, PartialEq, Eq, Structural)]
pub enum Standing {
    Nothing,
    Directory,
    Other,
}

/// What putting a host directory back asks for next.
#[derive(Clone, Copy, Debug, PartialEq, Eq, Structural)]
pub enum RestoreAsk {
    /// Remove the directory at the mountpoint if it is empty, then move back.
    RemoveEmptyDir,
    /// Move the host directory back.
    MoveBack,
    /// The host directory was not moved aside, or is back already.
    Done,
    /// Something that is not a directory is in the way.
    Refuse,
}

/// How to put the host directory back. A file or link in its place is never
/// removed, nor is a directory that holds something: the removal is one that
/// only works on an empty directory.
pub fn restore(real_exists: bool, at_target: Standing) -> (r: RestoreAsk)
    ensures
        r == if !real_exists {
            RestoreAsk::Done
        } else {
            match at_target {
                Standing::Nothing => RestoreAsk::MoveBack,
                Standing::Directory => RestoreAsk::RemoveEmptyDir,
                Standing::Other => RestoreAsk::Refuse,
            }
        },
{
    if !real_exists {
        return RestoreAsk::Done;
    }
    match at_target {
        Standing::Nothing => RestoreAsk::MoveBack,
        Standing::Directory => RestoreAsk::RemoveEmptyDir,
        Standing::Other => RestoreAsk::Refuse,
    }
}

/// The error where something is in the way of a host directory.
pub fn restore_refused(mountpoint: &str) -> (r: String)
    ensures
        r@ == mountpoint@ + " exists and is not a directory; refusing to restore"@,
{
    cat2(mountpoint, " exists and is not a directory; refusing to restore")
}

/// The context of an error in moving a host directory back.
pub fn restore_context(mountpoint: &str, aside: &str) -> (r: String)
    ensures
        r@ == "restore "@ + mountpoint@ + " from "@ + aside@,
{
    cat4("restore ", mountpoint, " from ", aside)
}

// -------------------------------------------------------------------- mount

/// Why a view was not put in place.
#[derive(Clone, Copy, Debug, PartialEq, Eq, Structural)]
pub enum MountError {
    /// The platform's filesystem runtime does not work.
    Unavailable,
    /// A link is in the place of the host directory, and the worktree does not
    /// hold that directory.
    ForeignLink,
    /// A host directory that an earlier run left aside could not be put back.
    StaleRestore,
    /// The host directory could not be moved aside.
    MoveAside,
    /// It is on another volume than the worktree's state.
    CrossesVolumes,
    /// The directory for the view could not be made.
    MakeView,
    /// The link could not be made.
    MakeLink,
    /// The view could not be mounted.
    MountView,
}

/// What putting a view in place asks for next.
#[derive(Clone, Copy, Debug, PartialEq, Eq, Structural)]
pub enum MountAsk {
    /// Does the filesystem runtime work?
    Check,
    /// Is a link at the mountpoint?
    ProbeLink,
    /// Does the worktree hold a host directory that was moved aside?
    ProbeReal,
    /// Put that directory back.
    RestoreStale,
    /// Remove the directory for the view, as far as that works.
    ClearView,
    /// Move the host directory aside.
    MoveAside,
    /// Make the directory for the view.
    MakeView,
    /// Make the link to the view.
    MakeLink,
    /// Mount the view and start serving it.
    MountView,
    /// The view is in place.
    Mounted,
    /// Remove the link, if there is one, as far as that works.
    Unlink(MountError),
    /// Put the host directory back.
    RestoreBack(MountError),
    /// No view is in place.
    Stop(MountError),
}

/// The step after a step of putting a view in place.
pub open spec fn mount_next(ask: MountAsk, reply: Reply) -> MountAsk {
    match ask {
        MountAsk::Check => if reply is Yes {
            MountAsk::ProbeLink
        } else {
            MountAsk::Stop(MountError::Unavailable)
        },
        MountAsk::ProbeLink => if reply is Yes {
            MountAsk::ProbeReal
        } else {
            MountAsk::ClearView
        },
        MountAsk::ProbeReal => if reply is Yes {
            MountAsk::RestoreStale
        } else {
            MountAsk::Stop(MountError::ForeignLink)
        },
        MountAsk::RestoreStale => if reply is Yes {
            MountAsk::ClearView
        } else {
            MountAsk::Stop(MountError::StaleRestore)
        },
        MountAsk::ClearView => MountAsk::MoveAside,
        MountAsk::MoveAside => match reply {
            Reply::Yes => MountAsk::MakeView,
            Reply::No => MountAsk::Stop(MountError::MoveAside),
            Reply::Crosses => MountAsk::Stop(MountError::CrossesVolumes),
        },
        MountAsk::MakeView => if reply is Yes {
            MountAsk::MakeLink
        } else {
            MountAsk::Unlink(MountError::MakeView)
        },
        MountAsk::MakeLink => if reply is Yes {
            MountAsk::MountView
        } else {
            MountAsk::Unlink(MountError::MakeLink)
        },
        MountAsk::MountView => if reply is Yes {
            MountAsk::Mounted
        } else {
            MountAsk::Unlink(MountError::MountView)
        },
        MountAsk::Mounted => MountAsk::Mounted,
        MountAsk::Unlink(e) => MountAsk::RestoreBack(e),
        MountAsk::RestoreBack(e) => MountAsk::Stop(e),
        MountAsk::Stop(e) => MountAsk::Stop(e),
    }
}

/// Puts a view in the place of a host directory, one step at a time. Once the
/// host directory is moved aside, every failure puts it back.
pub fn mount(ask: MountAsk, reply: Reply) -> (r: MountAsk)
    ensures
        r == mount_next(ask, reply),
{
    let yes = match reply {
        Reply::Yes => true,
        _ => false,
    };
    match ask {
        MountAsk::Check => if yes {
            MountAsk::ProbeLink
        } else {
            MountAsk::Stop(MountError::Unavailable)
        },
        MountAsk::ProbeLink => if yes {
            MountAsk::ProbeReal
        } else {
            MountAsk::ClearView
        },
        MountAsk::ProbeReal => if yes {
            MountAsk::RestoreStale
        } else {
            MountAsk::Stop(MountError::ForeignLink)
        },
        MountAsk::RestoreStale => if yes {
            MountAsk::ClearView
        } else {
            MountAsk::Stop(MountError::StaleRestore)
        },
        MountAsk::ClearView => MountAsk::MoveAside,
        MountAsk::MoveAside => match reply {
            Reply::Yes => MountAsk::MakeView,
            Reply::No => MountAsk::Stop(MountError::MoveAside),
            Reply::Crosses => MountAsk::Stop(MountError::CrossesVolumes),
        },
        MountAsk::MakeView => if yes {
            MountAsk::MakeLink
        } else {
            MountAsk::Unlink(MountError::MakeView)
        },
        MountAsk::MakeLink => if yes {
            MountAsk::MountView
        } else {
            MountAsk::Unlink(MountError::MakeLink)
        },
        MountAsk::MountView => if yes {
            MountAsk::Mounted
        } else {
            MountAsk::Unlink(MountError::MountView)
        },
        MountAsk::Mounted => MountAsk::Mounted,
        MountAsk::Unlink(e) => MountAsk::RestoreBack(e),
        MountAsk::RestoreBack(e) => MountAsk::Stop(e),
        MountAsk::Stop(e) => MountAsk::Stop(e),
    }
}

/// The steps of putting a view in place, with what came of each.
pub open spec fn mount_trace(t: Seq<(MountAsk, Reply)>) -> bool {
    &&& t.len() > 0 ==> t[0].0 is Check
    &&& forall|i: int|
        0 <= i && i + 1 < t.len() ==> (#[trigger] t[i + 1]).0 == mount_next(t[i].0, t[i].1)
}

/// The host directory is moved aside at most once, and when that has happened
/// the attempt is either still under way, or the view is in place, or putting
/// the host directory back was asked for: no failure leaves it stranded
/// without an attempt to put it back.
pub proof fn law_host_directory_is_put_back(t: Seq<(MountAsk, Reply)>, i: int, k: int)
    requires
        mount_trace(t),
        0 <= i < k < t.len(),
        t[i] == (MountAsk::MoveAside, Reply::Yes),
    ensures
        !(t[k].0 is MoveAside),
        t[k].0 is Stop ==> exists|j: int| i < j < k && (#[trigger] t[j]).0 is RestoreBack,
        t[k].0 is MakeView || t[k].0 is MakeLink || t[k].0 is MountView || t[k].0 is Mounted
            || t[k].0 is Unlink || t[k].0 is RestoreBack || t[k].0 is Stop,
    decreases k - i,
{
    assert(t[k - 1 + 1].0 == mount_next(t[k - 1].0, t[k - 1].1));
    if k > i + 1 {
        law_host_directory_is_put_back(t, i, k - 1);
        if t[k].0 is Stop && t[k - 1].0 is RestoreBack {
            assert(i < k - 1 < k && t[k - 1].0 is RestoreBack);
        }
    }
}

/// A link that is found in the place of the host directory is only passed over
/// where the worktree holds that directory: a foreign link is never touched.
pub proof fn law_foreign_link_stops(t: Seq<(MountAsk, Reply)>, i: int, k: int)
    requires
        mount_trace(t),
        0 <= i < k < t.len(),
        t[i] == (MountAsk::ProbeLink, Reply::Yes),
        t[k].0 is MoveAside,
    ensures
        i + 2 < k,
        t[i + 1] == (MountAsk::ProbeReal, Reply::Yes),
        t[i + 2] == (MountAsk::RestoreStale, Reply::Yes),
{
    assert(t[i + 1].0 is ProbeReal);
    if t[i + 1].1 is Yes {
        if i + 2 < t.len() {
            assert(t[i + 1 + 1].0 is RestoreStale);
            if !(t[i + 2].1 is Yes) && i + 3 < t.len() {
                assert(t[i + 2 + 1].0 is Stop);
                lemma_stop_stays(t, i + 3, k);
            }
        }
    } else if i + 2 < t.len() {
        assert(t[i + 1 + 1].0 is Stop);
        lemma_stop_stays(t, i + 2, k);
    }
}

proof fn lemma_stop_stays(t: Seq<(MountAsk, Reply)>, i: int, k: int)
    requires
        mount_trace(t),
        0 <= i < t.len(),
        k < t.len(),
        t[i].0 is Stop,
    ensures
        i <= k ==> t[k].0 is Stop,
    decreases k - i,
{
    if i < k {
        lemma_stop_stays(t, i, k - 1);
        assert(t[k - 1 + 1].0 == mount_next(t[k - 1].0, t[k - 1].1));
    }
}

/// Each step of putting a view in place has its cause in what was found before it,
/// and what cannot be undone is not begun: the host directory is moved aside
/// only after the filesystem runtime was found to work, and what stood at the
/// mountpoint was no link, or one whose host directory was put back first. What
/// fails after that is undone, and the reason is the step that failed.
pub proof fn law_mount_steps_have_a_cause(t: Seq<(MountAsk, Reply)>, i: int)
    requires
        mount_trace(t),
        0 <= i < t.len(),
    ensures
        t[i].0 is Check <==> i == 0,
        t[i].0 is ProbeLink ==> i == 1 && t[0].1 is Yes,
        t[i].0 is ProbeReal ==> i == 2 && t[1] == (MountAsk::ProbeLink, Reply::Yes),
        t[i].0 is RestoreStale ==> i == 3 && t[2] == (MountAsk::ProbeReal, Reply::Yes),
        t[i].0 is ClearView ==> (i == 2 && t[1].0 is ProbeLink && !(t[1].1 is Yes)) || (i == 4 && t[3]
            == (MountAsk::RestoreStale, Reply::Yes)),
        t[i].0 is MoveAside ==> t[i - 1].0 is ClearView,
        t[i].0 is MakeView ==> t[i - 1] == (MountAsk::MoveAside, Reply::Yes),
        t[i].0 is MakeLink ==> t[i - 1] == (MountAsk::MakeView, Reply::Yes),
        t[i].0 is MountView ==> t[i - 1] == (MountAsk::MakeLink, Reply::Yes),
        t[i].0 is Mounted ==> t[i - 1].0 is Mounted || t[i - 1] == (MountAsk::MountView, Reply::Yes),
        t[i].0 matches MountAsk::Unlink(e) ==> !(t[i - 1].1 is Yes) && match e {
            MountError::MakeView => t[i - 1].0 is MakeView,
            MountError::MakeLink => t[i - 1].0 is MakeLink,
            MountError::MountView => t[i - 1].0 is MountView,
            _ => false,
        },
        t[i].0 matches MountAsk::RestoreBack(e) ==> t[i - 1].0 == MountAsk::Unlink(e) && (
        e is MakeView || e is MakeLink || e is MountView),
        t[i].0 matches MountAsk::Stop(e) ==> t[i - 1].0 == MountAsk::Stop(e) || match e {
            MountError::Unavailable => i == 1 && !(t[0].1 is Yes),
            MountError::ForeignLink => t[i - 1].0 is ProbeReal && !(t[i - 1].1 is Yes),
            MountError::StaleRestore => t[i - 1].0 is RestoreStale && !(t[i - 1].1 is Yes),
            MountError::MoveAside => t[i - 1] == (MountAsk::MoveAside, Reply::No),
            MountError::CrossesVolumes => t[i - 1] == (MountAsk::MoveAside, Reply::Crosses),
            MountError::MakeView => t[i - 1].0 == MountAsk::RestoreBack(MountError::MakeView),
            MountError::MakeLink => t[i - 1].0 == MountAsk::RestoreBack(MountError::MakeLink),
            MountError::MountView => t[i - 1].0 == MountAsk::RestoreBack(MountError::MountView),
        },
        i >= 12 ==> t[i].0 is Mounted || t[i].0 is Stop,
    decreases i,
{
    if i > 0 {
        law_mount_steps_have_a_cause(t, i - 1);
        assert(t[i - 1 + 1].0 == mount_next(t[i - 1].0, t[i - 1].1));
        lemma_mount_left(t, i);
    }
}

/// How many steps are left at most.
spec fn mount_left(ask: MountAsk) -> int {
    match ask {
        MountAsk::Check => 12,
        MountAsk::ProbeLink => 11,
        MountAsk::ProbeReal => 10,
        MountAsk::RestoreStale => 9,
        MountAsk::ClearView => 8,
        MountAsk::MoveAside => 7,
        MountAsk::MakeView => 6,
        MountAsk::MakeLink => 5,
        MountAsk::MountView => 4,
        MountAsk::Unlink(_) => 2,
        MountAsk::RestoreBack(_) => 1,
        MountAsk::Mounted => 0,
        MountAsk::Stop(_) => 0,
    }
}

proof fn lemma_mount_left(t: Seq<(MountAsk, Reply)>, i: int)
    requires
        mount_trace(t),
        0 <= i < t.len(),
    ensures
        mount_left(t[i].0) + i <= 12 || mount_left(t[i].0) == 0,
    decreases i,
{
    if i > 0 {
        lemma_mount_left(t, i - 1);
        assert(t[i - 1 + 1].0 == mount_next(t[i - 1].0, t[i - 1].1));
    }
}

/// The words for the kind of link that a platform uses.
pub open spec fn link_word(os: HostOs) -> Seq<char> {
    if os == HostOs::Windows {
        "junction"@
    } else {
        "symlink"@
    }
}

fn link_name(os: HostOs) -> (r: &'static str)
    ensures
        r@ == link_word(os),
        os is Windows ==> r@ == "junction"@,
        !(os is Windows) ==> r@ == "symlink"@,
{
    match os {
        HostOs::Windows => "junction",
        _ => "symlink",
    }
}

/// The error for a link that is not this tool's.
pub fn foreign_link_message(os: HostOs, mountpoint: &str) -> (r: String)
    ensures
        r@ == mountpoint@ + " is a "@ + link_word(os)
            + " but no moved-aside directory was found; refusing to touch a foreign "@ + link_word(
            os,
        ),
{
    let w = link_name(os);
    cat5(
        mountpoint,
        " is a ",
        w,
        " but no moved-aside directory was found; refusing to touch a foreign ",
        w,
    )
}

/// The error for a host directory on another volume.
pub fn crosses_message(mountpoint: &str, aside: &str) -> (r: String)
    ensures
        r@ == "cannot move "@ + mountpoint@ + " to "@ + aside@
            + ": state dir is on a different volume. Put COWT_HOME on the same drive as the app directory (Windows cannot rename across volumes)"@,
{
    cat5(
        "cannot move ",
        mountpoint,
        " to ",
        aside,
        ": state dir is on a different volume. Put COWT_HOME on the same drive as the app directory (Windows cannot rename across volumes)",
    )
}

/// The report of a view in place.
pub fn mounted_message(runtime: &str, mountpoint: &str, upper: &str, aside: &str) -> (r: String)
    ensures
        r@ == "cowt: "@ + runtime@ + " mounted at "@ + mountpoint@ + " (upper: "@ + upper@
            + ", host dir moved to "@ + aside@ + ")"@,
{
    cat5("cowt: ", runtime, " mounted at ", mountpoint, " (upper: ").concat(upper).concat(
        ", host dir moved to ",
    ).concat(aside).concat(")")
}

/// The warning for a host directory that could not be put back.
pub fn stranded_message(error: &str, aside: &str) -> (r: String)
    ensures
        r@ == "cowt: warning: restore of the host directory failed: "@ + error@
            + " — it is still at "@ + aside@,
{
    cat4(
        "cowt: warning: restore of the host directory failed: ",
        error,
        " — it is still at ",
        aside,
    )
}

// ------------------------------------------------------------------ unmount

/// The programs that take a mount down, in the order they are tried.
#[derive(Clone, Copy, Debug, PartialEq, Eq, Structural)]
pub enum Tool {
    Fusermount3,
    Fusermount,
    Umount,
}

/// Why a mount was not taken down.
#[derive(Clone, Copy, Debug, PartialEq, Eq, Structural)]
pub enum UnmountError {
    /// There is no backend.
    Unsupported,
    /// None of the programs took it down.
    Tools,
    /// The link does not lead to a view of this tool.
    ForeignLink,
    /// The link could not be removed.
    RemoveLink,
    /// The host directory could not be put back.
    Restore,
}

/// What taking a mount down asks for next.
#[derive(Clone, Copy, Debug, PartialEq, Eq, Structural)]
pub enum UnmountAsk {
    /// Is something mounted there?
    CheckMounted,
    /// Run this program.
    Run(Tool),
    /// Read the link at the mountpoint.
    ReadLink,
    /// Find the worktree whose target the mountpoint is.
    FindState,
    /// Put the host directory of that worktree back.
    RestoreStranded,
    /// Does the worktree hold the host directory? Warn if not.
    CheckReal,
    /// Remove the directory of the view, as far as that works.
    ClearView,
    /// Remove the link.
    RemoveLink,
    /// Put the host directory back.
    Restore,
    Done,
    Stop(UnmountError),
}

/// What came of it.
#[derive(Clone, Copy, Debug, PartialEq, Eq, Structural)]
pub enum UnmountReply {
    Yes,
    No,
    /// The link leads to a view of this tool.
    View,
    /// The link leads elsewhere.
    Foreign,
}

/// The first step of taking a mount down.
pub open spec fn unmount_first(backend: HostBackend) -> UnmountAsk {
    match backend {
        HostBackend::Overlay(_) => UnmountAsk::CheckMounted,
        HostBackend::FuseT(_) => UnmountAsk::ReadLink,
        HostBackend::WinFsp(_) => UnmountAsk::ReadLink,
        HostBackend::Missing(_) => UnmountAsk::Stop(UnmountError::Unsupported),
    }
}

/// The step after a step of taking a mount down. Where there is no link, a run
/// may have been killed before it made one, so the worktree is looked for. Only
/// the macOS backend checks for a lost host directory.
pub open spec fn unmount_next(backend: HostBackend, ask: UnmountAsk, reply: UnmountReply) -> UnmountAsk {
    match ask {
        UnmountAsk::CheckMounted => if reply is Yes {
            UnmountAsk::Run(Tool::Fusermount3)
        } else {
            UnmountAsk::Done
        },
        UnmountAsk::Run(tool) => if reply is Yes {
            UnmountAsk::Done
        } else {
            match tool {
                Tool::Fusermount3 => UnmountAsk::Run(Tool::Fusermount),
                Tool::Fusermount => UnmountAsk::Run(Tool::Umount),
                Tool::Umount => UnmountAsk::Stop(UnmountError::Tools),
            }
        },
        UnmountAsk::ReadLink => match reply {
            UnmountReply::View => if backend is FuseT {
                UnmountAsk::CheckReal
            } else {
                UnmountAsk::ClearView
            },
            UnmountReply::Foreign => UnmountAsk::Stop(UnmountError::ForeignLink),
            _ => UnmountAsk::FindState,
        },
        UnmountAsk::FindState => if reply is Yes {
            UnmountAsk::RestoreStranded
        } else {
            UnmountAsk::Done
        },
        UnmountAsk::RestoreStranded => if reply is Yes {
            UnmountAsk::Done
        } else {
            UnmountAsk::Stop(UnmountError::Restore)
        },
        UnmountAsk::CheckReal => UnmountAsk::ClearView,
        UnmountAsk::ClearView => UnmountAsk::RemoveLink,
        UnmountAsk::RemoveLink => if reply is Yes {
            UnmountAsk::Restore
        } else {
            UnmountAsk::Stop(UnmountError::RemoveLink)
        },
        UnmountAsk::Restore => if reply is Yes {
            UnmountAsk::Done
        } else {
            UnmountAsk::Stop(UnmountError::Restore)
        },
        UnmountAsk::Done => UnmountAsk::Done,
        UnmountAsk::Stop(e) => UnmountAsk::Stop(e),
    }
}

/// The first step of taking a mount down.
pub fn unmount_start(backend: &HostBackend) -> (r: UnmountAsk)
    ensures
        r == unmount_first(*backend),
{
    match backend {
        HostBackend::Overlay(_) => UnmountAsk::CheckMounted,
        HostBackend::FuseT(_) => UnmountAsk::ReadLink,
        HostBackend::WinFsp(_) => UnmountAsk::ReadLink,
        HostBackend::Missing(_) => UnmountAsk::Stop(UnmountError::Unsupported),
    }
}

/// The first step of taking a mount down with the backend of the platform.
pub fn unmount_best_effort(os: HostOs, mode: Mode) -> (r: UnmountAsk)
    ensures
        r == match os {
            HostOs::Linux => UnmountAsk::CheckMounted,
            HostOs::MacOs => UnmountAsk::ReadLink,
            HostOs::Windows => UnmountAsk::ReadLink,
            HostOs::Other => UnmountAsk::Stop(UnmountError::Unsupported),
        },
{
    unmount_start(&default_backend(os, mode))
}

/// Takes a mount down, one step at a time.
pub fn unmount(backend: &HostBackend, ask: UnmountAsk, reply: UnmountReply) -> (r: UnmountAsk)
    ensures
        r == unmount_next(*backend, ask, reply),
{
    let yes = match reply {
        UnmountReply::Yes => true,
        _ => false,
    };
    let fuse_t = match backend {
        HostBackend::FuseT(_) => true,
        _ => false,
    };
    match ask {
        UnmountAsk::CheckMounted => if yes {
            UnmountAsk::Run(Tool::Fusermount3)
        } else {
            UnmountAsk::Done
        },
        UnmountAsk::Run(tool) => if yes {
            UnmountAsk::Done
        } else {
            match tool {
                Tool::Fusermount3 => UnmountAsk::Run(Tool::Fusermount),
                Tool::Fusermount => UnmountAsk::Run(Tool::Umount),
                Tool::Umount => UnmountAsk::Stop(UnmountError::Tools),
            }
        },
        UnmountAsk::ReadLink => match reply {
            UnmountReply::View => if fuse_t {
                UnmountAsk::CheckReal
            } else {
                UnmountAsk::ClearView
            },
            UnmountReply::Foreign => UnmountAsk::Stop(UnmountError::ForeignLink),
            _ => UnmountAsk::FindState,
        },
        UnmountAsk::FindState => if yes {
            UnmountAsk::RestoreStranded
        } else {
            UnmountAsk::Done
        },
        UnmountAsk::RestoreStranded => if yes {
            UnmountAsk::Done
        } else {
            UnmountAsk::Stop(UnmountError::Restore)
        },
        UnmountAsk::CheckReal => UnmountAsk::ClearView,
        UnmountAsk::ClearView => UnmountAsk::RemoveLink,
        UnmountAsk::RemoveLink => if yes {
            UnmountAsk::Restore
        } else {
            UnmountAsk::Stop(UnmountError::RemoveLink)
        },
        UnmountAsk::Restore => if yes {
            UnmountAsk::Done
        } else {
            UnmountAsk::Stop(UnmountError::Restore)
        },
        UnmountAsk::Done => UnmountAsk::Done,
        UnmountAsk::Stop(e) => UnmountAsk::Stop(e),
    }
}

/// The steps of taking a mount down, with what came of each.
pub open spec fn unmount_trace(backend: HostBackend, t: Seq<(UnmountAsk, UnmountReply)>) -> bool {
    &&& t.len() > 0 ==> t[0].0 == unmount_first(backend)
    &&& forall|i: int|
        0 <= i && i + 1 < t.len() ==> (#[trigger] t[i + 1]).0 == unmount_next(
            backend,
            t[i].0,
            t[i].1,
        )
}

/// A link is only removed, and the directory it leads to only cleared, where
/// the link was read first and leads to a view of this tool.
pub proof fn law_only_own_links_removed(
    backend: HostBackend,
    t: Seq<(UnmountAsk, UnmountReply)>,
    i: int,
)
    requires
        unmount_trace(backend, t),
        0 <= i < t.len(),
        t[i].0 is RemoveLink || t[i].0 is ClearView || t[i].0 is CheckReal || t[i].0 is Restore,
    ensures
        t[0] == (UnmountAsk::ReadLink, UnmountReply::View),
    decreases i,
{
    assert(i > 0);
    assert(t[i - 1 + 1].0 == unmount_next(backend, t[i - 1].0, t[i - 1].1));
    if t[i - 1].0 is ReadLink {
        if i - 1 > 0 {
            assert(t[i - 2 + 1].0 == unmount_next(backend, t[i - 2].0, t[i - 2].1));
        }
    } else {
        law_only_own_links_removed(backend, t, i - 1);
    }
}

/// Taking a mount down reports success only where nothing was mounted, or a
/// step that takes it down worked.
pub proof fn law_unmount_reports_truly(
    backend: HostBackend,
    t: Seq<(UnmountAsk, UnmountReply)>,
    i: int,
)
    requires
        unmount_trace(backend, t),
        0 <= i < t.len(),
        t[i].0 is Done,
    ensures
        exists|j: int|
            0 <= j < i && match (#[trigger] t[j]).0 {
                UnmountAsk::CheckMounted => !(t[j].1 is Yes),
                UnmountAsk::Run(_) => t[j].1 is Yes,
                UnmountAsk::FindState => !(t[j].1 is Yes),
                UnmountAsk::RestoreStranded => t[j].1 is Yes,
                UnmountAsk::Restore => t[j].1 is Yes,
                _ => false,
            },
    decreases i,
{
    assert(i > 0);
    assert(t[i - 1 + 1].0 == unmount_next(backend, t[i - 1].0, t[i - 1].1));
    if t[i - 1].0 is Done {
        law_unmount_reports_truly(backend, t, i - 1);
        let j = choose|j: int|
            0 <= j < i - 1 && match (#[trigger] t[j]).0 {
                UnmountAsk::CheckMounted => !(t[j].1 is Yes),
                UnmountAsk::Run(_) => t[j].1 is Yes,
                UnmountAsk::FindState => !(t[j].1 is Yes),
                UnmountAsk::RestoreStranded => t[j].1 is Yes,
                UnmountAsk::Restore => t[j].1 is Yes,
                _ => false,
            };
        assert(0 <= j < i);
        assert(t[j] == t[j]);
    } else {
        assert(t[i - 1] == t[i - 1]);
    }
}

/// Each step of taking a mount down has its cause in what was found before it. On
/// Linux the programs are tried in order, each only after the one before it failed.
/// Elsewhere the link is read: one to a view of this tool is removed, and the host
/// directory put back, without looking for it first but on macOS; where no link is,
/// the host directory of the worktree with this target is put back. Every failure
/// is told as what it is.
pub proof fn law_unmount_steps_have_a_cause(
    backend: HostBackend,
    t: Seq<(UnmountAsk, UnmountReply)>,
    i: int,
)
    requires
        unmount_trace(backend, t),
        0 <= i < t.len(),
    ensures
        t[i].0 is CheckMounted <==> i == 0 && backend is Overlay,
        t[i].0 is ReadLink <==> i == 0 && (backend is FuseT || backend is WinFsp),
        t[i].0 matches UnmountAsk::Run(tool) ==> match tool {
            Tool::Fusermount3 => i == 1 && t[0] == (UnmountAsk::CheckMounted, UnmountReply::Yes),
            Tool::Fusermount => i == 2 && t[1].0 == UnmountAsk::Run(Tool::Fusermount3) && !(
            t[1].1 is Yes),
            Tool::Umount => i == 3 && t[2].0 == UnmountAsk::Run(Tool::Fusermount) && !(
            t[2].1 is Yes),
        },
        t[i].0 is FindState ==> i == 1 && t[0].0 is ReadLink && !(t[0].1 is View) && !(
        t[0].1 is Foreign),
        t[i].0 is RestoreStranded ==> i == 2 && t[1] == (UnmountAsk::FindState, UnmountReply::Yes),
        t[i].0 is CheckReal ==> i == 1 && backend is FuseT && t[0] == (
            UnmountAsk::ReadLink,
            UnmountReply::View,
        ),
        t[i].0 is ClearView ==> (i == 2 && t[1].0 is CheckReal) || (i == 1 && backend is WinFsp && t[0]
            == (UnmountAsk::ReadLink, UnmountReply::View)),
        t[i].0 is RemoveLink ==> t[i - 1].0 is ClearView,
        t[i].0 is Restore ==> t[i - 1] == (UnmountAsk::RemoveLink, UnmountReply::Yes),
        t[i].0 is Done ==> t[i - 1].0 is Done || match t[i - 1].0 {
            UnmountAsk::CheckMounted => !(t[i - 1].1 is Yes),
            UnmountAsk::FindState => !(t[i - 1].1 is Yes),
            UnmountAsk::Run(_) => t[i - 1].1 is Yes,
            UnmountAsk::RestoreStranded => t[i - 1].1 is Yes,
            UnmountAsk::Restore => t[i - 1].1 is Yes,
            _ => false,
        },
        t[i].0 matches UnmountAsk::Stop(e) ==> (i > 0 && t[i - 1].0 == UnmountAsk::Stop(e))
            || match e {
            UnmountError::Unsupported => i == 0 && backend is Missing,
            UnmountError::Tools => i == 4 && t[3].0 == UnmountAsk::Run(Tool::Umount) && !(
            t[3].1 is Yes),
            UnmountError::ForeignLink => i == 1 && t[0] == (
                UnmountAsk::ReadLink,
                UnmountReply::Foreign,
            ),
            UnmountError::RemoveLink => i > 0 && t[i - 1].0 is RemoveLink && !(t[i - 1].1 is Yes),
            UnmountError::Restore => i > 0 && (t[i - 1].0 is Restore || t[i
                - 1].0 is RestoreStranded) && !(t[i - 1].1 is Yes),
        },
        i >= 5 ==> t[i].0 is Done || t[i].0 is Stop,
    decreases i,
{
    lemma_unmount_left(backend, t, i);
    if i > 0 {
        law_unmount_steps_have_a_cause(backend, t, i - 1);
        assert(t[i - 1 + 1].0 == unmount_next(backend, t[i - 1].0, t[i - 1].1));
    }
}

/// How many steps are left at most.
spec fn unmount_left(ask: UnmountAsk) -> int {
    match ask {
        UnmountAsk::CheckMounted => 4,
        UnmountAsk::ReadLink => 5,
        UnmountAsk::Run(Tool::Fusermount3) => 3,
        UnmountAsk::Run(Tool::Fusermount) => 2,
        UnmountAsk::Run(Tool::Umount) => 1,
        UnmountAsk::FindState => 2,
        UnmountAsk::RestoreStranded => 1,
        UnmountAsk::CheckReal => 4,
        UnmountAsk::ClearView => 3,
        UnmountAsk::RemoveLink => 2,
        UnmountAsk::Restore => 1,
        UnmountAsk::Done => 0,
        UnmountAsk::Stop(_) => 0,
    }
}

proof fn lemma_unmount_left(backend: HostBackend, t: Seq<(UnmountAsk, UnmountReply)>, i: int)
    requires
        unmount_trace(backend, t),
        0 <= i < t.len(),
    ensures
        unmount_left(t[i].0) + i <= 5 || unmount_left(t[i].0) == 0,
    decreases i,
{
    if i > 0 {
        lemma_unmount_left(backend, t, i - 1);
        assert(t[i - 1 + 1].0 == unmount_next(backend, t[i - 1].0, t[i - 1].1));
    }
}

/// The error for a mount that none of the programs took down.
pub fn unmount_failed_message(mountpoint: &str) -> (r: String)
    ensures
        r@ == "failed to unmount "@ + mountpoint@,
{
    cat2("failed to unmount ", mountpoint)
}

/// The error for a link that leads elsewhere.
pub fn foreign_view_message(os: HostOs, mountpoint: &str, link: &str) -> (r: String)
    ensures
        r@ == link_word(os) + " at "@ + mountpoint@ + " points at "@ + link@ + if os
            == HostOs::Windows {
            " (not a cowt view); refusing to touch it"@
        } else {
            " (not a cowt view under the state root); refusing to touch it"@
        },
{
    let why = match os {
        HostOs::Windows => " (not a cowt view); refusing to touch it",
        _ => " (not a cowt view under the state root); refusing to touch it",
    };
    cat5(link_name(os), " at ", mountpoint, " points at ", link).concat(why)
}

/// The report of a host directory that is gone with the state that held it.
pub fn lost_message(mountpoint: &str) -> (r: String)
    ensures
        r@ == "cowt: ERROR: worktree state was deleted while running; the host directory at "@
            + mountpoint@ + " may have been lost"@,
{
    cat3(
        "cowt: ERROR: worktree state was deleted while running; the host directory at ",
        mountpoint,
        " may have been lost",
    )
}

/// The output of `mount` shows something at this path.
pub open spec fn listed_mount(output: Seq<char>, mountpoint: Seq<char>) -> bool {
    text::contains_text(output, " on "@ + mountpoint + " "@)
}

/// The output of `mount` shows something at this path: the view that a session
/// serves is reachable.
pub fn is_mounted_now(output: &str, mountpoint: &str) -> (r: bool)
    ensures
        r == listed_mount(output@, mountpoint@),
        r <==> text::contains_text(output@, " on "@ + mountpoint@ + " "@),
{
    let needle = cat3(" on ", mountpoint, " ");
    match text::find_text(output, needle.as_str()) {
        Some(_) => {
            proof {
                text::lemma_find_from(output@, needle@, 0);
            }
            true
        },
        None => {
            proof {
                text::lemma_find_from(output@, needle@, 0);
            }
            assert(forall|j: int| text::stands_at(output@, needle@, j) ==> 0 <= j);
            false
        },
    }
}

} // verus!
