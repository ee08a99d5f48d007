//! The platform backends: which one a host has, what it is called, and the
//! rules that all of them share.

use vstd::prelude::*;
use crate::host::HostOs;
use crate::number;
use crate::text;

verus! {

/// How the Linux backend makes its overlay.
#[derive(Clone, Copy, Debug, PartialEq, Eq, Structural)]
pub enum Mode {
    /// A kernel overlay, mounted directly. Needs root.
    KernelDirect,
    /// A kernel overlay in a private user namespace.
    KernelUserns,
    /// The `fuse-overlayfs` program.
    Fuse,
}

/// The Linux backend, with the strategy found on this host.
#[derive(Clone, Copy, Debug, PartialEq, Eq, Structural)]
pub struct FuseOverlayfs {
    pub mode: Mode,
}

/// The macOS backend.
#[derive(Clone, Copy, Debug, PartialEq, Eq, Structural)]
pub struct FuseT;

/// The Windows backend.
#[derive(Clone, Copy, Debug, PartialEq, Eq, Structural)]
pub struct WinFspBackend;

/// The backend of a platform that has none.
#[derive(Debug)]
pub struct Unsupported {
    name: &'static str,
    reason: &'static str,
}

/// A backend has a stable name, which is recorded in a worktree's metadata.
pub trait Backend {
    spec fn called(&self) -> Seq<char>;

    fn name(&self) -> (r: &'static str)
        ensures
            r@ == self.called(),
    ;
}

impl Backend for FuseOverlayfs {
    open spec fn called(&self) -> Seq<char> {
        match self.mode {
            Mode::KernelDirect => "kernel-overlay"@,
            Mode::KernelUserns => "kernel-overlay+userns"@,
            Mode::Fuse => "fuse-overlayfs"@,
        }
    }

    fn name(&self) -> (r: &'static str) {
        match self.mode {
            Mode::KernelDirect => "kernel-overlay",
            Mode::KernelUserns => "kernel-overlay+userns",
            Mode::Fuse => "fuse-overlayfs",
        }
    }
}

impl Backend for FuseT {
    open spec fn called(&self) -> Seq<char> {
        "fuse-t"@
    }

    fn name(&self) -> (r: &'static str) {
        "fuse-t"
    }
}

impl Backend for WinFspBackend {
    open spec fn called(&self) -> Seq<char> {
        "winfsp"@
    }

    fn name(&self) -> (r: &'static str) {
        "winfsp"
    }
}

impl Backend for Unsupported {
    closed spec fn called(&self) -> Seq<char> {
        self.name@
    }

    fn name(&self) -> (r: &'static str) {
        self.name
    }
}

impl Unsupported {
    /// Why there is no backend.
    pub closed spec fn why(&self) -> Seq<char> {
        self.reason@
    }

    /// A backend that is not there.
    pub fn new(name: &'static str, reason: &'static str) -> (r: Unsupported)
        ensures
            r.called() == name@,
            r.why() == reason@,
    {
        Unsupported { name, reason }
    }

    /// The error of every operation but `name` and `is_mounted`.
    pub fn err(&self) -> (r: String)
        ensures
            r@ == "backend '"@ + self.called() + "' unavailable: "@ + self.why(),
    {
        text::cat4("backend '", self.name, "' unavailable: ", self.reason)
    }
}

/// The backend of a host.
#[derive(Debug)]
pub enum HostBackend {
    Overlay(FuseOverlayfs),
    FuseT(FuseT),
    WinFsp(WinFspBackend),
    Missing(Unsupported),
}

impl Backend for HostBackend {
    open spec fn called(&self) -> Seq<char> {
        match self {
            HostBackend::Overlay(b) => b.called(),
            HostBackend::FuseT(b) => b.called(),
            HostBackend::WinFsp(b) => b.called(),
            HostBackend::Missing(b) => b.called(),
        }
    }

    fn name(&self) -> (r: &'static str) {
        match self {
            HostBackend::Overlay(b) => b.name(),
            HostBackend::FuseT(b) => b.name(),
            HostBackend::WinFsp(b) => b.name(),
            HostBackend::Missing(b) => b.name(),
        }
    }
}

/// Each backend is recorded under a name of its own.
pub proof fn law_backends_are_named(mode: Mode, missing: Unsupported)
    ensures
        HostBackend::Overlay(FuseOverlayfs { mode: Mode::KernelDirect }).called()
            == "kernel-overlay"@,
        HostBackend::Overlay(FuseOverlayfs { mode: Mode::KernelUserns }).called()
            == "kernel-overlay+userns"@,
        HostBackend::Overlay(FuseOverlayfs { mode: Mode::Fuse }).called() == "fuse-overlayfs"@,
        HostBackend::FuseT(FuseT).called() == "fuse-t"@,
        HostBackend::WinFsp(WinFspBackend).called() == "winfsp"@,
        HostBackend::Missing(missing).called() == missing.called(),
{
}

/// The backend of a platform. `mode` is the strategy found on a Linux host.
pub fn default_backend(os: HostOs, mode: Mode) -> (r: HostBackend)
    ensures
        match os {
            HostOs::Linux => r == HostBackend::Overlay((FuseOverlayfs { mode })),
            HostOs::MacOs => r == HostBackend::FuseT(FuseT),
            HostOs::Windows => r == HostBackend::WinFsp(WinFspBackend),
            HostOs::Other => r matches HostBackend::Missing(u) && u.called() == "none"@ && u.why()
                == "no VFS backend exists for this platform"@,
        },
{
    match os {
        HostOs::Linux => HostBackend::Overlay(FuseOverlayfs { mode }),
        HostOs::MacOs => HostBackend::FuseT(FuseT),
        HostOs::Windows => HostBackend::WinFsp(WinFspBackend),
        HostOs::Other => HostBackend::Missing(
            Unsupported::new("none", "no VFS backend exists for this platform"),
        ),
    }
}

/// The process that signals to the running `cowt` are passed on to.
#[derive(Clone, Copy, Debug, PartialEq, Eq, Structural)]
pub struct ChildSignalGuard {
    pid: i32,
}

impl ChildSignalGuard {
    /// The tracked process, 0 for none.
    pub closed spec fn tracked_pid(self) -> i32 {
        self.pid
    }

    /// Tracks a child, by its pid as the system's signed type holds it.
    pub fn track(pid: u32) -> (r: ChildSignalGuard)
        ensures
            pid <= i32::MAX ==> r.tracked_pid() == pid,
            pid > i32::MAX ==> r.tracked_pid() == pid - 0x1_0000_0000,
    {
        if pid <= 0x7fff_ffff {
            ChildSignalGuard { pid: pid as i32 }
        } else {
            let back: u32 = 0xffff_ffff - pid;
            ChildSignalGuard { pid: -1 - back as i32 }
        }
    }

    /// Tracks nothing any more.
    pub fn clear(&mut self)
        ensures
            final(self).tracked_pid() == 0,
    {
        self.pid = 0;
    }

    /// The process to pass a signal on to: only ever a tracked child.
    pub fn forward_to(&self) -> (r: Option<i32>)
        ensures
            self.tracked_pid() > 0 ==> r == Some(self.tracked_pid()),
            self.tracked_pid() <= 0 ==> r is None,
    {
        if self.pid > 0 {
            Some(self.pid)
        } else {
            None
        }
    }
}

/// The number by which the system's `kill` knows a child's process group.
/// There is none for a pid that is not positive in the system's signed type.
pub fn process_group(pid: u32) -> (r: Option<i32>)
    ensures
        r == if 0 < pid <= i32::MAX {
            Some((-pid) as i32)
        } else {
            None
        },
{
    if 0 < pid && pid <= 0x7fff_ffff {
        Some(-(pid as i32))
    } else {
        None
    }
}

/// The exit code and the description of a finished child: 128 and the signal
/// that killed it, else the code it exited with, else 1.
pub fn exit_code_and_desc(signal: Option<i32>, code: Option<i32>) -> (r: (i32, String))
    requires
        signal matches Some(s) ==> s <= i32::MAX - 128,
    ensures
        match signal {
            Some(s) => r.0 == 128 + s && r.1@ == "killed by signal "@ + number::decimal_int(
                s as int,
            ),
            None => {
                let c = match code {
                    Some(c) => c,
                    None => 1i32,
                };
                r.0 == c && r.1@ == "exited with code "@ + number::decimal_int(c as int)
            },
        },
{
    if let Some(s) = signal {
        let shown = number::decimal_int_text(s);
        return (128 + s, text::cat2("killed by signal ", shown.as_str()));
    }
    let c: i32 = match code {
        Some(c) => c,
        None => 1,
    };
    let shown = number::decimal_int_text(c);
    (c, text::cat2("exited with code ", shown.as_str()))
}

/// Why a command could not be started.
#[derive(Clone, Copy, Debug, PartialEq, Eq, Structural)]
pub enum SpawnError {
    NotFound,
    PermissionDenied,
    Other,
}

/// The exit code that a shell gives for a command that could not be started.
pub fn spawn_error_code(e: SpawnError) -> (r: Option<i32>)
    ensures
        r == match e {
            SpawnError::NotFound => Some(127i32),
            SpawnError::PermissionDenied => Some(126i32),
            SpawnError::Other => None,
        },
{
    match e {
        SpawnError::NotFound => Some(127),
        SpawnError::PermissionDenied => Some(126),
        SpawnError::Other => None,
    }
}

/// A mount that is taken down when it is let go of, unless it was disarmed.
#[derive(Debug)]
pub struct MountGuard {
    mountpoint: String,
    armed: bool,
}

impl MountGuard {
    pub closed spec fn at(&self) -> Seq<char> {
        self.mountpoint@
    }

    pub closed spec fn is_armed(&self) -> bool {
        self.armed
    }

    /// Guards a mount.
    pub fn new(mountpoint: String) -> (r: MountGuard)
        ensures
            r.at() == mountpoint@,
            r.is_armed(),
    {
        MountGuard { mountpoint, armed: true }
    }

    /// The mount is down, or is taken down by other means.
    pub fn disarm(&mut self)
        ensures
            !final(self).is_armed(),
            final(self).at() == old(self).at(),
    {
        self.armed = false;
    }

    /// Where to unmount now. The guard does not unmount again.
    pub fn teardown(&mut self) -> (r: String)
        ensures
            r@ == old(self).at(),
            !final(self).is_armed(),
            final(self).at() == old(self).at(),
    {
        self.armed = false;
        self.mountpoint.clone()
    }

    /// Where to unmount when the guard is let go of.
    pub fn on_drop(&self) -> (r: Option<String>)
        ensures
            self.is_armed() ==> (r matches Some(p) && p@ == self.at()),
            !self.is_armed() ==> r is None,
    {
        if self.armed {
            Some(self.mountpoint.clone())
        } else {
            None
        }
    }
}

/// What to do about a mount on a worktree's target before the target is used.
#[derive(Clone, Copy, Debug, PartialEq, Eq, Structural)]
pub enum Recovery {
    /// Nothing is mounted there.
    NotMounted,
    /// The mount is left over from a run of this worktree: take it down.
    Unmount,
    /// The mount is somebody else's.
    Refuse,
}

/// A mount is only taken down where the worktree itself proves it to be a
/// leftover: by the pid file of a dead run, or by the host directory that a
/// run moved aside.
pub fn recover_stale_mount(mounted: bool, stale_run: bool, real_exists: bool) -> (r: Recovery)
    ensures
        r is NotMounted <==> !mounted,
        r is Unmount <==> mounted && (stale_run || real_exists),
        r is Refuse <==> mounted && !stale_run && !real_exists,
{
    if !mounted {
        Recovery::NotMounted
    } else if stale_run || real_exists {
        Recovery::Unmount
    } else {
        Recovery::Refuse
    }
}

/// The error for a mount that is somebody else's.
pub fn foreign_mount_message(target: &str) -> (r: String)
    ensures
        r@ == target@ + " is already a mountpoint; refusing to stack a second overlay"@,
{
    text::cat2(target, " is already a mountpoint; refusing to stack a second overlay")
}

} // verus!
