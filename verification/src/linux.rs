//! The Linux backend: choosing a strategy, reading the table of mounts, the
//! commands it runs, and taking a mount down.

use vstd::prelude::*;
use crate::backend::Mode;
use crate::host::HostOs;
use crate::number;
use crate::number::{decimal_text, parse_u32};
use crate::path;
use crate::path::join_path;
use crate::text;
use crate::text::{
    cat2, cat3, cat5, has_text, replace_char, same, split_lines, split_text, split_words,
    starts_with, Sep,
};

verus! {

/// What is known of the ways to make an overlay.
#[derive(Clone, Copy, Debug, PartialEq, Eq, Structural)]
pub enum ModeAsk {
    /// Try a kernel overlay.
    ProbeDirect,
    /// Try a kernel overlay in a user namespace.
    ProbeUserns,
    /// Use this strategy.
    Use(Mode),
}

/// The next thing to find out. Only root tries a direct mount; where no kernel
/// overlay works, the user-space one is used.
pub fn detect_mode(euid: u32, direct: Option<bool>, userns: Option<bool>) -> (r: ModeAsk)
    ensures
        r == if euid == 0 && direct is None {
            ModeAsk::ProbeDirect
        } else if euid == 0 && direct == Some(true) {
            ModeAsk::Use(Mode::KernelDirect)
        } else if userns is None {
            ModeAsk::ProbeUserns
        } else if userns == Some(true) {
            ModeAsk::Use(Mode::KernelUserns)
        } else {
            ModeAsk::Use(Mode::Fuse)
        },
{
    if euid == 0 {
        match direct {
            None => {
                return ModeAsk::ProbeDirect;
            },
            Some(works) => {
                if works {
                    return ModeAsk::Use(Mode::KernelDirect);
                }
            },
        }
    }
    match userns {
        None => ModeAsk::ProbeUserns,
        Some(works) => {
            if works {
                ModeAsk::Use(Mode::KernelUserns)
            } else {
                ModeAsk::Use(Mode::Fuse)
            }
        },
    }
}

/// The first of these lines that starts with `p`, from line `i` on.
pub open spec fn line_starting(ls: Seq<Seq<char>>, p: Seq<char>, i: int) -> Option<Seq<char>>
    decreases ls.len() - i,
{
    if i < 0 || i >= ls.len() {
        None
    } else if p.is_prefix_of(ls[i]) {
        Some(ls[i])
    } else {
        line_starting(ls, p, i + 1)
    }
}

/// The effective user in the text of `/proc/self/status`: the second number
/// after `Uid:`.
pub open spec fn effective_uid(status: Seq<char>) -> Option<nat> {
    match line_starting(text::lines(status), "Uid:"@, 0) {
        Some(line) => if text::words(line).len() > 2 {
            number::unsigned(text::words(line)[2], u32::MAX as nat)
        } else {
            None
        },
        None => None,
    }
}

/// The effective user, read off `/proc/self/status`; a user that nobody is
/// where that cannot be read.
pub fn euid(status: Option<String>) -> (r: u32)
    ensures
        r == match status {
            Some(s) => match effective_uid(s@) {
                Some(n) => n,
                None => u32::MAX as nat,
            },
            None => u32::MAX as nat,
        },
{
    let Some(s) = status else {
        return u32::MAX;
    };
    let ls = split_lines(s.as_str());
    let mut i: usize = 0;
    while i < ls.len()
        invariant
            i <= ls@.len(),
            status == Some(s),
            text::texts(ls@) == text::lines(s@),
            line_starting(text::lines(s@), "Uid:"@, 0) == line_starting(
                text::lines(s@),
                "Uid:"@,
                i as int,
            ),
        decreases ls@.len() - i,
    {
        assert(text::texts(ls@)[i as int] == ls@[i as int]@);
        if starts_with(ls[i].as_str(), "Uid:") {
            let ws = split_words(ls[i].as_str());
            if ws.len() > 2 {
                assert(text::texts(ws@)[2] == ws@[2]@);
                return match parse_u32(ws[2].as_str()) {
                    Some(n) => n,
                    None => u32::MAX,
                };
            }
            return u32::MAX;
        }
        i = i + 1;
    }
    u32::MAX
}

/// A path as the table of mounts shows it.
pub open spec fn escaped(p: Seq<char>) -> Seq<char> {
    text::replaced(p, ' ', "\\040"@)
}

/// A line of the table of mounts is about this mountpoint: its second word.
pub open spec fn line_at(line: Seq<char>, mountpoint: Seq<char>) -> bool {
    text::words(line).len() > 1 && text::words(line)[1] == escaped(mountpoint)
}

/// A line of the table of mounts has a device that only this tool's overlays
/// have.
pub open spec fn line_ours(line: Seq<char>) -> bool {
    let device = if text::words(line).len() > 0 {
        text::words(line)[0]
    } else {
        Seq::empty()
    };
    device == "overlay"@ || device == "fuse-overlayfs"@ || "fuse.overlayfs"@.is_prefix_of(device)
}

/// A line of the table of mounts has this option: one of those that commas
/// part in its fourth word.
pub open spec fn line_option(line: Seq<char>, option: Seq<char>) -> bool {
    text::words(line).len() > 3 && text::split(text::words(line)[3], Sep::Char(',')).contains(
        option,
    )
}

/// Something is mounted at this path.
pub open spec fn mounted_in(mounts: Seq<char>, mountpoint: Seq<char>) -> bool {
    exists|i: int|
        0 <= i < text::lines(mounts).len() && line_at(#[trigger] text::lines(mounts)[i], mountpoint)
}

/// An overlay is mounted at this path.
pub open spec fn ours_in(mounts: Seq<char>, mountpoint: Seq<char>) -> bool {
    exists|i: int|
        0 <= i < text::lines(mounts).len() && line_at(#[trigger] text::lines(mounts)[i], mountpoint)
            && line_ours(text::lines(mounts)[i])
}

/// The option by which a mount shows that its writes go to this worktree.
pub open spec fn upper_option(dir: Seq<char>) -> Seq<char> {
    "upperdir="@ + escaped(path::joined(HostOs::Linux, dir, "upper"@))
}

/// A mount at this path writes to this worktree's layer.
pub open spec fn upper_in(mounts: Seq<char>, mountpoint: Seq<char>, dir: Seq<char>) -> bool {
    exists|i: int|
        0 <= i < text::lines(mounts).len() && line_at(#[trigger] text::lines(mounts)[i], mountpoint)
            && line_option(text::lines(mounts)[i], upper_option(dir))
}

struct MountLine {
    at: bool,
    ours: bool,
    option: bool,
}

fn read_line(line: &str, target: &str, option: &str, Ghost(mountpoint): Ghost<Seq<char>>) -> (r:
    MountLine)
    requires
        target@ == escaped(mountpoint),
    ensures
        r.at == line_at(line@, mountpoint),
        r.ours == line_ours(line@),
        r.option == line_option(line@, option@),
{
    let ws = split_words(line);
    let ghost w = text::words(line@);
    assert(text::texts(ws@) == w);
    let at = if ws.len() > 1 {
        assert(w[1] == ws@[1]@);
        same(ws[1].as_str(), target)
    } else {
        false
    };
    let ours = if ws.len() > 0 {
        assert(w[0] == ws@[0]@);
        let d = ws[0].as_str();
        same(d, "overlay") || same(d, "fuse-overlayfs") || starts_with(d, "fuse.overlayfs")
    } else {
        proof {
            reveal_strlit("overlay");
            reveal_strlit("fuse-overlayfs");
            reveal_strlit("fuse.overlayfs");
        }
        assert("overlay"@.len() == 7);
        assert("fuse-overlayfs"@.len() == 14);
        false
    };
    let has = if ws.len() > 3 {
        assert(w[3] == ws@[3]@);
        let options = split_text(ws[3].as_str(), Sep::Char(','));
        has_text(&options, option)
    } else {
        false
    };
    MountLine { at, ours, option: has }
}

/// Something is mounted at this path, by the text of `/proc/self/mounts`.
pub fn is_mounted_proc(mounts: Option<String>, mountpoint: &str) -> (r: bool)
    ensures
        r == (mounts matches Some(m) && mounted_in(m@, mountpoint@)),
        r <==> (mounts matches Some(m) && exists|i: int|
            0 <= i < text::lines(m@).len() && text::words(#[trigger] text::lines(m@)[i]).len() > 1
                && text::words(text::lines(m@)[i])[1] == text::replaced(
                mountpoint@,
                ' ',
                "\\040"@,
            )),
{
    let Some(m) = mounts else {
        return false;
    };
    let target = replace_char(mountpoint, ' ', "\\040");
    let ls = split_lines(m.as_str());
    let mut i: usize = 0;
    while i < ls.len()
        invariant
            i <= ls@.len(),
            mounts == Some(m),
            text::texts(ls@) == text::lines(m@),
            target@ == escaped(mountpoint@),
            forall|j: int| 0 <= j < i ==> !line_at(#[trigger] text::lines(m@)[j], mountpoint@),
        decreases ls@.len() - i,
    {
        assert(text::texts(ls@)[i as int] == ls@[i as int]@);
        let l = read_line(ls[i].as_str(), target.as_str(), "", Ghost(mountpoint@));
        if l.at {
            assert(line_at(text::lines(m@)[i as int], mountpoint@));
            return true;
        }
        i = i + 1;
    }
    false
}

/// An overlay is mounted at this path: the only filesystems that this tool
/// mounts on Linux. A foreign mount is never taken down.
pub fn mount_is_ours_proc(mounts: Option<String>, mountpoint: &str) -> (r: bool)
    ensures
        r == (mounts matches Some(m) && ours_in(m@, mountpoint@)),
        r <==> (mounts matches Some(m) && exists|i: int|
            0 <= i < text::lines(m@).len() && text::words(#[trigger] text::lines(m@)[i]).len() > 1
                && text::words(text::lines(m@)[i])[1] == text::replaced(
                mountpoint@,
                ' ',
                "\\040"@,
            ) && (text::words(text::lines(m@)[i])[0] == "overlay"@ || text::words(
                text::lines(m@)[i],
            )[0] == "fuse-overlayfs"@ || "fuse.overlayfs"@.is_prefix_of(
                text::words(text::lines(m@)[i])[0],
            ))),
{
    let Some(m) = mounts else {
        return false;
    };
    let target = replace_char(mountpoint, ' ', "\\040");
    let ls = split_lines(m.as_str());
    let mut i: usize = 0;
    while i < ls.len()
        invariant
            i <= ls@.len(),
            mounts == Some(m),
            text::texts(ls@) == text::lines(m@),
            target@ == escaped(mountpoint@),
            forall|j: int|
                0 <= j < i ==> !(line_at(#[trigger] text::lines(m@)[j], mountpoint@) && line_ours(
                    text::lines(m@)[j],
                )),
        decreases ls@.len() - i,
    {
        assert(text::texts(ls@)[i as int] == ls@[i as int]@);
        let l = read_line(ls[i].as_str(), target.as_str(), "", Ghost(mountpoint@));
        if l.at && l.ours {
            assert(line_at(text::lines(m@)[i as int], mountpoint@));
            return true;
        }
        i = i + 1;
    }
    false
}

/// The mount at this path writes to the layer of the worktree in `dir`, which
/// proves it to be a leftover of that worktree.
pub fn mount_upper_proves_ours(mounts: Option<String>, mountpoint: &str, dir: &str) -> (r: bool)
    ensures
        r == (mounts matches Some(m) && upper_in(m@, mountpoint@, dir@)),
        r <==> (mounts matches Some(m) && exists|i: int|
            0 <= i < text::lines(m@).len() && text::words(#[trigger] text::lines(m@)[i]).len() > 3
                && text::words(text::lines(m@)[i])[1] == text::replaced(
                mountpoint@,
                ' ',
                "\\040"@,
            ) && text::split(text::words(text::lines(m@)[i])[3], Sep::Char(',')).contains(
                "upperdir="@ + text::replaced(
                    path::joined(HostOs::Linux, dir@, "upper"@),
                    ' ',
                    "\\040"@,
                ),
            )),
{
    let Some(m) = mounts else {
        return false;
    };
    let target = replace_char(mountpoint, ' ', "\\040");
    let upper = join_path(HostOs::Linux, dir, "upper");
    let shown = replace_char(upper.as_str(), ' ', "\\040");
    let option = cat2("upperdir=", shown.as_str());
    let ls = split_lines(m.as_str());
    let mut i: usize = 0;
    while i < ls.len()
        invariant
            i <= ls@.len(),
            mounts == Some(m),
            text::texts(ls@) == text::lines(m@),
            target@ == escaped(mountpoint@),
            option@ == upper_option(dir@),
            forall|j: int|
                0 <= j < i ==> !(line_at(#[trigger] text::lines(m@)[j], mountpoint@) && line_option(
                    text::lines(m@)[j],
                    upper_option(dir@),
                )),
        decreases ls@.len() - i,
    {
        assert(text::texts(ls@)[i as int] == ls@[i as int]@);
        let l = read_line(ls[i].as_str(), target.as_str(), option.as_str(), Ghost(mountpoint@));
        if l.at && l.option {
            assert(line_at(text::lines(m@)[i as int], mountpoint@));
            return true;
        }
        i = i + 1;
    }
    false
}

/// What is proven to be this tool's mount is a mount.
pub proof fn law_ours_is_mounted(mounts: Seq<char>, mountpoint: Seq<char>, dir: Seq<char>)
    ensures
        ours_in(mounts, mountpoint) ==> mounted_in(mounts, mountpoint),
        upper_in(mounts, mountpoint, dir) ==> mounted_in(mounts, mountpoint),
{
}

/// The effective user is the third word of the first line that begins with `Uid:`,
/// read as a number; a user that nobody is where there is no such line, or no such
/// word, or it is no number.
pub proof fn law_effective_user(status: Seq<char>, k: int)
    requires
        0 <= k < text::lines(status).len(),
        "Uid:"@.is_prefix_of(text::lines(status)[k]),
        forall|j: int| 0 <= j < k ==> !"Uid:"@.is_prefix_of(#[trigger] text::lines(status)[j]),
    ensures
        text::words(text::lines(status)[k]).len() > 2 ==> effective_uid(status)
            == number::unsigned(text::words(text::lines(status)[k])[2], u32::MAX as nat),
        text::words(text::lines(status)[k]).len() <= 2 ==> effective_uid(status) is None,
{
    lemma_line_starting(text::lines(status), "Uid:"@, 0, k);
}

/// Where no line tells the user, none is known.
pub proof fn law_no_user(status: Seq<char>)
    requires
        forall|j: int|
            0 <= j < text::lines(status).len() ==> !"Uid:"@.is_prefix_of(
                #[trigger] text::lines(status)[j],
            ),
    ensures
        effective_uid(status) is None,
{
    lemma_no_line(text::lines(status), "Uid:"@, 0);
}

proof fn lemma_line_starting(ls: Seq<Seq<char>>, p: Seq<char>, i: int, k: int)
    requires
        0 <= i <= k < ls.len(),
        p.is_prefix_of(ls[k]),
        forall|j: int| i <= j < k ==> !p.is_prefix_of(#[trigger] ls[j]),
    ensures
        line_starting(ls, p, i) == Some(ls[k]),
    decreases k - i,
{
    if i < k {
        assert(!p.is_prefix_of(ls[i]));
        lemma_line_starting(ls, p, i + 1, k);
    }
}

proof fn lemma_no_line(ls: Seq<Seq<char>>, p: Seq<char>, i: int)
    requires
        0 <= i,
        forall|j: int| i <= j < ls.len() ==> !p.is_prefix_of(#[trigger] ls[j]),
    ensures
        line_starting(ls, p, i) is None,
    decreases ls.len() - i,
{
    if i < ls.len() {
        assert(!p.is_prefix_of(ls[i]));
        lemma_no_line(ls, p, i + 1);
    }
}

/// The options of an overlay mount.
pub open spec fn options_text(lower: Seq<char>, upper: Seq<char>, work: Seq<char>) -> Seq<char> {
    "lowerdir="@ + lower + ",upperdir="@ + upper + ",workdir="@ + work
}

/// The options of an overlay mount.
pub fn overlay_options(lower: &str, upper: &str, work: &str) -> (r: String)
    ensures
        r@ == options_text(lower@, upper@, work@),
        r@ == "lowerdir="@ + lower@ + ",upperdir="@ + upper@ + ",workdir="@ + work@,
{
    cat5("lowerdir=", lower, ",upperdir=", upper, ",workdir=").concat(work)
}

/// The arguments of `mount` for a kernel overlay.
pub fn kernel_mount_args(options: &str, mountpoint: &str) -> (r: Vec<String>)
    ensures
        text::texts(r@) == seq![
            "-t"@,
            "overlay"@,
            "overlay"@,
            "-o"@,
            options@,
            mountpoint@,
        ],
{
    let mut v: Vec<String> = Vec::new();
    v.push("-t".to_owned());
    v.push("overlay".to_owned());
    v.push("overlay".to_owned());
    v.push("-o".to_owned());
    v.push(options.to_owned());
    v.push(mountpoint.to_owned());
    assert(text::texts(v@) =~= seq![
        "-t"@,
        "overlay"@,
        "overlay"@,
        "-o"@,
        options@,
        mountpoint@,
    ]);
    v
}

/// The arguments of `unshare` before the script: a private mount namespace
/// that dies with its parent.
pub open spec fn unshare_texts() -> Seq<Seq<char>> {
    seq![
        "--mount"@,
        "--map-root-user"@,
        "--fork"@,
        "--kill-child"@,
        "--propagation"@,
        "private"@,
        "sh"@,
        "-c"@,
    ]
}

/// The arguments of `unshare` that run `script` under the name `zero` with
/// these arguments.
pub fn unshare_args(script: &str, zero: &str, args: &Vec<String>) -> (r: Vec<String>)
    ensures
        text::texts(r@) == unshare_texts() + seq![script@, zero@] + text::texts(args@),
        text::texts(r@) == seq![
            "--mount"@,
            "--map-root-user"@,
            "--fork"@,
            "--kill-child"@,
            "--propagation"@,
            "private"@,
            "sh"@,
            "-c"@,
            script@,
            zero@,
        ] + text::texts(args@),
{
    let mut v: Vec<String> = Vec::new();
    v.push("--mount".to_owned());
    v.push("--map-root-user".to_owned());
    v.push("--fork".to_owned());
    v.push("--kill-child".to_owned());
    v.push("--propagation".to_owned());
    v.push("private".to_owned());
    v.push("sh".to_owned());
    v.push("-c".to_owned());
    v.push(script.to_owned());
    v.push(zero.to_owned());
    let ghost head = unshare_texts() + seq![script@, zero@];
    assert(text::texts(v@) =~= head + text::texts(args@).take(0));
    let mut i: usize = 0;
    while i < args.len()
        invariant
            i <= args@.len(),
            text::texts(v@) == head + text::texts(args@).take(i as int),
        decreases args@.len() - i,
    {
        let ghost v0 = v@;
        v.push(args[i].clone());
        assert(text::texts(v@) =~= text::texts(v0).push(args@[i as int]@));
        assert(text::texts(v@) =~= head + text::texts(args@).take(i + 1));
        i = i + 1;
    }
    assert(text::texts(args@).take(args@.len() as int) =~= text::texts(args@));
    assert(head =~= seq![
        "--mount"@,
        "--map-root-user"@,
        "--fork"@,
        "--kill-child"@,
        "--propagation"@,
        "private"@,
        "sh"@,
        "-c"@,
        script@,
        zero@,
    ]);
    v
}

/// The script that tries a kernel overlay in a user namespace.
pub const PROBE_SCRIPT: &'static str =
    "mount -t overlay overlay -o \"lowerdir=$1,upperdir=$2,workdir=$3\" \"$4\"";

/// The script that makes the overlay in a user namespace and becomes the
/// command. It waits for the pid file first, so that a crash right after the
/// start leaves no mount that no pid file records. The variables that it needs
/// do not reach the command.
pub const WRAPPER: &'static str =
    "set -e\ni=0\nwhile [ ! -f \"$COWT_PIDFILE\" ]; do\n  i=$((i+1))\n  [ $i -ge 500 ] && exit 1\n  sleep 0.01\ndone\nmount -t overlay overlay -o \"lowerdir=$COWT_LOWER,upperdir=$COWT_UPPER,workdir=$COWT_WORK\" \"$COWT_MNT\"\nunset COWT_LOWER COWT_UPPER COWT_WORK COWT_MNT COWT_PIDFILE\nexec \"$@\"";

/// The directory in which a strategy is tried.
pub fn probe_dir(temp: &str, pid: u32) -> (r: String)
    ensures
        r@ == path::joined(HostOs::Linux, temp@, "cowt-probe-"@ + number::decimal(pid as nat)),
{
    let p = decimal_text(pid as u128);
    let name = cat2("cowt-probe-", p.as_str());
    join_path(HostOs::Linux, temp, name.as_str())
}

/// What a call of the `fuse-overlayfs` program gave.
#[derive(Clone, Copy, Debug, PartialEq, Eq, Structural)]
pub enum Program {
    Missing,
    Failed,
    Works,
}

/// Why the backend cannot be used.
#[derive(Clone, Copy, Debug, PartialEq, Eq, Structural)]
pub enum Unavailable {
    NoDevice,
    NoProgram,
    BadProgram,
}

/// Whether the backend can be used. A kernel overlay was tried already; the
/// user-space one needs the device and the program.
pub fn available(mode: Mode, dev_fuse: bool, program: Program) -> (r: Result<(), Unavailable>)
    ensures
        r == if mode != Mode::Fuse {
            Ok(())
        } else if !dev_fuse {
            Err(Unavailable::NoDevice)
        } else {
            match program {
                Program::Missing => Err(Unavailable::NoProgram),
                Program::Failed => Err(Unavailable::BadProgram),
                Program::Works => Ok(()),
            }
        },
{
    match mode {
        Mode::KernelDirect => Ok(()),
        Mode::KernelUserns => Ok(()),
        Mode::Fuse => {
            if !dev_fuse {
                return Err(Unavailable::NoDevice);
            }
            match program {
                Program::Missing => Err(Unavailable::NoProgram),
                Program::Failed => Err(Unavailable::BadProgram),
                Program::Works => Ok(()),
            }
        },
    }
}

impl Unavailable {
    /// The text of the error.
    pub open spec fn text(self) -> Seq<char> {
        match self {
            Unavailable::NoDevice => "/dev/fuse is missing: FUSE is not available on this host"@,
            Unavailable::NoProgram =>
                "fuse-overlayfs not found in PATH (install the 'fuse-overlayfs' package)"@,
            Unavailable::BadProgram => "fuse-overlayfs --version failed"@,
        }
    }

    /// The text of the error.
    pub fn message(self) -> (r: &'static str)
        ensures
            r@ == self.text(),
            self is NoDevice ==> r@ == "/dev/fuse is missing: FUSE is not available on this host"@,
            self is NoProgram ==> r@
                == "fuse-overlayfs not found in PATH (install the 'fuse-overlayfs' package)"@,
            self is BadProgram ==> r@ == "fuse-overlayfs --version failed"@,
    {
        match self {
            Unavailable::NoDevice => "/dev/fuse is missing: FUSE is not available on this host",
            Unavailable::NoProgram =>
                "fuse-overlayfs not found in PATH (install the 'fuse-overlayfs' package)",
            Unavailable::BadProgram => "fuse-overlayfs --version failed",
        }
    }
}

/// The word for an overlay of this mode.
pub open spec fn overlay_word(mode: Mode) -> Seq<char> {
    if mode == Mode::Fuse {
        "fuse-overlayfs"@
    } else {
        "kernel overlay"@
    }
}

fn overlay_name(mode: Mode) -> (r: &'static str)
    ensures
        r@ == overlay_word(mode),
        mode is Fuse ==> r@ == "fuse-overlayfs"@,
        !(mode is Fuse) ==> r@ == "kernel overlay"@,
{
    match mode {
        Mode::Fuse => "fuse-overlayfs",
        _ => "kernel overlay",
    }
}

/// The error for an overlay that could not be mounted.
pub fn mount_failed_message(mode: Mode, mountpoint: &str) -> (r: String)
    ensures
        r@ == overlay_word(mode) + " mount failed at "@ + mountpoint@,
        mode is Fuse ==> r@ == "fuse-overlayfs"@ + " mount failed at "@ + mountpoint@,
        !(mode is Fuse) ==> r@ == "kernel overlay"@ + " mount failed at "@ + mountpoint@,
{
    cat3(overlay_name(mode), " mount failed at ", mountpoint)
}

/// The note about an overlay that is in place, or, in a user namespace, about
/// to be.
pub fn overlay_note(mode: Mode, mountpoint: &str, upper: &str) -> (r: String)
    ensures
        r@ == "cowt: "@ + overlay_word(mode) + if mode == Mode::KernelUserns {
            " (user namespace) over "@
        } else {
            " mounted at "@
        } + mountpoint@ + " (upper: "@ + upper@ + ")"@,
{
    let how = match mode {
        Mode::KernelUserns => " (user namespace) over ",
        _ => " mounted at ",
    };
    cat5("cowt: ", overlay_name(mode), how, mountpoint, " (upper: ").concat(upper).concat(")")
}

} // verus!
