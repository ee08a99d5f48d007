use cowt::backend::Mode;
use cowt::linux::{
    available, detect_mode, euid, is_mounted_proc, kernel_mount_args, mount_failed_message,
    mount_is_ours_proc, mount_upper_proves_ours, overlay_note, overlay_options, probe_dir,
    unshare_args, ModeAsk, Program, Unavailable, WRAPPER,
};

const MOUNTS: &str = "proc /proc proc rw 0 0\n\
overlay /home/u/my\\040app overlay rw,lowerdir=/l,upperdir=/s/abc/upper,workdir=/w 0 0\n\
sshfs /mnt/remote fuse.sshfs rw 0 0\n\
short\n";

fn mounts() -> Option<String> {
    Some(MOUNTS.to_string())
}

#[test]
fn strategies_are_tried_in_order() {
    assert_eq!(detect_mode(0, None, None), ModeAsk::ProbeDirect);
    assert_eq!(detect_mode(0, Some(true), None), ModeAsk::Use(Mode::KernelDirect));
    assert_eq!(detect_mode(0, Some(false), None), ModeAsk::ProbeUserns);
    assert_eq!(detect_mode(1000, None, None), ModeAsk::ProbeUserns);
    assert_eq!(detect_mode(1000, None, Some(true)), ModeAsk::Use(Mode::KernelUserns));
    assert_eq!(detect_mode(1000, None, Some(false)), ModeAsk::Use(Mode::Fuse));
}

#[test]
fn the_effective_user_is_the_second_number() {
    let s = "Name:\tcowt\nUid:\t1000\t0\t1000\t1000\nGid:\t1\t1\t1\t1\n";
    assert_eq!(euid(Some(s.to_string())), 0);
    assert_eq!(euid(Some("Uid:\t1000\n".to_string())), u32::MAX);
    assert_eq!(euid(Some("Uid:\t1000\tx\n".to_string())), u32::MAX);
    assert_eq!(euid(Some("Name: x\n".to_string())), u32::MAX);
    assert_eq!(euid(None), u32::MAX);
}

#[test]
fn the_table_of_mounts_is_read() {
    assert!(is_mounted_proc(mounts(), "/home/u/my app"));
    assert!(is_mounted_proc(mounts(), "/mnt/remote"));
    assert!(!is_mounted_proc(mounts(), "/home/u"));
    assert!(!is_mounted_proc(mounts(), "overlay"));
    assert!(!is_mounted_proc(None, "/mnt/remote"));
}

#[test]
fn foreign_mounts_are_told_apart() {
    assert!(mount_is_ours_proc(mounts(), "/home/u/my app"));
    assert!(!mount_is_ours_proc(mounts(), "/mnt/remote"));
    assert!(!mount_is_ours_proc(mounts(), "/proc"));
    let fuse = "fuse-overlayfs /a fuse.fuse-overlayfs rw 0 0\nfuse.overlayfs2 /b x rw 0 0\n";
    assert!(mount_is_ours_proc(Some(fuse.to_string()), "/a"));
    assert!(mount_is_ours_proc(Some(fuse.to_string()), "/b"));
    assert!(!mount_is_ours_proc(None, "/a"));
}

#[test]
fn the_upper_option_proves_the_worktree() {
    assert!(mount_upper_proves_ours(mounts(), "/home/u/my app", "/s/abc"));
    assert!(!mount_upper_proves_ours(mounts(), "/home/u/my app", "/s/abd"));
    assert!(!mount_upper_proves_ours(mounts(), "/mnt/remote", "/s/abc"));
    assert!(!mount_upper_proves_ours(None, "/home/u/my app", "/s/abc"));
}

#[test]
fn commands_are_built() {
    let o = overlay_options("/l", "/u", "/w");
    assert_eq!(o, "lowerdir=/l,upperdir=/u,workdir=/w");
    assert_eq!(
        kernel_mount_args(&o, "/m"),
        vec!["-t", "overlay", "overlay", "-o", "lowerdir=/l,upperdir=/u,workdir=/w", "/m"]
    );
    let args = unshare_args("script", "cowt-run", &vec!["ls".to_string(), "-l".to_string()]);
    assert_eq!(args.len(), 12);
    assert_eq!(args[0], "--mount");
    assert_eq!(&args[6..], ["sh", "-c", "script", "cowt-run", "ls", "-l"]);
    assert_eq!(probe_dir("/tmp", 7), "/tmp/cowt-probe-7");
    assert!(WRAPPER.starts_with("set -e\n"));
    assert!(WRAPPER.ends_with("exec \"$@\""));
}

#[test]
fn availability() {
    assert_eq!(available(Mode::KernelDirect, false, Program::Missing), Ok(()));
    assert_eq!(available(Mode::KernelUserns, false, Program::Missing), Ok(()));
    assert_eq!(available(Mode::Fuse, false, Program::Works), Err(Unavailable::NoDevice));
    assert_eq!(available(Mode::Fuse, true, Program::Missing), Err(Unavailable::NoProgram));
    assert_eq!(available(Mode::Fuse, true, Program::Failed), Err(Unavailable::BadProgram));
    assert_eq!(available(Mode::Fuse, true, Program::Works), Ok(()));
    assert_eq!(
        Unavailable::NoDevice.message(),
        "/dev/fuse is missing: FUSE is not available on this host"
    );
    assert_eq!(
        Unavailable::NoProgram.message(),
        "fuse-overlayfs not found in PATH (install the 'fuse-overlayfs' package)"
    );
    assert_eq!(Unavailable::BadProgram.message(), "fuse-overlayfs --version failed");
    assert_eq!(
        mount_failed_message(Mode::KernelDirect, "/m"),
        "kernel overlay mount failed at /m"
    );
    assert_eq!(
        overlay_note(Mode::KernelUserns, "/m", "/u"),
        "cowt: kernel overlay (user namespace) over /m (upper: /u)"
    );
    assert_eq!(
        overlay_note(Mode::Fuse, "/m", "/u"),
        "cowt: fuse-overlayfs mounted at /m (upper: /u)"
    );
}
