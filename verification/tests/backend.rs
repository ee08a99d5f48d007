use cowt::backend::{
    default_backend, exit_code_and_desc, foreign_mount_message, process_group,
    recover_stale_mount, spawn_error_code, Backend, ChildSignalGuard, FuseOverlayfs, FuseT,
    HostBackend, Mode, MountGuard, Recovery, SpawnError, Unsupported, WinFspBackend,
};
use cowt::cli::{
    dispatch, error_line, exit_code, ApplyArgs, Call, Cli, Cmd, DiffArgs, DropArgs, Ending,
    ForkArgs, RunArgs,
};
use cowt::host::{case_fold_host, HostOs};
use cowt::pidfile::ProcProbe;
use cowt::state::State;

#[test]
fn backends_have_names() {
    assert_eq!(FuseOverlayfs { mode: Mode::KernelDirect }.name(), "kernel-overlay");
    assert_eq!(FuseOverlayfs { mode: Mode::KernelUserns }.name(), "kernel-overlay+userns");
    assert_eq!(FuseOverlayfs { mode: Mode::Fuse }.name(), "fuse-overlayfs");
    assert_eq!(FuseT.name(), "fuse-t");
    assert_eq!(WinFspBackend.name(), "winfsp");
    let none = Unsupported::new("none", "no VFS backend exists for this platform");
    assert_eq!(none.name(), "none");
    assert_eq!(
        none.err(),
        "backend 'none' unavailable: no VFS backend exists for this platform"
    );
}

#[test]
fn the_platform_chooses_the_backend() {
    assert_eq!(default_backend(HostOs::Linux, Mode::Fuse).name(), "fuse-overlayfs");
    assert_eq!(default_backend(HostOs::MacOs, Mode::Fuse).name(), "fuse-t");
    assert_eq!(default_backend(HostOs::Windows, Mode::Fuse).name(), "winfsp");
    assert!(matches!(default_backend(HostOs::Other, Mode::Fuse), HostBackend::Missing(_)));
    assert!(case_fold_host(HostOs::MacOs) && case_fold_host(HostOs::Windows));
    assert!(!case_fold_host(HostOs::Linux) && !case_fold_host(HostOs::Other));
}

#[test]
fn signals_go_to_the_tracked_child_only() {
    let mut g = ChildSignalGuard::track(4242);
    assert_eq!(g.forward_to(), Some(4242));
    g.clear();
    assert_eq!(g.forward_to(), None);
    assert_eq!(ChildSignalGuard::track(0).forward_to(), None);
    assert_eq!(ChildSignalGuard::track(u32::MAX).forward_to(), None);
    assert_eq!(process_group(4242), Some(-4242));
    assert_eq!(process_group(0), None);
    assert_eq!(process_group(u32::MAX), None);
}

#[test]
fn run_reports_signal_killed_child() {
    assert_eq!(exit_code_and_desc(Some(9), None), (137, "killed by signal 9".to_string()));
    assert_eq!(exit_code_and_desc(None, Some(3)), (3, "exited with code 3".to_string()));
    assert_eq!(exit_code_and_desc(None, Some(-1)), (-1, "exited with code -1".to_string()));
    assert_eq!(exit_code_and_desc(None, None), (1, "exited with code 1".to_string()));
}

#[test]
fn run_missing_command_exits_127() {
    assert_eq!(spawn_error_code(SpawnError::NotFound), Some(127));
    assert_eq!(spawn_error_code(SpawnError::PermissionDenied), Some(126));
    assert_eq!(spawn_error_code(SpawnError::Other), None);
}

#[test]
fn a_guard_unmounts_unless_disarmed() {
    let mut g = MountGuard::new("/m".to_string());
    assert_eq!(g.on_drop(), Some("/m".to_string()));
    assert_eq!(g.teardown(), "/m");
    assert_eq!(g.on_drop(), None);
    let mut h = MountGuard::new("/m".to_string());
    h.disarm();
    assert_eq!(h.on_drop(), None);
}

#[test]
fn garbage_pidfile_does_not_poison_mount_ownership() {
    // A file that is no text is not read at all.
    for garbage in [Some("".to_string()), Some("\u{0}garbage\n".to_string()), None] {
        let probe = ProcProbe { alive: false, starttime: None };
        assert_eq!(State::running_pid(garbage.clone(), probe), None);
        let stale = State::stale_run(garbage, probe);
        assert_eq!(recover_stale_mount(true, stale, false), Recovery::Refuse);
        assert_eq!(recover_stale_mount(false, stale, false), Recovery::NotMounted);
    }
    assert_eq!(recover_stale_mount(false, true, true), Recovery::NotMounted);
    assert_eq!(recover_stale_mount(true, true, false), Recovery::Unmount);
    assert_eq!(recover_stale_mount(true, false, true), Recovery::Unmount);
    assert_eq!(recover_stale_mount(true, false, false), Recovery::Refuse);
    assert_eq!(
        foreign_mount_message("/t"),
        "/t is already a mountpoint; refusing to stack a second overlay"
    );
}

#[test]
fn command_lines_are_dispatched() {
    let c = dispatch(Cli {
        cmd: Cmd::Fork { path: "p".to_string(), name: None, force_path: true },
    });
    let Call::Fork(ForkArgs { path, name, force_path }) = c else { panic!("fork") };
    assert_eq!((path.as_str(), name, force_path), ("p", None, true));
    let c = dispatch(Cli { cmd: Cmd::Run { id: "i".to_string(), cmd: vec!["ls".to_string()] } });
    let Call::Run(RunArgs { id, cmd }) = c else { panic!("run") };
    assert_eq!((id.as_str(), cmd.len()), ("i", 1));
    let c = dispatch(Cli {
        cmd: Cmd::Diff { id: "i".to_string(), json: true, content: false, stat: true },
    });
    let Call::Diff(DiffArgs { json, content, stat, .. }) = c else { panic!("diff") };
    assert_eq!((json, content, stat), (true, false, true));
    let c = dispatch(Cli { cmd: Cmd::Apply { id: "i".to_string(), dry_run: true, json: false } });
    let Call::Apply(ApplyArgs { dry_run, json, .. }) = c else { panic!("apply") };
    assert_eq!((dry_run, json), (true, false));
    let c = dispatch(Cli { cmd: Cmd::Drop { id: "i".to_string(), force: true } });
    assert!(matches!(c, Call::Drop(DropArgs { force: true, .. })));
    assert!(matches!(dispatch(Cli { cmd: Cmd::List { json: true } }), Call::List { json: true }));
    let c = dispatch(Cli { cmd: Cmd::Status { id: "i".to_string(), json: false } });
    assert!(matches!(c, Call::Status { json: false, .. }));
    assert!(matches!(dispatch(Cli { cmd: Cmd::Doctor }), Call::Doctor));
    assert_eq!(exit_code(Ending::Failed), 1);
    assert_eq!(exit_code(Ending::Done), 0);
    assert_eq!(exit_code(Ending::Code(3)), 3);
    assert_eq!(error_line("x"), "cowt: error: x");
}
