use cowt::backend::{default_backend, HostBackend, Mode};
use cowt::host::HostOs;
use cowt::mounting::{
    crosses_message, find_state_for, foreign_link_message, foreign_view_message, is_cowt_view,
    is_mounted, is_mounted_now, is_view_name, lost_message, mount, mount_is_ours, mounted_message,
    restore, restore_context, restore_refused, stranded_message, unmount, unmount_best_effort,
    unmount_failed_message, unmount_start, Layout, MountAsk, MountError, PointProbe, Reply,
    RestoreAsk, Standing, StateEntry, Tool, UnmountAsk, UnmountError, UnmountReply, ViewProbe,
};

fn backend(os: HostOs) -> HostBackend {
    default_backend(os, Mode::Fuse)
}

#[test]
fn the_layout_lies_beside_the_layer() {
    let l = Layout::from_upper(HostOs::Linux, "/s/abc/upper");
    assert_eq!((l.real.as_str(), l.view.as_str()), ("/s/abc/real", "/s/abc/view"));
}

#[test]
fn mounts_are_recognised_by_platform() {
    let table = Some("overlay /t overlay rw 0 0\n".to_string());
    let bare = PointProbe { is_symlink: false, link_reads: false, stranded: false };
    assert!(is_mounted(&backend(HostOs::Linux), table.clone(), bare, "/t"));
    assert!(!is_mounted(&backend(HostOs::MacOs), table.clone(), bare, "/t"));
    let link = PointProbe { is_symlink: true, ..bare };
    assert!(is_mounted(&backend(HostOs::MacOs), None, link, "/t"));
    let stranded = PointProbe { stranded: true, ..bare };
    assert!(is_mounted(&backend(HostOs::MacOs), None, stranded, "/t"));
    assert!(is_mounted(&backend(HostOs::Windows), None, stranded, "/t"));
    assert!(!is_mounted(&backend(HostOs::Windows), None, bare, "/t"));
    let junction = PointProbe { link_reads: true, ..bare };
    assert!(is_mounted(&backend(HostOs::Windows), None, junction, "/t"));
    assert!(!is_mounted(&backend(HostOs::Other), table.clone(), junction, "/t"));
    assert!(mount_is_ours(HostOs::Linux, table.clone(), "/t"));
    assert!(!mount_is_ours(HostOs::Linux, None, "/t"));
    assert!(mount_is_ours(HostOs::MacOs, None, "/t"));
}

#[test]
fn a_stranded_worktree_is_found_by_its_target() {
    let entries = vec![
        StateEntry { dir: "/s/a".to_string(), target: None },
        StateEntry { dir: "/s/b".to_string(), target: Some("/home/u/app/".to_string()) },
        StateEntry { dir: "/s/c".to_string(), target: Some("/home/u/app".to_string()) },
    ];
    assert_eq!(find_state_for(HostOs::Linux, &entries, "/home/u/app"), Some("/s/b".to_string()));
    assert_eq!(find_state_for(HostOs::Linux, &entries, "/home/u"), None);
}

#[test]
fn only_views_of_this_tool_are_recognised() {
    let held = ViewProbe { meta: false, manifest: false, upper: true };
    let bare = ViewProbe { meta: false, manifest: false, upper: false };
    assert!(is_cowt_view(HostOs::MacOs, "/s/abc/view", "/s", held));
    assert!(!is_cowt_view(HostOs::MacOs, "/s/abc/view", "/s", bare));
    assert!(!is_cowt_view(HostOs::MacOs, "/data/view", "/s", held));
    assert!(!is_cowt_view(HostOs::MacOs, "/s/abc/other", "/s", held));
    assert!(is_view_name(HostOs::Linux, "/anything/view"));
    assert!(!is_view_name(HostOs::Linux, "/anything/else"));
}

#[test]
fn host_directories_are_put_back() {
    assert_eq!(restore(false, Standing::Other), RestoreAsk::Done);
    assert_eq!(restore(true, Standing::Nothing), RestoreAsk::MoveBack);
    assert_eq!(restore(true, Standing::Directory), RestoreAsk::RemoveEmptyDir);
    assert_eq!(restore(true, Standing::Other), RestoreAsk::Refuse);
    assert_eq!(restore_refused("/t"), "/t exists and is not a directory; refusing to restore");
    assert_eq!(restore_context("/t", "/s/a/real"), "restore /t from /s/a/real");
}

fn mount_with(fails: MountAsk) -> (Vec<MountAsk>, MountAsk) {
    let mut ask = MountAsk::Check;
    let mut seen = Vec::new();
    while !matches!(ask, MountAsk::Mounted | MountAsk::Stop(_)) {
        seen.push(ask);
        let reply = if ask == fails || ask == MountAsk::ProbeLink { Reply::No } else { Reply::Yes };
        ask = mount(ask, reply);
    }
    (seen, ask)
}

#[test]
fn a_failed_mount_puts_the_host_directory_back() {
    for (step, error) in [
        (MountAsk::MakeView, MountError::MakeView),
        (MountAsk::MakeLink, MountError::MakeLink),
        (MountAsk::MountView, MountError::MountView),
    ] {
        let (seen, end) = mount_with(step);
        assert_eq!(end, MountAsk::Stop(error));
        assert!(seen.contains(&MountAsk::Unlink(error)));
        assert_eq!(seen[seen.len() - 1], MountAsk::RestoreBack(error));
    }
    let (seen, end) = mount_with(MountAsk::MoveAside);
    assert_eq!(end, MountAsk::Stop(MountError::MoveAside));
    assert!(!seen.iter().any(|a| matches!(a, MountAsk::RestoreBack(_))));
    let (seen, end) = mount_with(MountAsk::Check);
    assert_eq!((seen.len(), end), (1, MountAsk::Stop(MountError::Unavailable)));
    let (seen, end) = mount_with(MountAsk::Mounted);
    assert_eq!((seen.len(), end), (7, MountAsk::Mounted));
}

#[test]
fn links_in_the_way() {
    assert_eq!(mount(MountAsk::ProbeLink, Reply::Yes), MountAsk::ProbeReal);
    assert_eq!(mount(MountAsk::ProbeReal, Reply::No), MountAsk::Stop(MountError::ForeignLink));
    assert_eq!(mount(MountAsk::ProbeReal, Reply::Yes), MountAsk::RestoreStale);
    assert_eq!(mount(MountAsk::RestoreStale, Reply::No), MountAsk::Stop(MountError::StaleRestore));
    assert_eq!(mount(MountAsk::RestoreStale, Reply::Yes), MountAsk::ClearView);
    assert_eq!(
        mount(MountAsk::MoveAside, Reply::Crosses),
        MountAsk::Stop(MountError::CrossesVolumes)
    );
}

#[test]
fn overlays_are_taken_down_by_the_first_tool_that_works() {
    let b = backend(HostOs::Linux);
    assert_eq!(unmount_start(&b), UnmountAsk::CheckMounted);
    assert_eq!(unmount(&b, UnmountAsk::CheckMounted, UnmountReply::No), UnmountAsk::Done);
    let mut ask = unmount(&b, UnmountAsk::CheckMounted, UnmountReply::Yes);
    let mut tools = Vec::new();
    while let UnmountAsk::Run(t) = ask {
        tools.push(t);
        ask = unmount(&b, ask, UnmountReply::No);
    }
    assert_eq!(tools, vec![Tool::Fusermount3, Tool::Fusermount, Tool::Umount]);
    assert_eq!(ask, UnmountAsk::Stop(UnmountError::Tools));
    let done = unmount(&b, UnmountAsk::Run(Tool::Fusermount), UnmountReply::Yes);
    assert_eq!(done, UnmountAsk::Done);
}

#[test]
fn links_are_taken_down_only_where_they_are_ours() {
    let mac = backend(HostOs::MacOs);
    let win = backend(HostOs::Windows);
    assert_eq!(
        unmount(&mac, UnmountAsk::ReadLink, UnmountReply::Foreign),
        UnmountAsk::Stop(UnmountError::ForeignLink)
    );
    assert_eq!(unmount(&mac, UnmountAsk::ReadLink, UnmountReply::No), UnmountAsk::FindState);
    assert_eq!(unmount(&win, UnmountAsk::ReadLink, UnmountReply::No), UnmountAsk::FindState);
    assert_eq!(unmount(&mac, UnmountAsk::FindState, UnmountReply::No), UnmountAsk::Done);
    assert_eq!(
        unmount(&mac, UnmountAsk::FindState, UnmountReply::Yes),
        UnmountAsk::RestoreStranded
    );
    assert_eq!(
        unmount(&mac, UnmountAsk::RestoreStranded, UnmountReply::No),
        UnmountAsk::Stop(UnmountError::Restore)
    );
    let mut ask = UnmountAsk::ReadLink;
    let mut seen = Vec::new();
    while ask != UnmountAsk::Done {
        seen.push(ask);
        let r = if ask == UnmountAsk::ReadLink { UnmountReply::View } else { UnmountReply::Yes };
        ask = unmount(&mac, ask, r);
    }
    assert_eq!(
        seen,
        vec![
            UnmountAsk::ReadLink,
            UnmountAsk::CheckReal,
            UnmountAsk::ClearView,
            UnmountAsk::RemoveLink,
            UnmountAsk::Restore
        ]
    );
    assert_eq!(
        unmount(&win, UnmountAsk::ReadLink, UnmountReply::View),
        UnmountAsk::ClearView
    );
    assert_eq!(
        unmount(&win, UnmountAsk::RemoveLink, UnmountReply::No),
        UnmountAsk::Stop(UnmountError::RemoveLink)
    );
    assert_eq!(unmount_best_effort(HostOs::Linux, Mode::Fuse), UnmountAsk::CheckMounted);
    assert_eq!(unmount_best_effort(HostOs::MacOs, Mode::Fuse), UnmountAsk::ReadLink);
    assert_eq!(
        unmount_best_effort(HostOs::Other, Mode::Fuse),
        UnmountAsk::Stop(UnmountError::Unsupported)
    );
}

#[test]
fn mount_messages() {
    assert_eq!(
        foreign_link_message(HostOs::MacOs, "/t"),
        "/t is a symlink but no moved-aside directory was found; refusing to touch a foreign symlink"
    );
    assert_eq!(
        foreign_link_message(HostOs::Windows, "/t"),
        "/t is a junction but no moved-aside directory was found; refusing to touch a foreign junction"
    );
    assert!(crosses_message("/t", "/r").starts_with("cannot move /t to /r: state dir is on"));
    assert_eq!(
        mounted_message("FUSE-T", "/t", "/u", "/r"),
        "cowt: FUSE-T mounted at /t (upper: /u, host dir moved to /r)"
    );
    assert_eq!(
        stranded_message("e", "/r"),
        "cowt: warning: restore of the host directory failed: e — it is still at /r"
    );
    assert_eq!(unmount_failed_message("/t"), "failed to unmount /t");
    assert_eq!(
        foreign_view_message(HostOs::MacOs, "/t", "/x/view"),
        "symlink at /t points at /x/view (not a cowt view under the state root); refusing to touch it"
    );
    assert_eq!(
        foreign_view_message(HostOs::Windows, "/t", "/x"),
        "junction at /t points at /x (not a cowt view); refusing to touch it"
    );
    assert!(lost_message("/t").contains("the host directory at /t may have been lost"));
    assert!(is_mounted_now("fuse-t:/cowt on /s/a/view (nfs)\n", "/s/a/view"));
    assert!(!is_mounted_now("fuse-t:/cowt on /s/a/viewer (nfs)\n", "/s/a/view"));
}

#[test]
fn windows_layouts_and_views() {
    let l = Layout::from_upper(HostOs::Windows, "C:\\st\\id\\upper");
    assert_eq!((l.real.as_str(), l.view.as_str()), ("C:\\st\\id\\real", "C:\\st\\id\\view"));
    let l = Layout::from_state(HostOs::Windows, "C:\\st\\id");
    assert_eq!((l.real.as_str(), l.view.as_str()), ("C:\\st\\id\\real", "C:\\st\\id\\view"));
    assert!(is_view_name(HostOs::Windows, "C:\\st\\id\\view"));
    assert!(is_view_name(HostOs::Windows, "C:/st/id/view/"));
    assert!(!is_view_name(HostOs::Windows, "C:\\st\\id\\real"));
    assert!(!is_view_name(HostOs::Windows, "C:\\"));
    assert!(!is_view_name(HostOs::Linux, "C:\\st\\id\\view"));
    let entries = vec![StateEntry {
        dir: "C:\\s\\b".to_string(),
        target: Some("C:\\Users\\u\\app".to_string()),
    }];
    let at = |p: &str| find_state_for(HostOs::Windows, &entries, p);
    assert_eq!(at("c:/Users/u/app"), Some("C:\\s\\b".to_string()));
    assert_eq!(at("C:\\Users\\u"), None);
}
