use cowt::dropping::{
    damaged_meta, drop_cmd, dropped_message, own_leftover, survived_message, sweep_trash, terminate, trash_name,
    trash_warning, DropAsk, DropFacts, DropRefusal, DropReply, EndAsk, TrashStep, Vital,
};
use cowt::host::HostOs;
use cowt::state::valid_id_or_name;

fn drive(force: bool, answer: impl Fn(DropAsk) -> Option<DropReply>) -> (Vec<DropAsk>, DropAsk) {
    let mut ask = DropAsk::Open;
    let mut seen = Vec::new();
    while !matches!(ask, DropAsk::Report | DropAsk::Refuse(_)) {
        seen.push(ask);
        let r = match answer(ask) {
            Some(r) => r,
            None => match ask {
                DropAsk::LoadMeta => DropReply::Meta { target_known: true },
                DropAsk::CheckRunning { .. } => DropReply::Pid(None),
                DropAsk::ProbeMount { .. } => {
                    DropReply::Mount { mounted: false, leftover: false, ours: false }
                }
                DropAsk::CheckMounted | DropAsk::CheckHost | DropAsk::CheckMoved => DropReply::No,
                _ => DropReply::Yes,
            },
        };
        ask = drop_cmd(force, ask, r);
    }
    (seen, ask)
}

#[test]
fn drop_removes_all_state() {
    let (seen, end) = drive(false, |_| None);
    assert_eq!(end, DropAsk::Report);
    assert_eq!(
        &seen[3..],
        [
            DropAsk::ProbeMount { tries: 0 },
            DropAsk::CheckMounted,
            DropAsk::SweepTrash,
            DropAsk::CheckHost,
            DropAsk::MoveAside,
            DropAsk::CheckMoved,
            DropAsk::Delete { tries: 0 },
        ]
    );
}

#[test]
fn drop_refuses_while_running() {
    let running = |a: DropAsk| match a {
        DropAsk::CheckRunning { .. } => Some(DropReply::Pid(Some(4242))),
        _ => None,
    };
    let (seen, end) = drive(false, running);
    assert_eq!(end, DropAsk::Refuse(DropRefusal::Running(4242)));
    assert_eq!(seen.len(), 3);
    let (seen, end) = drive(true, running);
    assert_eq!(end, DropAsk::Report);
    assert!(seen.contains(&DropAsk::Terminate { pid: 4242, known: true }));
    let survives = |a: DropAsk| match a {
        DropAsk::CheckRunning { .. } => Some(DropReply::Pid(Some(4242))),
        DropAsk::Terminate { .. } => Some(DropReply::No),
        _ => None,
    };
    let (_, end) = drive(true, survives);
    assert_eq!(end, DropAsk::Refuse(DropRefusal::Survived(4242)));
}

#[test]
fn drop_recovers_corrupt_meta() {
    let damaged = |a: DropAsk| match a {
        DropAsk::LoadMeta => Some(DropReply::No),
        _ => None,
    };
    let (_, end) = drive(false, damaged);
    assert_eq!(end, DropAsk::Refuse(DropRefusal::Damaged));
    let (seen, end) = drive(true, damaged);
    assert_eq!(end, DropAsk::Report);
    assert!(!seen.iter().any(|a| matches!(a, DropAsk::ProbeMount { .. })));
    let m = damaged_meta("abc");
    assert_eq!((m.id.as_str(), m.target.as_str(), m.name), ("abc", "", None));
}

#[test]
fn foreign_mounts_are_never_taken_down() {
    for (leftover, ours) in [(false, true), (true, false), (false, false)] {
        let mounted = |a: DropAsk| match a {
            DropAsk::ProbeMount { .. } => {
                Some(DropReply::Mount { mounted: true, leftover, ours })
            }
            DropAsk::CheckBlocked => Some(DropReply::No),
            _ => None,
        };
        let (seen, end) = drive(true, mounted);
        assert_eq!(end, DropAsk::Refuse(DropRefusal::ForeignMount));
        assert!(!seen.iter().any(|a| matches!(a, DropAsk::Unmount { .. })));
    }
}

#[test]
fn a_mount_that_stays_is_given_up() {
    let stuck = |a: DropAsk| match a {
        DropAsk::ProbeMount { .. } => {
            Some(DropReply::Mount { mounted: true, leftover: true, ours: true })
        }
        DropAsk::CheckMounted => Some(DropReply::Yes),
        _ => None,
    };
    let (seen, end) = drive(true, stuck);
    assert_eq!(end, DropAsk::Refuse(DropRefusal::Blocked));
    assert_eq!(seen.iter().filter(|a| matches!(a, DropAsk::Unmount { .. })).count(), 30);
    let (_, end) = drive(false, stuck);
    assert_eq!(end, DropAsk::Refuse(DropRefusal::StillMounted));
}

#[test]
fn the_host_directory_is_never_deleted() {
    let held = |a: DropAsk| match a {
        DropAsk::CheckHost => Some(DropReply::Yes),
        _ => None,
    };
    let (seen, end) = drive(true, held);
    assert_eq!(end, DropAsk::Refuse(DropRefusal::HoldsHost));
    assert!(!seen.contains(&DropAsk::MoveAside));
    let raced = |a: DropAsk| match a {
        DropAsk::CheckMoved => Some(DropReply::Yes),
        _ => None,
    };
    let (seen, end) = drive(true, raced);
    assert_eq!(end, DropAsk::Refuse(DropRefusal::RolledBack));
    assert_eq!(seen[seen.len() - 1], DropAsk::MoveBack);
}

#[test]
fn deletion_is_retried() {
    let busy = |a: DropAsk| match a {
        DropAsk::Delete { tries } if tries < 29 => Some(DropReply::No),
        _ => None,
    };
    assert_eq!(drive(false, busy).1, DropAsk::Report);
    let never = |a: DropAsk| match a {
        DropAsk::Delete { .. } => Some(DropReply::No),
        _ => None,
    };
    let (seen, end) = drive(false, never);
    assert_eq!(end, DropAsk::Refuse(DropRefusal::System));
    assert_eq!(seen.iter().filter(|a| matches!(a, DropAsk::Delete { .. })).count(), 30);
}

#[test]
fn trash_sweep_preserves_real_holding_trash() {
    assert_eq!(sweep_trash(".trash-deadbeef-1", true), TrashStep::Warn);
    assert_eq!(sweep_trash(".trash-deadbeef-1", false), TrashStep::Remove);
    assert_eq!(sweep_trash("abc", false), TrashStep::Leave);
    assert_eq!(trash_name("abc", 12), ".trash-abc-12");
    assert_eq!(
        trash_warning("/s/.trash-deadbeef-1"),
        "cowt: warning: /s/.trash-deadbeef-1 still holds a moved-aside host dir; not sweeping it"
    );
}

#[test]
fn status_refuses_trash_name() {
    assert_eq!(trash_name("abc", 1), ".trash-abc-1");
    assert!(!valid_id_or_name(HostOs::Linux, ".trash-abc-1"));
}

fn end(os: HostOs, dies_after: usize, zombie: bool) -> (usize, EndAsk) {
    let mut ask = EndAsk::Signal;
    let mut probes = 0;
    while !matches!(ask, EndAsk::Gone | EndAsk::Survived) {
        let probing = matches!(ask, EndAsk::Probe { .. } | EndAsk::ProbeKilled { .. });
        let v = Vital { alive: probes < dies_after, zombie };
        if probing {
            probes += 1;
        }
        ask = terminate(os, ask, v);
    }
    (probes, ask)
}

#[test]
fn processes_are_asked_then_killed() {
    assert_eq!(end(HostOs::Linux, 0, false), (1, EndAsk::Gone));
    assert_eq!(end(HostOs::Linux, 25, false), (26, EndAsk::Gone));
    assert_eq!(end(HostOs::Linux, 1000, false), (40, EndAsk::Survived));
    assert_eq!(end(HostOs::Linux, 1000, true), (21, EndAsk::Gone));
    assert_eq!(end(HostOs::Windows, 1000, false), (50, EndAsk::Survived));
    assert_eq!(end(HostOs::Windows, 49, false), (50, EndAsk::Gone));
}

#[test]
fn drop_errors() {
    let f = DropFacts {
        id: "abc".to_string(),
        target: "/t".to_string(),
        dir: "/s/abc".to_string(),
        aside: "/s/abc/real".to_string(),
        trashed: "/s/.trash-abc-1/real".to_string(),
        system: "sys".to_string(),
    };
    let m = |e: DropRefusal| e.message(HostOs::Linux, &f);
    assert_eq!(
        m(DropRefusal::Damaged),
        "worktree state at /s/abc has an unreadable meta.json (sys); use --force to discard the damaged worktree"
    );
    assert_eq!(
        m(DropRefusal::Running(7)),
        "worktree 'abc' has a running process (pid 7); refusing to drop. Stop it or use --force."
    );
    assert_eq!(m(DropRefusal::Survived(7)), survived_message(HostOs::Linux, 7));
    assert!(survived_message(HostOs::Linux, 7).starts_with("process 7 survived SIGKILL"));
    assert!(survived_message(HostOs::Windows, 7).starts_with("process 7 survived taskkill /F"));
    assert_eq!(
        m(DropRefusal::StillMounted),
        "/t is still mounted; refusing to drop. Unmount it or use --force."
    );
    assert!(m(DropRefusal::Blocked).contains("host dir still moved aside at /s/abc/real"));
    assert!(m(DropRefusal::ForeignMount).starts_with("/t is mounted by something else"));
    assert!(m(DropRefusal::HoldsHost).starts_with("the host directory is still moved aside at /s/abc/real"));
    assert!(m(DropRefusal::RolledBack).contains("moved aside into /s/.trash-abc-1/real during drop"));
    assert_eq!(m(DropRefusal::System), "sys");
    assert_eq!(
        dropped_message("a\u{1b}", "/t"),
        "dropped worktree a\u{fffd} (/t): isolated data deleted, host directory untouched"
    );
}

#[test]
fn a_mount_is_proven_to_be_a_leftover() {
    assert!(own_leftover(true, false, false));
    assert!(own_leftover(false, true, false));
    assert!(own_leftover(false, false, true));
    assert!(!own_leftover(false, false, false));
}
