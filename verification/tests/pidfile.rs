use cowt::host::HostOs;
use cowt::pidfile::{
    bsd_starttime, filetime_starttime, is_zombie, micros_starttime, pid_alive, pidfile_body,
    recorded_pid, stat_starttime, write_pidfile, PidfileAnswer, PidfileAsk, ProcProbe,
    ProcessAnswer, PROC_SHORTBSDINFO_SIZE, START_TVSEC_OFFSET, START_TVUSEC_OFFSET,
};
use cowt::state::State;

const OURS: ProcProbe = ProcProbe { alive: true, starttime: Some(77) };
const DEAD: ProcProbe = ProcProbe { alive: false, starttime: None };

fn file(s: &str) -> Option<String> {
    Some(s.to_string())
}

#[test]
fn proc_shortbsdinfo_layout_matches_libproc() {
    assert_eq!(PROC_SHORTBSDINFO_SIZE, 104);
    assert_eq!(START_TVSEC_OFFSET, 88);
    assert_eq!(START_TVUSEC_OFFSET, 96);
}

#[test]
fn start_time_is_read_out_of_the_bsd_info() {
    let mut info = vec![0xaau8; 104];
    info[88..96].copy_from_slice(&3u64.to_le_bytes());
    info[96..104].copy_from_slice(&250u64.to_le_bytes());
    assert_eq!(bsd_starttime(&info, 104), Some(3_000_250));
    assert_eq!(bsd_starttime(&info, 103), None);
    assert_eq!(bsd_starttime(&vec![0u8; 10], 104), None);
}

#[test]
fn running_pid_rejects_recycled_pid() {
    assert!(State::running_pid(file("4242:1"), OURS).is_none());
    assert_eq!(State::running_pid(file("4242"), OURS), Some(4242));
    assert_eq!(State::running_pid(file("4242:77"), OURS), Some(4242));
    assert_eq!(State::running_pid(None, OURS), None);
    assert_eq!(State::running_pid(file("4242"), DEAD), None);
}

#[test]
fn stale_run_refuses_unparseable_pidfile() {
    assert!(!State::stale_run(file(""), DEAD));
    assert!(!State::stale_run(file("not-a-pid\n"), DEAD));
    assert!(State::stale_run(file("999999999\n"), DEAD));
    assert!(!State::stale_run(None, DEAD));
}

#[test]
fn clear_running_if_owned_respects_ownership() {
    assert!(!State::clear_running_if_owned(file("4242"), 12345));
    assert!(State::clear_running_if_owned(file("4242"), 4242));
    assert!(State::clear_running_if_owned(file("4242:77\n"), 4242));
    assert!(!State::clear_running_if_owned(None, 4242));
}

#[test]
fn stale_run_detects_recycled_pid() {
    assert!(State::stale_run(file("4242:1"), OURS));
    assert!(!State::stale_run(file("4242:77"), OURS));
    assert!(!State::stale_run(file("4242"), OURS));
}

#[test]
fn a_damaged_start_time_proves_nothing() {
    for damaged in ["4242:x", "9:x", "999999999:junk", "4242:", "4242:1:2"] {
        for probe in [OURS, DEAD] {
            assert_eq!(State::running_pid(file(damaged), probe), None);
            assert!(!State::stale_run(file(damaged), probe), "{damaged}");
        }
    }
    assert!(State::stale_run(file("4242:1"), DEAD));
}

#[test]
fn the_pid_file_reads_back() {
    assert_eq!(pidfile_body(4242, Some(77)), "4242:77");
    assert_eq!(pidfile_body(4242, None), "4242");
    assert_eq!(recorded_pid(" 4242:77 \n"), Some(4242));
    assert_eq!(recorded_pid("4294967296"), None);
    assert_eq!(recorded_pid("+7"), Some(7));
    assert!(State::running_pid(Some(pidfile_body(4242, Some(77))), OURS).is_some());
    assert_eq!(State::clear_running(HostOs::Linux, "/s/abc"), "/s/abc/run.pid");
}

#[test]
fn write_pidfile_replaces_recycled_starttime() {
    let a = write_pidfile(PidfileAsk::CreateNew, PidfileAnswer::Exists);
    assert_eq!(a, PidfileAsk::Inspect);
    let b = write_pidfile(a, PidfileAnswer::Content(file("4242:1"), OURS));
    assert_eq!(b, PidfileAsk::Remove);
    let c = write_pidfile(b, PidfileAnswer::Missing);
    assert_eq!(c, PidfileAsk::CreateNew);
    assert_eq!(write_pidfile(c, PidfileAnswer::Done), PidfileAsk::Finished);
}

#[test]
fn write_pidfile_refuses_live_pid() {
    let a = write_pidfile(PidfileAsk::Inspect, PidfileAnswer::Content(file("4242"), OURS));
    assert_eq!(a, PidfileAsk::Busy(4242));
    let b = write_pidfile(PidfileAsk::CreateNew, PidfileAnswer::Failed);
    assert_eq!(b, PidfileAsk::Refused);
}

#[test]
fn process_status_lines() {
    let mut stat = "17 (a) b) Z 1".to_string();
    for i in 0..17 {
        stat.push_str(&format!(" {i}"));
    }
    stat.push_str(" 9876 0");
    assert_eq!(stat_starttime(&stat), Some(9876));
    assert!(is_zombie(Some(stat)));
    assert!(!is_zombie(Some("17 (Z) S 1".to_string())));
    assert!(!is_zombie(None));
    assert_eq!(stat_starttime("17 (a) S 1 2"), None);
    assert_eq!(stat_starttime("no brackets"), None);
    assert_eq!(micros_starttime(2, 5), 2_000_005);
    assert_eq!(filetime_starttime(1, 2), (1u128 << 32) + 2);
}

#[test]
fn pid_alive_known_and_unknown() {
    assert!(pid_alive(false, ProcessAnswer::Reached));
    assert!(!pid_alive(false, ProcessAnswer::NoSuchProcess));
    assert!(!pid_alive(false, ProcessAnswer::Refused));
    assert!(pid_alive(true, ProcessAnswer::Reached));
    assert!(!pid_alive(true, ProcessAnswer::NoSuchProcess));
    assert!(pid_alive(true, ProcessAnswer::Refused));
}

#[test]
fn the_pid_file_lies_in_the_worktree_on_windows() {
    assert_eq!(State::clear_running(HostOs::Windows, "C:\\s\\abc"), "C:\\s\\abc\\run.pid");
}
