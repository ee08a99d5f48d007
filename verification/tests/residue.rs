use cowt::residue::{
    atomic_write, staging_owner, sweep_stale_staging, sweep_stale_tmp, tmp_name, tmp_writer,
    ReplaceAsk, SweepEntry,
};
use cowt::state::json_file;

fn entry(name: &str, is_dir: bool, alive: bool) -> SweepEntry {
    SweepEntry { name: name.to_string(), is_dir, alive }
}

#[test]
fn atomic_write_sweeps_stale_tmp_but_keeps_live() {
    let entries = vec![
        entry(&tmp_name("manifest", 999999999, 1), false, false),
        entry(&tmp_name("manifest", 4242, 1), false, true),
        entry(&tmp_name("manifest", 7, 1), false, false),
        entry(&json_file("manifest"), false, false),
    ];
    let swept = sweep_stale_tmp(&entries, 7);
    assert_eq!(swept, vec![format!("{}.tmp-999999999-1", json_file("manifest"))]);
    let mut ask = ReplaceAsk::Sweep;
    let mut done = Vec::new();
    while !matches!(ask, ReplaceAsk::Done | ReplaceAsk::Failed) {
        done.push(ask);
        ask = atomic_write(ask, true);
    }
    assert_eq!(done, vec![ReplaceAsk::Sweep, ReplaceAsk::WriteTmp, ReplaceAsk::Rename]);
    assert_eq!(ask, ReplaceAsk::Done);
    assert_eq!(atomic_write(ReplaceAsk::WriteTmp, false), ReplaceAsk::Failed);
    assert_eq!(atomic_write(ReplaceAsk::Rename, false), ReplaceAsk::Failed);
    assert_eq!(atomic_write(ReplaceAsk::Sweep, false), ReplaceAsk::WriteTmp);
}

#[test]
fn sweep_stale_staging_removes_dead_keeps_live() {
    let entries = vec![
        entry(".cowt-apply-999999999-1", true, false),
        entry(".cowt-apply-4242-1", true, true),
        entry("real-user-dir", true, false),
        entry(".cowt-apply-999999998-1", false, false),
        entry(".cowt-apply-x-1", true, false),
    ];
    assert_eq!(sweep_stale_staging(&entries), vec![".cowt-apply-999999999-1".to_string()]);
}

#[test]
fn makers_are_read_off_names() {
    assert_eq!(tmp_name("meta", 12, 345), "meta.json.tmp-12-345");
    assert_eq!(tmp_writer("meta.json.tmp-12-345"), Some(12));
    assert_eq!(tmp_writer("meta.json.tmp-12"), Some(12));
    assert_eq!(tmp_writer("meta.json"), None);
    assert_eq!(tmp_writer("meta.json.tmp-"), None);
    assert_eq!(tmp_writer("meta.json.tmp-4294967296-1"), None);
    assert_eq!(staging_owner(".cowt-apply-12-345"), Some(12));
    assert_eq!(staging_owner("x.cowt-apply-12-345"), None);
}
