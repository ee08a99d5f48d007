use cowt::windows::{
    attributes, cleanup_deletes, creates_directory, delete_warning, fill_file_info,
    get_security_by_name, get_volume_info, read_directory, rel_of, to_filetime, wants_write,
    write_offset, FILE_ATTRIBUTE_DIRECTORY, FILE_ATTRIBUTE_NORMAL,
};

#[test]
fn names_stay_on_the_volume() {
    assert_eq!(rel_of("\\a\\b.txt"), vec!["a", "b.txt"]);
    assert_eq!(rel_of("\\..\\..\\a"), vec!["a"]);
    assert_eq!(rel_of("\\a\\.\\b/c"), vec!["a", "b", "c"]);
    assert_eq!(rel_of("C:\\x"), vec!["x"]);
    assert_eq!(rel_of("c:x"), vec!["x"]);
    assert_eq!(rel_of("C:\\\\server\\share\\x"), vec!["server", "share", "x"]);
    assert_eq!(rel_of("\\C:\\x"), vec!["C:", "x"]);
    assert_eq!(rel_of("\\\\server\\share\\x"), vec!["x"]);
    assert_eq!(rel_of("//server/share/x"), vec!["x"]);
    assert_eq!(rel_of("\\\\server"), vec!["server"]);
    assert_eq!(rel_of("\\\\.\\COM1\\x"), vec!["x"]);
    assert_eq!(rel_of("\\\\?\\C:\\x"), vec!["x"]);
    assert_eq!(rel_of("\\\\?\\UNC\\server\\share\\x"), vec!["x"]);
    assert!(rel_of("\\").is_empty());
    assert!(rel_of("").is_empty());
}

#[test]
fn times_count_from_1601() {
    assert_eq!(to_filetime(Some((0, 0))), 116_444_736_000_000_000);
    assert_eq!(to_filetime(Some((1, 250))), 116_444_736_010_000_002);
    assert_eq!(to_filetime(None), 0);
    let f = fill_file_info(FILE_ATTRIBUTE_NORMAL, 9, None, None, Some((1, 0)));
    assert_eq!((f.file_size, f.allocation_size, f.hard_links), (9, 9, 1));
    assert_eq!((f.creation_time, f.change_time), (0, f.last_write_time));
    assert_eq!(f.last_write_time, 116_444_736_010_000_000);
}

#[test]
fn requests_are_decided_by_their_bits() {
    assert_eq!(attributes(true), FILE_ATTRIBUTE_DIRECTORY);
    assert_eq!(attributes(false), FILE_ATTRIBUTE_NORMAL);
    assert!(wants_write(0x2) && !wants_write(0x1));
    assert!(creates_directory(0x10, 0) && creates_directory(0, 1) && !creates_directory(0x80, 2));
    assert!(cleanup_deletes(1, true) && !cleanup_deletes(1, false) && !cleanup_deletes(2, true));
    let s = get_security_by_name(Some(true), 20, 8);
    assert_eq!((s.attributes, s.length, s.copied), (FILE_ATTRIBUTE_DIRECTORY, 20, 8));
    assert_eq!(get_security_by_name(None, 20, 64).copied, 20);
    assert_eq!(get_volume_info(Some((10, 4))), (10, 4));
    assert_eq!(get_volume_info(None), (0, 0));
    assert_eq!(delete_warning("f", "e"), "cowt: warning: delete of f failed: e");
}

#[test]
fn writes_at_the_end_saturate() {
    assert_eq!(write_offset(false, 100, 7), 7);
    assert_eq!(write_offset(true, 100, 7), 107);
    assert_eq!(write_offset(true, u64::MAX, 7), u64::MAX);
}

#[test]
fn listings_resume_after_a_name() {
    let entries: Vec<String> = ["a", "b", "d"].iter().map(|s| s.to_string()).collect();
    assert_eq!(read_directory(&entries, None), 0);
    assert_eq!(read_directory(&entries, Some("a".to_string())), 1);
    assert_eq!(read_directory(&entries, Some("c".to_string())), 2);
    assert_eq!(read_directory(&entries, Some("d".to_string())), 3);
}
