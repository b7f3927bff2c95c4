//! Tests of test-document path recognition and report file naming.

use rtt_tester::naming::{
    basename, default_report_name, is_test_file_path, replace_test_suffix, report_file_name,
};

fn name_bytes(s: &str) -> Vec<u8> {
    s.as_bytes().to_vec()
}

#[test]
fn basename_takes_last_component() {
    assert_eq!(basename(&name_bytes("a/b/c.md")), name_bytes("c.md"));
    assert_eq!(basename(&name_bytes("plain")), name_bytes("plain"));
    assert_eq!(basename(&name_bytes("dir/")), name_bytes(""));
}

#[test]
fn test_file_paths_are_recognized() {
    assert!(is_test_file_path(&name_bytes("/path/to/my_t.md")));
    assert!(is_test_file_path(&name_bytes("cases-t.md")));
    assert!(!is_test_file_path(&name_bytes("readme.md")));
    // the suffix must stand in the last path component
    assert!(!is_test_file_path(&name_bytes("/t.md/other")));
}

#[test]
fn suffix_rewrite_hits_every_occurrence() {
    assert_eq!(replace_test_suffix(&name_bytes("my_t.md")), name_bytes("my_r.md"));
    assert_eq!(replace_test_suffix(&name_bytes("t.mdt.md")), name_bytes("r.mdr.md"));
    assert_eq!(replace_test_suffix(&name_bytes("tt.md")), name_bytes("tr.md"));
    assert_eq!(replace_test_suffix(&name_bytes("notes.txt")), name_bytes("notes.txt"));
}

#[test]
fn report_name_formats_the_timestamp() {
    let r = report_file_name(2024, 3, 7, 5, 42, 9, &name_bytes("abct.md"));
    assert_eq!(r, name_bytes("2024-3-7-05429-abcr.md"));
    let r = report_file_name(2024, 12, 31, 23, 59, 58, &name_bytes("x_t.md"));
    assert_eq!(r, name_bytes("2024-12-31-235958-x_r.md"));
}

#[test]
fn report_name_keeps_a_negative_year_sign() {
    let r = report_file_name(-44, 3, 15, 12, 0, 0, &name_bytes("t.md"));
    assert_eq!(r, name_bytes("-44-3-15-1200-r.md"));
}

#[test]
fn default_report_name_ends_with_rewritten_source() {
    let r = default_report_name(&name_bytes("sample_t.md"));
    let s = String::from_utf8(r).unwrap();
    assert!(s.ends_with("-sample_r.md"));
    assert!(s.len() > "-sample_r.md".len());
}
