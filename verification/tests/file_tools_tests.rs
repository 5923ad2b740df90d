use workflow::file_tools::{read_file_report, shell_output, str_slice, write_file_result};

#[test]
fn read_report_small_file() {
    let r = read_file_report("f.txt", "line1\nline2\nline3\n", None, None);
    assert_eq!(r, "(file: f.txt, 3 lines, 18 bytes)\n\nline1\nline2\nline3\n");
}

#[test]
fn read_report_long_file_window() {
    let content: String = (1..=2000).map(|i| format!("row {}\n", i)).collect();
    let r = read_file_report("big", &content, Some(2), Some(3));
    assert!(r.starts_with("(file: big, 2000 lines, "));
    assert!(r.ends_with("row 2\nrow 3\n\n... [truncated, 2000 total lines, showing 2--3]"));
}

#[test]
fn write_result_clamps_and_previews() {
    let (slice, report) = write_file_result("out.txt", "hello world", Some(6), None);
    assert_eq!(slice, "world");
    assert_eq!(report, "Written 5 bytes to out.txt\nFirst 5 chars:\n---\nworld\n---");
    let (slice, _) = write_file_result("x", "abc", Some(5), Some(1));
    assert_eq!(slice, "");
    assert_eq!(str_slice("h\u{e9}llo", 1, 2), "");
    assert_eq!(str_slice("h\u{e9}llo", 1, 3), "\u{e9}");
}

#[test]
fn shell_output_forms() {
    assert_eq!(shell_output(b"ok\n", b"", Some(0)), "ok\n\n(exit code: 0)");
    assert_eq!(shell_output(b"", b"bad", Some(2)), "stderr:\nbad\n(exit code: 2)");
    assert_eq!(shell_output(b"a", b"b", None), "a\nstderr:\nb\n(exit code: -1)");
    let big = vec![b'x'; 102_401];
    let out = shell_output(&big, b"", Some(0));
    assert!(out.contains("\n... [stdout truncated at 100KB]"));
}
