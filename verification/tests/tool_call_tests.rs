use workflow::diff_edit::{DiffEdit, DiffEditArgs};
use workflow::file_tools::{read_file_report, shell_output, write_file_result};

#[test]
fn test_read_file_basic() {
    let content = "line1\nline2\nline3\n";
    let result = read_file_report("/tmp/f.txt", content, None, None);
    assert!(result.contains("line1"));
    assert!(result.contains("3 lines"));
}

#[test]
fn test_read_file_multibyte_line_selection() {
    let cjk_line = "你好世界测试内容这是多字节字符测试";
    let mut content = String::new();
    for _ in 0..500 {
        content.push_str(cjk_line);
        content.push('\n');
    }
    let result = read_file_report("/tmp/cjk.txt", &content, Some(2), Some(4));
    assert!(result.contains(cjk_line));
    assert!(result.contains("truncated"));
    let count = result.matches(cjk_line).count();
    assert_eq!(count, 3, "should select exactly 3 lines, got {count}");
}

#[test]
fn test_read_file_large_truncation() {
    let content = "x".repeat(15000);
    let result = read_file_report("/tmp/x.txt", &content, None, None);
    assert!(result.contains("truncated"));
}

#[test]
fn test_write_file_out_of_bounds_clamped() {
    let (written, result) = write_file_result("/tmp/w.txt", "hello", Some(10), Some(200));
    assert_eq!(written, "");
    assert!(result.contains("Written 0 bytes"));
}

#[test]
fn test_write_file_preview_within_bounds() {
    let (written, result) = write_file_result("/tmp/w.txt", "short", Some(0), Some(5));
    assert_eq!(written, "short");
    assert!(result.contains("Written 5 bytes"));
}

#[test]
fn test_shell_basic() {
    let result = shell_output(b"hello\n", b"", Some(0));
    assert!(result.contains("hello"));
    assert!(result.contains("exit code: 0"));
}

fn edit(content: &str, edits: &str, dry_run: bool) -> Result<(String, String), String> {
    let args = DiffEditArgs { path: "test.txt".to_string(), edits: edits.to_string(), dry_run };
    DiffEdit.call(&args, content)
}

#[test]
fn test_diff_edit_tool_call_basic() {
    let edits = "<<<<<<< SEARCH\nhello old world\n=======\nhello new world\n>>>>>>> REPLACE";
    let (content, result) = edit("hello old world\n", edits, false).unwrap();
    assert!(result.contains("Applied"));
    assert!(result.contains("1 hunk"));
    assert!(content.contains("new world"));
}

#[test]
fn test_diff_edit_tool_dry_run() {
    let edits = "<<<<<<< SEARCH\noriginal content\n=======\nmodified content\n>>>>>>> REPLACE";
    let (_, result) = edit("original content\n", edits, true).unwrap();
    assert!(result.contains("DRY RUN"));
}

#[test]
fn test_diff_edit_tool_hunk_not_found() {
    let edits = "<<<<<<< SEARCH\nnonexistent content\n=======\nreplacement\n>>>>>>> REPLACE";
    let err = edit("existing content", edits, false).unwrap_err();
    assert!(err.contains("not found"));
    assert!(err.contains("SEARCH"));
}

#[test]
fn test_diff_edit_multi_hunk_atomic() {
    let edits = "<<<<<<< SEARCH\nline A\n=======\nline A_MODIFIED\n>>>>>>> REPLACE\n\n<<<<<<< SEARCH\nline C\n=======\nline C_MODIFIED\n>>>>>>> REPLACE";
    let (content, result) = edit("line A\nline B\nline C\n", edits, false).unwrap();
    assert!(result.contains("2 hunk(s)"));
    assert!(content.contains("A_MODIFIED"));
    assert!(!content.contains("A\n"));
    assert!(content.contains("C_MODIFIED"));
    assert!(content.contains("line B"));
}
