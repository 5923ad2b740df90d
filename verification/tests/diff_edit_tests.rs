use workflow::diff_edit::{
    apply_hunks, generate_hunk_diff, parse_hunk_block, parse_hunks, report_edit, DiffEdit, DiffEditArgs, EditHunk,
};

#[test]
fn test_parse_basic_hunk() {
    let block = "<<<<<<< SEARCH\nold content\n=======\nnew content\n>>>>>>> REPLACE";
    let hunk = parse_hunk_block(block).unwrap();
    assert_eq!(hunk.search, "old content");
    assert_eq!(hunk.replace, "new content");
}

#[test]
fn test_parse_hunk_with_context() {
    let block = "\
<<<<<<< SEARCH
fn old_function() {
    let x = 1;
    println!(\"{}\", x);
}
=======
fn new_function() {
    let x = 2;
    println!(\"{}\", x * 2);
}
>>>>>>> REPLACE";
    let hunk = parse_hunk_block(block).unwrap();
    assert!(hunk.search.contains("old_function"));
    assert!(hunk.replace.contains("new_function"));
    assert!(hunk.search.contains("println!"));
}

#[test]
fn test_parse_hunk_missing_separator() {
    let block = "<<<<<<< SEARCH\ncontent\n>>>>>>> REPLACE";
    let err = parse_hunk_block(block).unwrap_err();
    assert!(err.contains("======="));
}

#[test]
fn test_parse_hunk_missing_markers() {
    let block = "plain text without markers";
    let err = parse_hunk_block(block).unwrap_err();
    assert!(err.contains("======="), "error: {:?}", err);
}

#[test]
fn test_parse_hunk_empty() {
    let block = "<<<<<<< SEARCH\n=======\n>>>>>>> REPLACE";
    let err = parse_hunk_block(block).unwrap_err();
    assert!(err.contains("empty"));
}

#[test]
fn test_parse_hunks_single() {
    let input = "<<<<<<< SEARCH\nfoo\n=======\nbar\n>>>>>>> REPLACE";
    let hunks = parse_hunks(input).unwrap();
    assert_eq!(hunks.len(), 1);
    assert_eq!(hunks[0].search, "foo");
}

#[test]
fn test_parse_hunks_multiple() {
    let input = "\
<<<<<<< SEARCH
first old
=======
first new
>>>>>>> REPLACE

<<<<<<< SEARCH
second old
=======
second new
>>>>>>> REPLACE";
    let hunks = parse_hunks(input).unwrap();
    assert_eq!(hunks.len(), 2);
    assert_eq!(hunks[0].search, "first old");
    assert_eq!(hunks[1].search, "second old");
}

#[test]
fn test_parse_hunks_no_marker() {
    let err = parse_hunks("hello world").unwrap_err();
    assert!(err.contains("<<<<<<< SEARCH"));
}

#[test]
fn test_apply_single_hunk() {
    let content = "fn main() {\n    println!(\"hello\");\n}\n";
    let hunks = vec![EditHunk {
        search: "    println!(\"hello\");".to_string(),
        replace: "    println!(\"world\");".to_string(),
    }];
    let result = apply_hunks(content, &hunks).unwrap();
    assert!(result.contains("world"));
    assert!(!result.contains("hello"));
}

#[test]
fn test_apply_multiple_hunks() {
    let content = "aaa\nbbb\nccc\nddd\n";
    let hunks = vec![
        EditHunk { search: "aaa".to_string(), replace: "AAA".to_string() },
        EditHunk { search: "ccc".to_string(), replace: "CCC".to_string() },
    ];
    let result = apply_hunks(content, &hunks).unwrap();
    assert_eq!(result, "AAA\nbbb\nCCC\nddd\n");
}

#[test]
fn test_apply_hunk_not_found() {
    let content = "hello world\n";
    let hunks = vec![EditHunk { search: "nonexistent".to_string(), replace: "replacement".to_string() }];
    let err = apply_hunks(content, &hunks).unwrap_err();
    assert!(err.contains("not found"));
}

#[test]
fn test_apply_hunk_context_uniqueness() {
    let content = "line1\nTARGET\nline3\nANOTHER_TARGET\nline5\n";
    let hunks = vec![EditHunk {
        search: "line1\nTARGET\nline3".to_string(),
        replace: "line1\nUPDATED\nline3".to_string(),
    }];
    let result = apply_hunks(content, &hunks).unwrap();
    assert!(result.contains("UPDATED"));
    assert!(result.contains("ANOTHER_TARGET"));
}

#[test]
fn test_apply_hunk_atomic_failure() {
    let content = "aaa\nbbb\n";
    let hunks = vec![
        EditHunk { search: "aaa".to_string(), replace: "AAA".to_string() },
        EditHunk { search: "xxx".to_string(), replace: "yyy".to_string() },
    ];
    let err = apply_hunks(content, &hunks).unwrap_err();
    assert!(err.contains("not found"));
}

#[test]
fn parse_error_names_the_hunk() {
    let input = "<<<<<<< SEARCH\na\n=======\nb\n>>>>>>> REPLACE\n<<<<<<< SEARCH\nno separator here\n>>>>>>> REPLACE";
    let err = parse_hunks(input).unwrap_err();
    assert_eq!(err, "Hunk #2: Missing `=======` separator in SEARCH/REPLACE block");
}

#[test]
fn parse_no_marker_message() {
    let err = parse_hunks("x").unwrap_err();
    assert_eq!(
        err,
        "No `<<<<<<< SEARCH` block found. Use the SEARCH/REPLACE format:\n<<<<<<< SEARCH<<<<<<< SEARCH\nexact content to match\n=======\nreplacement content\n>>>>>>> REPLACE"
    );
}

#[test]
fn parse_missing_replace_marker() {
    assert_eq!(
        parse_hunk_block("<<<<<<< SEARCH\na\n=======\nb").unwrap_err(),
        "Missing `>>>>>>> REPLACE` marker"
    );
    assert_eq!(parse_hunk_block("a\n=======\nb\n>>>>>>> REPLACE").unwrap_err(), "Missing `<<<<<<< SEARCH` marker");
}

#[test]
fn apply_replaces_only_first_occurrence() {
    let hunks = vec![EditHunk { search: "ab".to_string(), replace: "X".to_string() }];
    assert_eq!(apply_hunks("ab ab ab", &hunks).unwrap(), "X ab ab");
}

#[test]
fn not_found_message_shows_second_hunk_and_preview() {
    let long: String = "0123456789".repeat(13);
    let hunks = vec![
        EditHunk { search: "a".to_string(), replace: "b".to_string() },
        EditHunk { search: long.clone(), replace: String::new() },
    ];
    let err = apply_hunks("a", &hunks).unwrap_err();
    let preview = format!("{}...{}", &long[..60], &long[long.len() - 60..]);
    assert!(err.starts_with(&format!("Hunk #2: SEARCH block not found in file.\n\nSearched for:\n---\n{}---\n", preview)));
    assert!(err.ends_with("Tip: include 1-2 lines of surrounding context above AND below the change."));
}

#[test]
fn diff_preview_lines() {
    assert_eq!(generate_hunk_diff("a\nb\nc\n", "a\nB\nc\n"), "  a\n+ B\n+ c\n- b\n- c\n");
    assert_eq!(generate_hunk_diff("", ""), "");
    assert_eq!(generate_hunk_diff("x\r\ny", "x\ny"), "  x\n  y\n");
}

#[test]
fn diff_preview_truncates() {
    let old = String::new();
    let new: String = (0..400).map(|i| format!("line {}\n", i)).collect();
    let d = generate_hunk_diff(&old, &new);
    assert!(d.ends_with("... (diff truncated)\n"));
}

#[test]
fn edit_report_forms() {
    let r = report_edit("f.txt", "a\n", "b\n", 1, true);
    assert_eq!(r, "DRY RUN \u{2014} 1 hunk(s) would apply to 'f.txt'\n\nChange preview (1 lines \u{2192} 1 lines):\n---\n+ b\n- a\n---\n\nUse dry_run=false to apply.");
    let r = report_edit("f.txt", "a\n", "b\n", 1, false);
    assert_eq!(r, "Applied 1 hunk(s) to 'f.txt'.\n\nFile changed: 1 lines \u{2192} 1 lines.\n\nChanges:\n---\n+ b\n- a\n---");
}

#[test]
fn diff_edit_call_applies_and_reports() {
    let args = DiffEditArgs {
        path: "multi.txt".to_string(),
        edits: "<<<<<<< SEARCH\nline A\n=======\nline A_MODIFIED\n>>>>>>> REPLACE\n\n<<<<<<< SEARCH\nline C\n=======\nline C_MODIFIED\n>>>>>>> REPLACE".to_string(),
        dry_run: false,
    };
    let (new_content, report) = DiffEdit.call(&args, "line A\nline B\nline C\n").unwrap();
    assert_eq!(new_content, "line A_MODIFIED\nline B\nline C_MODIFIED\n");
    assert!(report.contains("2 hunk(s)"));
}
