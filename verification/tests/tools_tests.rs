use workflow::project_tools::{
    offered_tool_ids, DynamicTools, check_read, glob_match, is_probably_binary, is_skipped_name, keeps_entry, read_limit, render_file_content,
    scan_depth, ReadFileError,
};

#[test]
fn test_glob_match() {
    assert!(glob_match("*.rs", "main.rs"));
    assert!(glob_match("Cargo*", "Cargo.toml"));
    assert!(glob_match("main.rs", "main.rs"));
    assert!(!glob_match("*.rs", "main.js"));
    assert!(glob_match("*", "anything.txt"));
}

#[test]
fn glob_prefix_star_decides_alone() {
    assert!(!glob_match("*x*", "axb"));
    assert!(glob_match("**/*", "deep/path"));
    assert!(!glob_match("abc", "abcd"));
}

#[test]
fn test_is_binary() {
    assert!(is_probably_binary("image.png"));
    assert!(is_probably_binary("archive.zip"));
    assert!(!is_probably_binary("main.rs"));
    assert!(!is_probably_binary("Cargo.toml"));
}

#[test]
fn binary_extension_case_and_hidden_files() {
    assert!(is_probably_binary("PHOTO.JPG"));
    assert!(!is_probably_binary(".png"));
    assert!(!is_probably_binary("Makefile"));
}

#[test]
fn test_path_traversal_detected() {
    let project_root = std::path::Path::new("/tmp/test-project");
    let bad_path = project_root.join("../etc/passwd");
    assert!(
        bad_path.starts_with(project_root),
        "without canonicalization, '../etc/passwd' still appears to start with the project root"
    );
    let canonical = std::path::Path::new("/tmp/etc/passwd");
    assert!(!canonical.starts_with(project_root));
}

#[test]
fn skipped_names_and_kept_entries() {
    assert!(is_skipped_name(".git"));
    assert!(is_skipped_name("node_modules"));
    assert!(is_skipped_name("target"));
    assert!(!is_skipped_name("src"));
    assert!(keeps_entry("main.rs", false, Some("*.rs"), false));
    assert!(!keeps_entry("lib", true, Some("*.rs"), false));
    assert!(keeps_entry("lib", true, Some("*.rs"), true));
    assert!(keeps_entry("x", false, None, false));
}

#[test]
fn limits() {
    assert_eq!(scan_depth(None), 1);
    assert_eq!(scan_depth(Some(7)), 3);
    assert_eq!(scan_depth(Some(0)), 0);
    assert_eq!(read_limit(None), 32768);
    assert_eq!(read_limit(Some(1_000_000)), 524288);
    assert_eq!(read_limit(Some(10)), 10);
}

#[test]
fn file_content_forms() {
    assert!(matches!(check_read(true, 100, 10), Err(ReadFileError::BinaryTooLarge)));
    assert!(check_read(false, 100, 10).is_ok());
    assert_eq!(render_file_content("a.png", true, 3, 10, &[1, 2, 3]), "[Binary file: a.png, 3 bytes]\nBase64:\nAQID");
    assert_eq!(render_file_content("a.txt", false, 20, 5, b"hello"), "... (truncated at 5 of 20 bytes)\nhello");
    assert_eq!(render_file_content("a.txt", false, 5, 5, b"hello"), "hello");
    assert_eq!(ReadFileError::NotFound("x".into()).message(), "File not found: 'x'");
}

#[test]
fn role_tool_offered_only_while_enabled() {
    assert!(offered_tool_ids(false).is_empty());
    assert_eq!(offered_tool_ids(true), vec!["create_role".to_string()]);
    let mut tools = DynamicTools::new();
    assert!(tools.top_n_ids().is_empty());
    tools.set_create_role(true);
    assert_eq!(tools.top_n_ids(), vec!["create_role".to_string()]);
    let shared = DynamicTools::with_flag(tools.flag());
    assert_eq!(shared.top_n_ids(), vec!["create_role".to_string()]);
}
