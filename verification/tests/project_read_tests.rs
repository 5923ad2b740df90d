use workflow::project_tools::{ReadFileError, ReadProjectFile};

#[test]
fn paths_resolve_under_the_root() {
    assert_eq!(ReadProjectFile::resolved_path("/proj", "src/a.rs"), "/proj/src/a.rs");
    // an absolute request replaces the root, and the check below refuses it
    assert_eq!(ReadProjectFile::resolved_path("/proj", "/etc/passwd"), "/etc/passwd");
}

#[test]
fn traversal_is_refused_before_anything_else() {
    match ReadProjectFile::resolve_read("/proj", "/etc/passwd", true, true, "../../etc/passwd") {
        Err(ReadFileError::PathTraversal(p)) => assert_eq!(p, "../../etc/passwd"),
        other => panic!("unexpected {:?}", other),
    }
    // a sibling directory that shares a prefix of the name is outside too
    assert!(matches!(
        ReadProjectFile::resolve_read("/proj", "/projx/a.rs", false, false, "../projx/a.rs"),
        Err(ReadFileError::PathTraversal(_))
    ));
}

#[test]
fn missing_and_directory_paths() {
    assert!(matches!(
        ReadProjectFile::resolve_read("/proj", "/proj/none", false, false, "none"),
        Err(ReadFileError::NotFound(p)) if p == "none"
    ));
    assert!(matches!(
        ReadProjectFile::resolve_read("/proj", "/proj/src", true, false, "src"),
        Err(ReadFileError::NotAFile(p)) if p == "src"
    ));
    assert!(ReadProjectFile::resolve_read("/proj", "/proj/src/a.rs", true, true, "src/a.rs").is_ok());
    assert!(ReadProjectFile::resolve_read("/proj", "/proj", true, true, ".").is_ok());
}
