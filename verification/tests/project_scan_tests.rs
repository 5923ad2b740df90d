use std::sync::Arc;
use workflow::config::ProjectConfig;
use workflow::project_scan::{scan_directory, scan_project, sort_visible, RawEntry};
use workflow::project_tools::{FileEntry, GetProjectInfo, GetProjectInfoArgs, ProjectToolError};

fn file(name: &str, size: u64) -> RawEntry {
    RawEntry { name: name.to_string(), key: name.as_bytes().to_vec(), is_dir: Some(false), size: Some(size), listing: None }
}

fn dir(name: &str, listing: Option<Vec<RawEntry>>) -> RawEntry {
    RawEntry { name: name.to_string(), key: name.as_bytes().to_vec(), is_dir: Some(true), size: Some(4096), listing }
}

fn unknown(name: &str) -> RawEntry {
    RawEntry { name: name.to_string(), key: name.as_bytes().to_vec(), is_dir: None, size: None, listing: None }
}

fn names(v: &[FileEntry]) -> Vec<String> {
    v.iter().map(|e| e.name.clone()).collect()
}

fn sample_tree() -> Vec<RawEntry> {
    vec![
        file("main.rs", 10),
        dir("src", Some(vec![file("lib.rs", 5), file("notes.txt", 7), dir("deep", Some(vec![file("x.rs", 1)]))])),
        file(".hidden", 1),
        dir("target", Some(vec![file("out.bin", 3)])),
        file("Cargo.toml", 2),
        dir("node_modules", None),
    ]
}

#[test]
fn listing_is_sorted_by_name_bytes_and_hides_entries() {
    let sorted = sort_visible(sample_tree());
    let got: Vec<String> = sorted.iter().map(|e| e.name.clone()).collect();
    assert_eq!(got, vec!["Cargo.toml", "main.rs", "src"]);
}

#[test]
fn scan_one_level_counts_and_lists() {
    let (mut dirs, mut files) = (0usize, 0usize);
    let r = scan_directory(Some(sample_tree()), 1, None, &mut dirs, &mut files).unwrap();
    assert_eq!(names(&r), vec!["Cargo.toml", "main.rs", "src"]);
    assert_eq!((dirs, files), (1, 2));
    assert_eq!(r[0].entry_type, "file");
    assert_eq!(r[0].size, Some(2));
    assert_eq!(r[2].entry_type, "directory");
    assert_eq!(r[2].size, None);
    assert_eq!(r[2].children.as_ref().map(|c| c.len()), Some(0));
}

#[test]
fn scan_two_levels_goes_into_directories() {
    let (mut dirs, mut files) = (0usize, 0usize);
    let r = scan_directory(Some(sample_tree()), 2, None, &mut dirs, &mut files).unwrap();
    let src = &r[2];
    assert_eq!(names(src.children.as_ref().unwrap()), vec!["deep", "lib.rs", "notes.txt"]);
    assert_eq!((dirs, files), (2, 4));
    let deep = &src.children.as_ref().unwrap()[0];
    assert_eq!(deep.children.as_ref().map(|c| c.len()), Some(0));
}

#[test]
fn pattern_keeps_matching_files_and_directories_with_matches() {
    let (mut dirs, mut files) = (0usize, 0usize);
    let r = scan_directory(Some(sample_tree()), 3, Some("*.rs"), &mut dirs, &mut files).unwrap();
    assert_eq!(names(&r), vec!["main.rs", "src"]);
    let src = r[1].children.as_ref().unwrap();
    assert_eq!(names(src), vec!["deep", "lib.rs"]);
    // Directories are counted whether listed or not; files only when listed.
    assert_eq!((dirs, files), (2, 3));
}

#[test]
fn unreadable_type_stops_the_scan_but_keeps_counts() {
    let tree = vec![file("a.txt", 1), dir("b", None), unknown("c"), file("d.txt", 1)];
    let (mut dirs, mut files) = (0usize, 0usize);
    let r = scan_directory(Some(tree), 1, None, &mut dirs, &mut files);
    assert!(r.is_none());
    assert_eq!((dirs, files), (1, 1));
}

#[test]
fn failure_below_a_directory_drops_its_entries_only() {
    let tree = vec![dir("a", Some(vec![file("x", 1), unknown("y")])), file("b", 1)];
    let (mut dirs, mut files) = (0usize, 0usize);
    let r = scan_directory(Some(tree), 2, None, &mut dirs, &mut files).unwrap();
    assert_eq!(names(&r), vec!["a", "b"]);
    assert_eq!(r[0].children.as_ref().map(|c| c.len()), Some(0));
    assert_eq!((dirs, files), (1, 2));
}

#[test]
fn unreadable_directory_lists_nothing() {
    let (mut dirs, mut files) = (3usize, 4usize);
    assert!(scan_directory(None, 2, None, &mut dirs, &mut files).is_none());
    assert_eq!((dirs, files), (3, 4));
}

#[test]
fn project_scan_reports_missing_path() {
    let project = ProjectConfig::new("/no/such/place".to_string());
    let info = scan_project(&project, 1, None, false, None);
    assert_eq!(info.name, "place");
    assert_eq!(info.error.as_deref(), Some("Project path does not exist"));
    assert_eq!((info.total_dirs, info.total_files), (0, 0));
    assert!(info.structure.is_empty());
}

#[test]
fn project_scan_depth_zero_keeps_read_order() {
    let project = ProjectConfig::new("/work/demo".to_string());
    let top = vec![file("z.rs", 1), dir("a", None), unknown("m"), file(".git", 1), file("b.md", 1)];
    let info = scan_project(&project, 0, Some("*"), true, Some(top));
    assert_eq!(names(&info.structure), vec!["z.rs", "a", "m", "b.md"]);
    assert_eq!((info.total_dirs, info.total_files), (1, 3));
    assert!(info.structure.iter().all(|e| e.size.is_none() && e.children.is_none()));
    assert!(info.error.is_none());
}

#[test]
fn project_info_tool_needs_a_project() {
    let tool = GetProjectInfo::new(Arc::new(None));
    let args = GetProjectInfoArgs { depth: None, pattern: None };
    assert!(matches!(tool.info(&args, true, None), Err(ProjectToolError::NoProject)));
    let tool = GetProjectInfo::new(Arc::new(Some(ProjectConfig::new("/work/demo".to_string()))));
    let args = GetProjectInfoArgs { depth: Some(7), pattern: None };
    let info = tool.info(&args, true, Some(sample_tree())).unwrap();
    assert_eq!(info.name, "demo");
    assert_eq!((info.total_dirs, info.total_files), (2, 5));
}
