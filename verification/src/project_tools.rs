//! Project tools: the rules that decide which project files are listed and
//! how a project file is shown to an agent, and the flag that offers the
//! role-creation tool.
use vstd::prelude::*;
use std::sync::Arc;
use std::sync::atomic::AtomicBool;
use crate::config::ProjectConfig;
use crate::text::{chars_of, decimal, decimal_string, decimal_u64, spec_lowercase, str_eq, to_lowercase};
use crate::codec::{b64_encode, spec_b64_encode, spec_utf8_lossy, utf8_lossy};
use crate::providers::{path_join, spec_join};

verus! {

/// Whether the role-creation tool is offered to models. The flag is shared,
/// so that it can be switched where a missing role is noticed.
pub struct DynamicTools {
    create_role: Arc<AtomicBool>,
}

impl DynamicTools {
    pub fn new() -> Self {
        DynamicTools { create_role: Arc::new(AtomicBool::new(false)) }
    }

    pub fn with_flag(flag: Arc<AtomicBool>) -> (d: Self)
        ensures
            d.shared_flag() == flag,
    {
        DynamicTools { create_role: flag }
    }

    pub closed spec fn shared_flag(&self) -> Arc<AtomicBool> {
        self.create_role
    }

    pub fn set_create_role(&mut self, create_role: bool)
        ensures
            final(self).shared_flag() == old(self).shared_flag(),
    {
        self.create_role.store(create_role, std::sync::atomic::Ordering::Relaxed)
    }

    pub fn flag(&self) -> (f: Arc<AtomicBool>)
        ensures
            f == self.shared_flag(),
    {
        self.create_role.clone()
    }

    /// The tools offered to a search now: the flag is read once, and what
    /// it held decides as `offered_tool_ids` says.
    pub fn top_n_ids(&self) -> (v: Vec<String>)
        ensures
            v@.len() == 0 || (v@.len() == 1 && v@[0]@ == "create_role"@),
    {
        let enabled = self.create_role.load(std::sync::atomic::Ordering::Relaxed);
        offered_tool_ids(enabled)
    }
}

/// The tools offered to a search: the role-creation tool while it is
/// enabled, none otherwise.
pub fn offered_tool_ids(enabled: bool) -> (v: Vec<String>)
    ensures
        v@.len() == (if enabled { 1int } else { 0int }),
        enabled ==> v@[0]@ == "create_role"@,
{
    let mut v: Vec<String> = Vec::new();
    if enabled {
        v.push(String::from_str("create_role"));
    }
    v
}

/// Arguments of the project information tool.
#[derive(Debug, Clone)]
pub struct GetProjectInfoArgs {
    pub depth: Option<usize>,
    pub pattern: Option<String>,
}

/// One entry of a directory listing.
#[derive(Debug)]
pub struct FileEntry {
    pub name: String,
    pub entry_type: String,
    pub size: Option<u64>,
    pub children: Option<Vec<FileEntry>>,
}

/// What the project information tool reports.
#[derive(Debug)]
pub struct ProjectInfo {
    pub name: String,
    pub path: String,
    pub total_dirs: usize,
    pub total_files: usize,
    pub structure: Vec<FileEntry>,
    pub error: Option<String>,
}

/// Why project information could not be given.
#[derive(Debug, Clone)]
pub enum ProjectToolError {
    NoProject,
    Serialize(String),
}

impl ProjectToolError {
    pub fn message(&self) -> (s: String)
        ensures
            s@ == match *self {
                ProjectToolError::NoProject => "No project opened. Use --project flag when starting workflow."@,
                ProjectToolError::Serialize(e) => "Serialization error: "@ + e@,
            },
    {
        match self {
            ProjectToolError::NoProject => String::from_str("No project opened. Use --project flag when starting workflow."),
            ProjectToolError::Serialize(e) => {
                let mut s = String::from_str("Serialization error: ");
                s.append(e.as_str());
                s
            },
        }
    }
}

/// The project information tool; the directory walk is the caller's part.
pub struct GetProjectInfo {
    project: Arc<Option<ProjectConfig>>,
}

impl GetProjectInfo {
    pub fn new(project: Arc<Option<ProjectConfig>>) -> (t: Self)
        ensures
            t.project() == project,
    {
        GetProjectInfo { project }
    }

    pub closed spec fn project(&self) -> Arc<Option<ProjectConfig>> {
        self.project
    }

    pub fn project_config(&self) -> (p: &Option<ProjectConfig>)
        ensures
            *p == *self.project(),
    {
        &*self.project
    }
}

/// How deep to scan: one level unless asked, never more than three.
pub fn scan_depth(requested: Option<usize>) -> (d: usize)
    ensures
        d == match requested {
            Some(n) => if n <= 3 {
                n
            } else {
                3
            },
            None => 1,
        },
{
    let n = match requested {
        Some(n) => n,
        None => 1,
    };
    if n <= 3 {
        n
    } else {
        3
    }
}

/// Hidden entries and build or package directories are never listed.
pub open spec fn spec_is_skipped(name: Seq<char>) -> bool {
    (name.len() > 0 && name[0] == '.') || name == "node_modules"@ || name == "target"@
}

pub fn is_skipped_name(name: &str) -> (b: bool)
    ensures
        b == spec_is_skipped(name@),
{
    let cs = chars_of(name);
    (cs.len() > 0 && cs[0] == '.') || str_eq(name, "node_modules") || str_eq(name, "target")
}

/// The simple glob match: `*` and `**/*` match everything; a pattern that
/// starts with `*` matches names that end with the rest of it; otherwise a
/// pattern that ends with `*` matches names that start with the rest.
pub open spec fn spec_glob_match(pattern: Seq<char>, name: Seq<char>) -> bool {
    if pattern == "*"@ || pattern == "**/*"@ || pattern == name {
        true
    } else if pattern.len() > 0 && pattern[0] == '*' {
        let suffix = pattern.drop_first();
        suffix.len() <= name.len() && name.subrange(name.len() - suffix.len(), name.len() as int) == suffix
    } else if pattern.len() > 0 && pattern.last() == '*' {
        let prefix = pattern.drop_last();
        prefix.len() <= name.len() && name.subrange(0, prefix.len() as int) == prefix
    } else {
        false
    }
}

/// A pattern `*s` (other than `*` and `**/*`, and other than the name
/// itself) matches exactly the names that end with `s`: those that are some
/// text followed by `s`.
pub proof fn lemma_glob_leading_star(s: Seq<char>, name: Seq<char>)
    requires
        seq!['*'] + s != "*"@,
        seq!['*'] + s != "**/*"@,
        seq!['*'] + s != name,
    ensures
        spec_glob_match(seq!['*'] + s, name) <==> exists|head: Seq<char>| name == head + s,
{
    let pattern = seq!['*'] + s;
    assert(pattern.drop_first() =~= s);
    if spec_glob_match(pattern, name) {
        let head = name.subrange(0, name.len() - s.len());
        assert(name =~= head + s);
    }
    if exists|head: Seq<char>| name == head + s {
        let head = choose|head: Seq<char>| name == head + s;
        assert(name.subrange(name.len() - s.len(), name.len() as int) =~= s);
    }
}

/// A pattern `p*` that does not start with `*` (and is not the name
/// itself) matches exactly the names that start with `p`.
pub proof fn lemma_glob_trailing_star(p: Seq<char>, name: Seq<char>)
    requires
        !(p.len() > 0 && p[0] == '*'),
        p + seq!['*'] != "*"@,
        p + seq!['*'] != "**/*"@,
        p + seq!['*'] != name,
    ensures
        spec_glob_match(p + seq!['*'], name) <==> exists|tail: Seq<char>| name == p + tail,
{
    let pattern = p + seq!['*'];
    reveal_strlit("*");
    assert(pattern.drop_last() =~= p);
    if p.len() == 0 {
        assert(pattern =~= "*"@);
    }
    assert(pattern[0] != '*');
    if spec_glob_match(pattern, name) {
        let tail = name.subrange(p.len() as int, name.len() as int);
        assert(name =~= p + tail);
    }
    if exists|tail: Seq<char>| name == p + tail {
        let tail = choose|tail: Seq<char>| name == p + tail;
        assert(name.subrange(0, p.len() as int) =~= p);
    }
}

/// A pattern without `*` at either end matches only the name it spells.
pub proof fn lemma_glob_plain(pattern: Seq<char>, name: Seq<char>)
    requires
        pattern.len() > 0,
        pattern[0] != '*',
        pattern.last() != '*',
    ensures
        spec_glob_match(pattern, name) <==> pattern == name,
{
    reveal_strlit("*");
    reveal_strlit("**/*");
    assert(pattern != "*"@);
    if pattern == "**/*"@ {
        assert(pattern[0] == '*');
    }
}

fn seq_eq_at(a: &Vec<char>, a0: usize, b: &Vec<char>, b0: usize, n: usize) -> (r: bool)
    requires
        a0 + n <= a@.len(),
        b0 + n <= b@.len(),
    ensures
        r == (a@.subrange(a0 as int, a0 + n) == b@.subrange(b0 as int, b0 + n)),
{
    let mut i: usize = 0;
    while i < n
        invariant
            i <= n,
            a0 + n <= a.len(),
            b0 + n <= b.len(),
            forall|k: int| 0 <= k < i ==> a@.subrange(a0 as int, a0 + n)[k] == #[trigger] b@.subrange(b0 as int, b0 + n)[k],
        decreases n - i,
    {
        if a[a0 + i] != b[b0 + i] {
            assert(a@.subrange(a0 as int, a0 + n)[i as int] != b@.subrange(b0 as int, b0 + n)[i as int]);
            return false;
        }
        i += 1;
    }
    assert(a@.subrange(a0 as int, a0 + n) =~= b@.subrange(b0 as int, b0 + n));
    true
}

pub fn glob_match(pattern: &str, name: &str) -> (b: bool)
    ensures
        b == spec_glob_match(pattern@, name@),
{
    if str_eq(pattern, "*") || str_eq(pattern, "**/*") || str_eq(pattern, name) {
        return true;
    }
    let p = chars_of(pattern);
    let n = chars_of(name);
    if p.len() > 0 && p[0] == '*' {
        let k = p.len() - 1;
        if k > n.len() {
            return false;
        }
        let r = seq_eq_at(&n, n.len() - k, &p, 1, k);
        assert(p@.subrange(1, 1 + k as int) =~= p@.drop_first());
        return r;
    }
    if p.len() > 0 && p[p.len() - 1] == '*' {
        let k = p.len() - 1;
        if k > n.len() {
            return false;
        }
        let r = seq_eq_at(&n, 0, &p, 0, k);
        assert(p@.subrange(0, k as int) =~= p@.drop_last());
        return r;
    }
    false
}

/// Whether a directory entry is listed under an optional pattern: a file
/// when the pattern matches it, a directory also when something below it
/// is listed.
pub open spec fn spec_keeps_entry(name: Seq<char>, is_dir: bool, pattern: Option<Seq<char>>, has_children: bool) -> bool {
    match pattern {
        None => true,
        Some(p) => spec_glob_match(p, name) || (is_dir && has_children),
    }
}

pub fn keeps_entry(name: &str, is_dir: bool, pattern: Option<&str>, has_children: bool) -> (b: bool)
    ensures
        b == spec_keeps_entry(name@, is_dir, match pattern {
            Some(p) => Some(p@),
            None => None,
        }, has_children),
{
    match pattern {
        None => true,
        Some(p) => glob_match(p, name) || (is_dir && has_children),
    }
}

/// What `Path::starts_with` gives: whether `base` is a whole-component
/// prefix of `path`.
pub uninterp spec fn spec_path_starts_with(path: Seq<char>, base: Seq<char>) -> bool;

/// `Path::starts_with` on two paths given as strings; the result is named
/// by `spec_path_starts_with`.
#[verifier::external_body]
fn path_starts_with(path: &str, base: &str) -> (b: bool)
    ensures
        b == spec_path_starts_with(path@, base@),
{
    std::path::Path::new(path).starts_with(base)
}

/// Arguments of the file reading tool.
#[derive(Debug, Clone)]
pub struct ReadProjectFileArgs {
    pub path: String,
    pub max_bytes: Option<usize>,
}

/// Why a project file could not be read.
#[derive(Debug, Clone)]
pub enum ReadFileError {
    NoProject,
    PathResolution(String),
    PathTraversal(String),
    NotFound(String),
    NotAFile(String),
    Io(String),
    BinaryTooLarge,
}

impl ReadFileError {
    pub fn message(&self) -> (s: String)
        ensures
            s@ == match *self {
                ReadFileError::NoProject => "No project opened. Use --project flag when starting workflow."@,
                ReadFileError::PathResolution(e) => "Failed to resolve project path: "@ + e@,
                ReadFileError::PathTraversal(p) => "Path '"@ + p@ + "' resolves outside the project root"@,
                ReadFileError::NotFound(p) => "File not found: '"@ + p@ + "'"@,
                ReadFileError::NotAFile(p) => "'"@ + p@ + "' is not a file"@,
                ReadFileError::Io(e) => "IO error: "@ + e@,
                ReadFileError::BinaryTooLarge => "Binary file too large"@,
            },
    {
        match self {
            ReadFileError::NoProject => String::from_str("No project opened. Use --project flag when starting workflow."),
            ReadFileError::PathResolution(e) => {
                let mut s = String::from_str("Failed to resolve project path: ");
                s.append(e.as_str());
                s
            },
            ReadFileError::PathTraversal(p) => {
                let mut s = String::from_str("Path '");
                s.append(p.as_str());
                s.append("' resolves outside the project root");
                s
            },
            ReadFileError::NotFound(p) => {
                let mut s = String::from_str("File not found: '");
                s.append(p.as_str());
                s.append("'");
                s
            },
            ReadFileError::NotAFile(p) => {
                let mut s = String::from_str("'");
                s.append(p.as_str());
                s.append("' is not a file");
                s
            },
            ReadFileError::Io(e) => {
                let mut s = String::from_str("IO error: ");
                s.append(e.as_str());
                s
            },
            ReadFileError::BinaryTooLarge => String::from_str("Binary file too large"),
        }
    }
}

/// The file reading tool; resolving and reading the file is the caller's
/// part.
pub struct ReadProjectFile {
    project: Arc<Option<ProjectConfig>>,
}

impl ReadProjectFile {
    /// Where a requested path lies: the project root joined with it.
    pub fn resolved_path(root: &str, requested: &str) -> (r: String)
        ensures
            r@ == spec_join(root@, requested@),
    {
        path_join(root, requested)
    }

    /// The checks before a file is read, in order: the canonical form of
    /// the resolved path must lie under the (canonical) project root, else
    /// the path leads outside the project; then the file must exist, and
    /// be a file.
    pub fn resolve_read(root: &str, canonical: &str, exists: bool, is_file: bool, requested: &str) -> (r: Result<
        (),
        ReadFileError,
    >)
        ensures
            !spec_path_starts_with(canonical@, root@) ==> (r matches Err(ReadFileError::PathTraversal(p)) && p@
                == requested@),
            spec_path_starts_with(canonical@, root@) && !exists ==> (r matches Err(ReadFileError::NotFound(p))
                && p@ == requested@),
            spec_path_starts_with(canonical@, root@) && exists && !is_file ==> (r matches Err(
                ReadFileError::NotAFile(p),
            ) && p@ == requested@),
            spec_path_starts_with(canonical@, root@) && exists && is_file ==> r is Ok,
    {
        if !path_starts_with(canonical, root) {
            return Err(ReadFileError::PathTraversal(String::from_str(requested)));
        }
        if !exists {
            return Err(ReadFileError::NotFound(String::from_str(requested)));
        }
        if !is_file {
            return Err(ReadFileError::NotAFile(String::from_str(requested)));
        }
        Ok(())
    }

    pub fn new(project: Arc<Option<ProjectConfig>>) -> (t: Self)
        ensures
            t.project() == project,
    {
        ReadProjectFile { project }
    }

    pub closed spec fn project(&self) -> Arc<Option<ProjectConfig>> {
        self.project
    }

    pub fn project_config(&self) -> (p: &Option<ProjectConfig>)
        ensures
            *p == *self.project(),
    {
        &*self.project
    }
}

/// How many bytes to read: 32768 unless asked, never more than 524288.
pub fn read_limit(requested: Option<usize>) -> (n: usize)
    ensures
        n == match requested {
            Some(k) => if k <= 524288 {
                k
            } else {
                524288
            },
            None => 32768,
        },
{
    let k = match requested {
        Some(k) => k,
        None => 32768,
    };
    if k <= 524288 {
        k
    } else {
        524288
    }
}

/// What `Path::extension` gives for a path: the part of its file name after
/// the last dot, if there is one that does not start the name.
pub uninterp spec fn spec_extension(path: Seq<char>) -> Option<Seq<char>>;

/// `Path::extension`, as a string; the result is named by `spec_extension`.
#[verifier::external_body]
fn path_extension(path: &str) -> (r: Option<String>)
    ensures
        match r {
            Some(e) => spec_extension(path@) == Some(e@),
            None => spec_extension(path@) is None,
        },
{
    std::path::Path::new(path).extension().map(|e| e.to_string_lossy().to_string())
}

/// Extensions of files that are read as binary.
pub open spec fn binary_extensions() -> Seq<Seq<char>> {
    seq![
        "png"@, "jpg"@, "jpeg"@, "gif"@, "bmp"@, "ico"@, "webp"@, "svg"@, "pdf"@, "zip"@, "tar"@, "gz"@,
        "bz2"@, "xz"@, "7z"@, "rar"@, "exe"@, "dll"@, "so"@, "dylib"@, "bin"@, "wasm"@, "mp3"@, "mp4"@,
        "avi"@, "mov"@, "mkv"@, "woff"@, "woff2"@, "ttf"@, "eot"@, "o"@, "pyc"@, "class"@, "dex"@, "apk"@,
        "aab"@, "keystore"@,
    ]
}

/// A file is taken for binary when its lowercased extension is one of the
/// binary extensions.
pub open spec fn spec_is_binary(path: Seq<char>) -> bool {
    match spec_extension(path) {
        Some(e) => binary_extensions().contains(spec_lowercase(e)),
        None => false,
    }
}

fn binary_extension_list() -> (v: Vec<&'static str>)
    ensures
        v@.len() == binary_extensions().len(),
        forall|i: int| 0 <= i < v@.len() ==> v@[i]@ == #[trigger] binary_extensions()[i],
{
    let v = vec![
        "png", "jpg", "jpeg", "gif", "bmp", "ico", "webp", "svg", "pdf", "zip", "tar", "gz", "bz2", "xz", "7z",
        "rar", "exe", "dll", "so", "dylib", "bin", "wasm", "mp3", "mp4", "avi", "mov", "mkv", "woff", "woff2",
        "ttf", "eot", "o", "pyc", "class", "dex", "apk", "aab", "keystore",
    ];
    assert forall|i: int| 0 <= i < v@.len() implies v@[i]@ == #[trigger] binary_extensions()[i] by {
        assert(v@[i] == v@[i]);
    }
    v
}

/// Whether a file is probably binary, by its extension.
pub fn is_probably_binary(path: &str) -> (b: bool)
    ensures
        b == spec_is_binary(path@),
{
    match path_extension(path) {
        None => false,
        Some(ext) => {
            let lower = to_lowercase(ext.as_str());
            let list = binary_extension_list();
            let mut i: usize = 0;
            while i < list.len()
                invariant
                    i <= list@.len(),
                    lower@ == spec_lowercase(ext@),
                    spec_extension(path@) == Some(ext@),
                    list@.len() == binary_extensions().len(),
                    forall|k: int| 0 <= k < list@.len() ==> list@[k]@ == #[trigger] binary_extensions()[k],
                    forall|k: int| 0 <= k < i ==> binary_extensions()[k] != lower@,
                decreases list@.len() - i,
            {
                if str_eq(list[i], lower.as_str()) {
                    assert(binary_extensions()[i as int] == lower@);
                    assert(binary_extensions().contains(lower@));
                    return true;
                }
                i += 1;
            }
            false
        },
    }
}

/// A binary file larger than the read limit is refused.
pub fn check_read(is_binary: bool, file_len: u64, max_bytes: usize) -> (r: Result<(), ReadFileError>)
    ensures
        r is Err <==> is_binary && file_len > max_bytes,
        r matches Err(e) ==> e is BinaryTooLarge,
{
    if is_binary && file_len > max_bytes as u64 {
        Err(ReadFileError::BinaryTooLarge)
    } else {
        Ok(())
    }
}

/// What the reading tool shows of a file of `file_len` bytes whose first
/// bytes read are `bytes`: base64 under a header for a binary file; the
/// text otherwise, after a truncation note when the read stopped at the
/// limit of a longer file.
pub open spec fn file_view(path: Seq<char>, is_binary: bool, file_len: u64, max_bytes: usize, bytes: Seq<u8>) -> Seq<char> {
    if is_binary {
        "[Binary file: "@ + path + ", "@ + decimal(file_len as nat) + " bytes]\nBase64:\n"@ + spec_b64_encode(bytes)
    } else if bytes.len() == max_bytes && file_len > max_bytes {
        "... (truncated at "@ + decimal(max_bytes as nat) + " of "@ + decimal(file_len as nat) + " bytes)\n"@
            + spec_utf8_lossy(bytes)
    } else {
        spec_utf8_lossy(bytes)
    }
}

pub fn render_file_content(path: &str, is_binary: bool, file_len: u64, max_bytes: usize, bytes: &[u8]) -> (s: String)
    ensures
        s@ == file_view(path@, is_binary, file_len, max_bytes, bytes@),
{
    if is_binary {
        let mut s = String::from_str("[Binary file: ");
        s.append(path);
        s.append(", ");
        s.append(decimal_u64(file_len).as_str());
        s.append(" bytes]\nBase64:\n");
        s.append(b64_encode(bytes).as_str());
        s
    } else {
        let text = utf8_lossy(bytes);
        if bytes.len() == max_bytes && file_len > max_bytes as u64 {
            let mut s = String::from_str("... (truncated at ");
            s.append(decimal_string(max_bytes).as_str());
            s.append(" of ");
            s.append(decimal_u64(file_len).as_str());
            s.append(" bytes)\n");
            s.append(text.as_str());
            s
        } else {
            text
        }
    }
}

} // verus!
