//! The provider catalogue: model descriptions and where the downloaded
//! catalogue is cached.
use vstd::prelude::*;

verus! {

/// How a model's reasoning can be tuned.
#[derive(Debug, Clone)]
pub struct ReasoningOption {
    pub type_: String,
    pub values: Vec<String>,
    pub min: Option<i64>,
    pub max: Option<i64>,
}

/// Input and output modalities of a model.
#[derive(Debug, Clone)]
pub struct Modalities {
    pub input: Vec<String>,
    pub output: Vec<String>,
}

/// Context and output limits of a model, in tokens.
#[derive(Debug, Clone, Copy, PartialEq, Eq, Structural)]
pub struct Limit {
    pub context: usize,
    pub output: usize,
}

/// Whether a model interleaves reasoning, or in which field it does.
#[derive(Debug, Clone)]
pub enum InterleavedConfig {
    Bool(bool),
    Object { field: String },
}

/// Freshness data of the cached catalogue.
#[derive(Debug, Clone)]
pub struct CacheMetadata {
    pub etag: Option<String>,
    pub hash: Option<String>,
    pub updated_at: Option<u64>,
}

impl Default for CacheMetadata {
    fn default() -> (m: Self)
        ensures
            m.etag is None && m.hash is None && m.updated_at is None,
    {
        CacheMetadata { etag: None, hash: None, updated_at: None }
    }
}

/// Where the catalogue and its metadata are cached.
#[derive(Debug, Clone)]
pub struct CacheLayout {
    pub data: String,
    pub meta: String,
}

/// What `PathBuf::join` gives for a base path and one more part.
pub uninterp spec fn spec_join(base: Seq<char>, part: Seq<char>) -> Seq<char>;

/// `Path::join`, as a string; the result is named by `spec_join`.
#[verifier::external_body]
pub(crate) fn path_join(base: &str, part: &str) -> (r: String)
    ensures
        r@ == spec_join(base@, part@),
{
    std::path::Path::new(base).join(part).to_string_lossy().to_string()
}

/// `dirs::cache_dir`, as a string. It depends on the platform and the
/// environment: nothing is stated of it.
#[verifier::external_body]
fn cache_dir() -> Option<String> {
    dirs::cache_dir().map(|p| p.to_string_lossy().to_string())
}

/// The cache directory of the catalogue under a cache root.
pub open spec fn catalogue_dir(root: Seq<char>) -> Seq<char> {
    spec_join(spec_join(root, "workflow"@), "providers"@)
}

impl CacheLayout {
    /// The layout under the cache root `root`.
    pub fn under(root: &str) -> (l: Self)
        ensures
            l.data@ == spec_join(catalogue_dir(root@), "api.json"@),
            l.meta@ == spec_join(catalogue_dir(root@), "meta.json"@),
    {
        let w = path_join(root, "workflow");
        let dir = path_join(w.as_str(), "providers");
        CacheLayout { data: path_join(dir.as_str(), "api.json"), meta: path_join(dir.as_str(), "meta.json") }
    }

    /// The layout under the platform cache directory, or under the current
    /// directory when there is none.
    pub fn default_path() -> (l: Self)
        ensures
            exists|root: Seq<char>|
                l.data@ == spec_join(catalogue_dir(root), "api.json"@) && l.meta@ == spec_join(
                    catalogue_dir(root),
                    "meta.json"@,
                ),
    {
        let root = match cache_dir() {
            Some(d) => d,
            None => String::from_str("."),
        };
        CacheLayout::under(root.as_str())
    }
}

} // verus!
