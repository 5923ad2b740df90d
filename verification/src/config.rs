//! Provider configuration: protocols, provider records, the sources they
//! come from and how several sources are merged.
use vstd::prelude::*;
use std::time::Duration;
use crate::text::str_eq;
use crate::codec::{
    aes_decrypt, aes_encrypt, aes_gcm_open, aes_gcm_seal, b64_decode, b64_encode, byte_range, concat_bytes,
    generate_nonce, spec_b64_decode, spec_b64_encode, spec_b64_error, spec_utf8_error, string_from_utf8,
    AES_GCM_P_MAX,
};
use vstd::string::StringSliceAdditionalSpecFns;
use vstd::utf8::{decode_utf8, encode_utf8, encode_utf8_decode_utf8, encode_utf8_valid_utf8, valid_utf8};

verus! {

/// The wire protocol a provider speaks.
#[derive(Debug, Clone, Copy, PartialEq, Eq, Structural)]
pub enum ProviderProtocol {
    OpenAi,
    OpenAiCompatible,
    Anthropic,
    Cohere,
    Gemini,
    Mistral,
    Ollama,
    Llamafile,
    Azure,
    Copilot,
}

/// The protocol a provider id maps to; unknown ids speak the
/// OpenAI-compatible protocol.
pub open spec fn protocol_of_id(id: Seq<char>) -> ProviderProtocol {
    if id == "openai"@ {
        ProviderProtocol::OpenAi
    } else if id == "anthropic"@ {
        ProviderProtocol::Anthropic
    } else if id == "cohere"@ {
        ProviderProtocol::Cohere
    } else if id == "gemini"@ || id == "google"@ {
        ProviderProtocol::Gemini
    } else if id == "mistral"@ {
        ProviderProtocol::Mistral
    } else if id == "ollama"@ {
        ProviderProtocol::Ollama
    } else if id == "llamafile"@ {
        ProviderProtocol::Llamafile
    } else if id == "azure"@ {
        ProviderProtocol::Azure
    } else if id == "github-copilot"@ {
        ProviderProtocol::Copilot
    } else {
        ProviderProtocol::OpenAiCompatible
    }
}

pub open spec fn protocol_label(p: ProviderProtocol) -> Seq<char> {
    match p {
        ProviderProtocol::OpenAi => "OpenAI"@,
        ProviderProtocol::OpenAiCompatible => "OpenAI Compatible"@,
        ProviderProtocol::Anthropic => "Anthropic"@,
        ProviderProtocol::Cohere => "Cohere"@,
        ProviderProtocol::Gemini => "Gemini"@,
        ProviderProtocol::Mistral => "Mistral"@,
        ProviderProtocol::Ollama => "Ollama"@,
        ProviderProtocol::Llamafile => "Llamafile"@,
        ProviderProtocol::Azure => "Azure OpenAI"@,
        ProviderProtocol::Copilot => "GitHub Copilot"@,
    }
}

/// Local servers need no key.
pub open spec fn protocol_needs_key(p: ProviderProtocol) -> bool {
    !(p is Ollama || p is Llamafile)
}

pub open spec fn protocol_embeds(p: ProviderProtocol) -> bool {
    p is OpenAi || p is OpenAiCompatible || p is Cohere || p is Gemini || p is Mistral || p is Azure
}

impl ProviderProtocol {
    pub fn from_id(provider_id: &str) -> (p: ProviderProtocol)
        ensures
            p == protocol_of_id(provider_id@),
    {
        if str_eq(provider_id, "openai") {
            ProviderProtocol::OpenAi
        } else if str_eq(provider_id, "anthropic") {
            ProviderProtocol::Anthropic
        } else if str_eq(provider_id, "cohere") {
            ProviderProtocol::Cohere
        } else if str_eq(provider_id, "gemini") || str_eq(provider_id, "google") {
            ProviderProtocol::Gemini
        } else if str_eq(provider_id, "mistral") {
            ProviderProtocol::Mistral
        } else if str_eq(provider_id, "ollama") {
            ProviderProtocol::Ollama
        } else if str_eq(provider_id, "llamafile") {
            ProviderProtocol::Llamafile
        } else if str_eq(provider_id, "azure") {
            ProviderProtocol::Azure
        } else if str_eq(provider_id, "github-copilot") {
            ProviderProtocol::Copilot
        } else {
            ProviderProtocol::OpenAiCompatible
        }
    }

    pub fn label(&self) -> (s: &'static str)
        ensures
            s@ == protocol_label(*self),
    {
        match self {
            ProviderProtocol::OpenAi => "OpenAI",
            ProviderProtocol::OpenAiCompatible => "OpenAI Compatible",
            ProviderProtocol::Anthropic => "Anthropic",
            ProviderProtocol::Cohere => "Cohere",
            ProviderProtocol::Gemini => "Gemini",
            ProviderProtocol::Mistral => "Mistral",
            ProviderProtocol::Ollama => "Ollama",
            ProviderProtocol::Llamafile => "Llamafile",
            ProviderProtocol::Azure => "Azure OpenAI",
            ProviderProtocol::Copilot => "GitHub Copilot",
        }
    }

    pub fn requires_api_key(&self) -> (b: bool)
        ensures
            b == protocol_needs_key(*self),
    {
        match self {
            ProviderProtocol::Ollama | ProviderProtocol::Llamafile => false,
            _ => true,
        }
    }

    pub fn supports_embeddings(&self) -> (b: bool)
        ensures
            b == protocol_embeds(*self),
    {
        match self {
            ProviderProtocol::OpenAi
            | ProviderProtocol::OpenAiCompatible
            | ProviderProtocol::Cohere
            | ProviderProtocol::Gemini
            | ProviderProtocol::Mistral
            | ProviderProtocol::Azure => true,
            _ => false,
        }
    }
}

/// One chat message.
#[derive(Debug, Clone)]
pub struct Message {
    pub role: String,
    pub content: String,
}

/// A completion and its token accounting.
#[derive(Debug, Clone)]
pub struct LlmResponse {
    pub content: String,
    pub tokens_used: u32,
    pub cached_input_tokens: u32,
    pub cache_creation_input_tokens: u32,
}

/// Why a streamed exchange ended.
#[derive(Debug, Clone, Copy, PartialEq, Eq, Structural)]
pub enum DoneReason {
    Normal,
    LoopTerminated,
    StreamError,
}

/// One provider connection.
#[derive(Debug, Clone)]
pub struct ProviderConfig {
    pub id: String,
    pub name: String,
    pub protocol: ProviderProtocol,
    pub base_url: String,
    pub api_key: String,
    pub models: Vec<String>,
    pub timeout_secs: u64,
    pub max_retries: u32,
    pub max_connections: u32,
}

pub open spec fn default_timeout() -> u64 {
    60
}

pub open spec fn default_retries() -> u32 {
    3
}

pub open spec fn default_connections() -> u32 {
    5
}

/// A provider record with the given identity and the default limits.
pub open spec fn is_provider(
    c: ProviderConfig,
    id: Seq<char>,
    name: Seq<char>,
    protocol: ProviderProtocol,
    base_url: Seq<char>,
) -> bool {
    &&& c.id@ == id
    &&& c.name@ == name
    &&& c.protocol == protocol
    &&& c.base_url@ == base_url
    &&& c.api_key@ == Seq::<char>::empty()
    &&& c.models@.len() == 0
    &&& c.timeout_secs == default_timeout()
    &&& c.max_retries == default_retries()
    &&& c.max_connections == default_connections()
}

impl Default for ProviderConfig {
    fn default() -> (c: Self)
        ensures
            is_provider(c, Seq::empty(), Seq::empty(), ProviderProtocol::OpenAiCompatible, Seq::empty()),
    {
        ProviderConfig {
            id: String::new(),
            name: String::new(),
            protocol: ProviderProtocol::OpenAiCompatible,
            base_url: String::new(),
            api_key: String::new(),
            models: Vec::new(),
            timeout_secs: 60,
            max_retries: 3,
            max_connections: 5,
        }
    }
}

/// The whole seconds of a duration, as `Duration::as_secs` reports them.
pub uninterp spec fn spec_duration_secs(d: Duration) -> u64;

/// The nanoseconds of a duration beyond its whole seconds, as
/// `Duration::subsec_nanos` reports them.
pub uninterp spec fn spec_duration_subsec_nanos(d: Duration) -> u32;

/// `Duration::from_secs`: its documentation says it makes a duration of
/// `secs` whole seconds, so the duration's whole seconds are `secs` and it
/// has no part of a second.
#[verifier::external_body]
fn duration_from_secs(secs: u64) -> (d: Duration)
    ensures
        spec_duration_secs(d) == secs,
        spec_duration_subsec_nanos(d) == 0,
{
    Duration::from_secs(secs)
}

impl ProviderConfig {
    /// The request timeout, `timeout_secs` seconds.
    pub fn timeout(&self) -> (d: Duration)
        ensures
            spec_duration_secs(d) == self.timeout_secs,
            spec_duration_subsec_nanos(d) == 0,
    {
        duration_from_secs(self.timeout_secs)
    }

    pub fn requires_api_key(&self) -> (b: bool)
        ensures
            b == protocol_needs_key(self.protocol),
    {
        self.protocol.requires_api_key()
    }

    /// Every protocol here carries tool calls.
    pub fn supports_tools(&self) -> (b: bool)
        ensures
            b,
    {
        true
    }
}

fn provider(id: &str, name: &str, protocol: ProviderProtocol, base_url: &str) -> (c: ProviderConfig)
    ensures
        is_provider(c, id@, name@, protocol, base_url@),
{
    ProviderConfig {
        id: String::from_str(id),
        name: String::from_str(name),
        protocol,
        base_url: String::from_str(base_url),
        api_key: String::new(),
        models: Vec::new(),
        timeout_secs: 60,
        max_retries: 3,
        max_connections: 5,
    }
}

/// Why a configuration source could not be read.
#[derive(Debug, Clone)]
pub struct ConfigError(pub String);

/// A source of provider records.
pub trait ConfigSource {
    fn name(&self) -> &'static str;

    fn load(&self) -> Result<Vec<ProviderConfig>, ConfigError>;
}

/// Provider records kept in a JSON file; the application reads the file.
pub struct FileConfigSource {
    path: String,
}

impl FileConfigSource {
    pub fn new(path: String) -> (s: Self)
        ensures
            s.path() == path@,
    {
        FileConfigSource { path }
    }

    pub closed spec fn path(&self) -> Seq<char> {
        self.path@
    }

    pub fn file_path(&self) -> (p: &str)
        ensures
            p@ == self.path(),
    {
        self.path.as_str()
    }

    pub fn name(&self) -> (s: &'static str)
        ensures
            s@ == "file"@,
    {
        "file"
    }
}

/// The built-in providers.
pub struct DefaultConfigSource;

/// The built-in providers, in order: OpenAI, Anthropic and a local Ollama.
pub open spec fn default_providers(cs: Seq<ProviderConfig>) -> bool {
    &&& cs.len() == 3
    &&& is_provider(cs[0], "openai"@, "OpenAI"@, ProviderProtocol::OpenAi, "https://api.openai.com/v1"@)
    &&& is_provider(cs[1], "anthropic"@, "Anthropic"@, ProviderProtocol::Anthropic, "https://api.anthropic.com"@)
    &&& is_provider(cs[2], "ollama"@, "Ollama"@, ProviderProtocol::Ollama, "http://localhost:11434"@)
}

impl DefaultConfigSource {
    pub fn providers(&self) -> (r: Vec<ProviderConfig>)
        ensures
            default_providers(r@),
    {
        let mut r: Vec<ProviderConfig> = Vec::new();
        r.push(provider("openai", "OpenAI", ProviderProtocol::OpenAi, "https://api.openai.com/v1"));
        r.push(provider("anthropic", "Anthropic", ProviderProtocol::Anthropic, "https://api.anthropic.com"));
        r.push(provider("ollama", "Ollama", ProviderProtocol::Ollama, "http://localhost:11434"));
        r
    }
}

impl ConfigSource for DefaultConfigSource {
    fn name(&self) -> (n: &'static str)
        ensures
            n@ == "defaults"@,
    {
        "defaults"
    }

    /// The built-in providers; loading them cannot fail.
    fn load(&self) -> (r: Result<Vec<ProviderConfig>, ConfigError>)
        ensures
            r matches Ok(v) && default_providers(v@),
    {
        Ok(self.providers())
    }
}

/// No two records share an id.
pub open spec fn distinct_ids(cs: Seq<ProviderConfig>) -> bool {
    forall|i: int, j: int| 0 <= i < cs.len() && 0 <= j < cs.len() && i != j ==> cs[i].id@ != cs[j].id@
}

/// `acc` with `c` added: it takes the place of the record with the same id,
/// or goes last.
pub open spec fn merge_one(acc: Seq<ProviderConfig>, c: ProviderConfig) -> Seq<ProviderConfig> {
    if exists|i: int| 0 <= i < acc.len() && acc[i].id@ == c.id@ {
        acc.update(choose|i: int| 0 <= i < acc.len() && acc[i].id@ == c.id@, c)
    } else {
        acc.push(c)
    }
}

/// `acc` with each record of `cs` added in turn.
pub open spec fn merge_seq(acc: Seq<ProviderConfig>, cs: Seq<ProviderConfig>) -> Seq<ProviderConfig>
    decreases cs.len(),
{
    if cs.len() == 0 {
        acc
    } else {
        merge_seq(merge_one(acc, cs[0]), cs.drop_first())
    }
}

/// `acc` with the records of each list added in turn.
pub open spec fn merge_lists(acc: Seq<ProviderConfig>, lists: Seq<Seq<ProviderConfig>>) -> Seq<ProviderConfig>
    decreases lists.len(),
{
    if lists.len() == 0 {
        acc
    } else {
        merge_lists(merge_seq(acc, lists[0]), lists.drop_first())
    }
}

pub open spec fn lists_view(ls: Seq<Vec<ProviderConfig>>) -> Seq<Seq<ProviderConfig>> {
    ls.map_values(|l: Vec<ProviderConfig>| l@)
}

proof fn lemma_merge_one_distinct(acc: Seq<ProviderConfig>, c: ProviderConfig)
    requires
        distinct_ids(acc),
    ensures
        distinct_ids(merge_one(acc, c)),
{
    if exists|i: int| 0 <= i < acc.len() && acc[i].id@ == c.id@ {
        let k = choose|i: int| 0 <= i < acc.len() && acc[i].id@ == c.id@;
        let r = acc.update(k, c);
        assert forall|i: int, j: int| 0 <= i < r.len() && 0 <= j < r.len() && i != j implies r[i].id@ != r[j].id@ by {
            if i == k {
                assert(acc[j].id@ != acc[k].id@);
            } else if j == k {
                assert(acc[i].id@ != acc[k].id@);
            }
        }
    } else {
        let r = acc.push(c);
        assert forall|i: int, j: int| 0 <= i < r.len() && 0 <= j < r.len() && i != j implies r[i].id@ != r[j].id@ by {
            if i == acc.len() {
                assert(!(0 <= j < acc.len() && acc[j].id@ == c.id@));
            } else if j == acc.len() {
                assert(!(0 <= i < acc.len() && acc[i].id@ == c.id@));
            }
        }
    }
}

proof fn lemma_merge_seq_distinct(acc: Seq<ProviderConfig>, cs: Seq<ProviderConfig>)
    requires
        distinct_ids(acc),
    ensures
        distinct_ids(merge_seq(acc, cs)),
    decreases cs.len(),
{
    if cs.len() > 0 {
        lemma_merge_one_distinct(acc, cs[0]);
        lemma_merge_seq_distinct(merge_one(acc, cs[0]), cs.drop_first());
    }
}

proof fn lemma_merge_seq_append(acc: Seq<ProviderConfig>, a: Seq<ProviderConfig>, b: Seq<ProviderConfig>)
    ensures
        merge_seq(acc, a + b) == merge_seq(merge_seq(acc, a), b),
    decreases a.len(),
{
    if a.len() == 0 {
        assert(a + b =~= b);
    } else {
        assert((a + b).drop_first() =~= a.drop_first() + b);
        assert((a + b)[0] == a[0]);
        lemma_merge_seq_append(merge_one(acc, a[0]), a.drop_first(), b);
    }
}

proof fn lemma_merge_lists_flat(acc: Seq<ProviderConfig>, lists: Seq<Seq<ProviderConfig>>)
    ensures
        merge_lists(acc, lists) == merge_seq(acc, lists.flatten()),
    decreases lists.len(),
{
    if lists.len() > 0 {
        lemma_merge_lists_flat(merge_seq(acc, lists[0]), lists.drop_first());
        lemma_merge_seq_append(acc, lists[0], lists.drop_first().flatten());
    }
}

/// A record whose id none of `cs` has keeps its place.
proof fn lemma_merge_seq_keeps(acc: Seq<ProviderConfig>, cs: Seq<ProviderConfig>, p: int)
    requires
        distinct_ids(acc),
        0 <= p < acc.len(),
        forall|j: int| 0 <= j < cs.len() ==> cs[j].id@ != acc[p].id@,
    ensures
        p < merge_seq(acc, cs).len(),
        merge_seq(acc, cs)[p] == acc[p],
    decreases cs.len(),
{
    if cs.len() > 0 {
        let next = merge_one(acc, cs[0]);
        lemma_merge_one_distinct(acc, cs[0]);
        assert(next[p] == acc[p]) by {
            if exists|i: int| 0 <= i < acc.len() && acc[i].id@ == cs[0].id@ {
                let i = choose|i: int| 0 <= i < acc.len() && acc[i].id@ == cs[0].id@;
                assert(i != p);
            }
        }
        assert forall|j: int| 0 <= j < cs.drop_first().len() implies (#[trigger] cs.drop_first()[j]).id@ != next[p].id@ by {
            assert(cs.drop_first()[j] == cs[j + 1]);
        }
        lemma_merge_seq_keeps(next, cs.drop_first(), p);
    }
}

proof fn lemma_merge_seq_last_wins(acc: Seq<ProviderConfig>, cs: Seq<ProviderConfig>, k: int)
    requires
        distinct_ids(acc),
        0 <= k < cs.len(),
        forall|j: int| k < j < cs.len() ==> cs[j].id@ != cs[k].id@,
    ensures
        merge_seq(acc, cs).contains(cs[k]),
    decreases cs.len(),
{
    let next = merge_one(acc, cs[0]);
    lemma_merge_one_distinct(acc, cs[0]);
    if k == 0 {
        let p = if exists|i: int| 0 <= i < acc.len() && acc[i].id@ == cs[0].id@ {
            choose|i: int| 0 <= i < acc.len() && acc[i].id@ == cs[0].id@
        } else {
            acc.len() as int
        };
        assert(next[p] == cs[0]);
        assert forall|j: int| 0 <= j < cs.drop_first().len() implies (#[trigger] cs.drop_first()[j]).id@ != next[p].id@ by {
            assert(cs.drop_first()[j] == cs[j + 1]);
        }
        lemma_merge_seq_keeps(next, cs.drop_first(), p);
        assert(merge_seq(acc, cs)[p] == cs[0]);
    } else {
        assert forall|j: int| k - 1 < j < cs.drop_first().len() implies (#[trigger] cs.drop_first()[j]).id@
            != cs.drop_first()[k - 1].id@ by {
            assert(cs.drop_first()[j] == cs[j + 1]);
        }
        lemma_merge_seq_last_wins(next, cs.drop_first(), k - 1);
    }
}

/// Merging sources: within everything the sources hold, taken in order,
/// the last record given for an id is the one the merged list holds, and
/// no two records of the merged list share an id.
pub proof fn lemma_merge_last_wins(lists: Seq<Seq<ProviderConfig>>, k: int)
    requires
        0 <= k < lists.flatten().len(),
        forall|j: int| k < j < lists.flatten().len() ==> lists.flatten()[j].id@ != lists.flatten()[k].id@,
    ensures
        merge_lists(Seq::empty(), lists).contains(lists.flatten()[k]),
        distinct_ids(merge_lists(Seq::empty(), lists)),
{
    lemma_merge_lists_flat(Seq::empty(), lists);
    lemma_merge_seq_last_wins(Seq::empty(), lists.flatten(), k);
    lemma_merge_seq_distinct(Seq::empty(), lists.flatten());
}

/// Add one record to `acc`.
fn merge_into(acc: &mut Vec<ProviderConfig>, c: ProviderConfig)
    requires
        distinct_ids(old(acc)@),
    ensures
        final(acc)@ == merge_one(old(acc)@, c),
        distinct_ids(final(acc)@),
{
    proof {
        lemma_merge_one_distinct(acc@, c);
    }
    let mut i: usize = 0;
    while i < acc.len()
        invariant
            i <= acc@.len(),
            acc@ == old(acc)@,
            distinct_ids(acc@),
            forall|k: int| 0 <= k < i ==> acc@[k].id@ != c.id@,
        decreases acc@.len() - i,
    {
        if acc[i].id == c.id {
            proof {
                let k = choose|k: int| 0 <= k < acc@.len() && acc@[k].id@ == c.id@;
                if k != i {
                    assert(acc@[k].id@ != acc@[i as int].id@);
                }
            }
            acc.set(i, c);
            return;
        }
        i += 1;
    }
    acc.push(c);
}

/// Merge records list by list: a later record replaces an earlier one with
/// the same id in its place; new ids are appended.
pub fn merge_loaded(lists: Vec<Vec<ProviderConfig>>) -> (r: Vec<ProviderConfig>)
    ensures
        r@ == merge_lists(Seq::empty(), lists_view(lists@)),
        distinct_ids(r@),
{
    let ghost target = merge_lists(Seq::empty(), lists_view(lists@));
    let mut lists = lists;
    let mut acc: Vec<ProviderConfig> = Vec::new();
    while lists.len() > 0
        invariant
            distinct_ids(acc@),
            merge_lists(acc@, lists_view(lists@)) == target,
        decreases lists@.len(),
    {
        let ghost before = lists_view(lists@);
        let mut l = lists.remove(0);
        let ghost rest = lists_view(lists@);
        assert(before.drop_first() =~= rest);
        assert(before[0] == l@);
        while l.len() > 0
            invariant
                distinct_ids(acc@),
                merge_lists(merge_seq(acc@, l@), rest) == target,
            decreases l@.len(),
        {
            let ghost old_l = l@;
            let c = l.remove(0);
            assert(old_l.drop_first() =~= l@);
            merge_into(&mut acc, c);
        }
    }
    acc
}

/// Load every source in order and merge what they hold; the first source
/// that fails stops the merge with its error. What each source loads is
/// its own affair: the merged list is the merge of one loaded list per
/// source, in the order of the sources. With no sources there is nothing
/// to load, and the merge is the empty list.
pub fn merge_configs(sources: &[&dyn ConfigSource]) -> (r: Result<Vec<ProviderConfig>, ConfigError>)
    ensures
        sources@.len() == 0 ==> (r matches Ok(v) && v@.len() == 0),
        r matches Ok(v) ==> distinct_ids(v@),
        r matches Ok(v) ==> exists|ls: Seq<Seq<ProviderConfig>>|
            ls.len() == sources@.len() && v@ == #[trigger] merge_lists(Seq::empty(), ls),
{
    let mut lists: Vec<Vec<ProviderConfig>> = Vec::new();
    let mut i: usize = 0;
    while i < sources.len()
        invariant
            i <= sources@.len(),
            lists@.len() == i,
        decreases sources@.len() - i,
    {
        match sources[i].load() {
            Ok(l) => lists.push(l),
            Err(e) => {
                return Err(e);
            },
        }
        i += 1;
    }
    let ghost ls = lists_view(lists@);
    assert(sources@.len() == 0 ==> ls =~= Seq::<Seq<ProviderConfig>>::empty());
    let merged = merge_loaded(lists);
    assert(ls.len() == sources@.len() && merged@ == merge_lists(Seq::empty(), ls));
    Ok(merged)
}

/// What `Path::file_name` gives for a path: its last component, if it is a
/// normal one.
pub uninterp spec fn spec_file_name(path: Seq<char>) -> Option<Seq<char>>;

/// `Path::file_name`, the component as a string; the result is named by
/// `spec_file_name`.
#[verifier::external_body]
fn file_name(path: &str) -> (r: Option<String>)
    ensures
        match r {
            Some(n) => spec_file_name(path@) == Some(n@),
            None => spec_file_name(path@) is None,
        },
{
    std::path::Path::new(path).file_name().map(|n| n.to_string_lossy().to_string())
}

/// The name a project directory goes by: its last path component, or the
/// whole path when it has none.
pub open spec fn dir_name(path: Seq<char>) -> Seq<char> {
    match spec_file_name(path) {
        Some(n) => n,
        None => path,
    }
}

/// An opened project directory.
#[derive(Debug, Clone)]
pub struct ProjectConfig {
    pub path: String,
    pub name: String,
}

impl ProjectConfig {
    pub fn new(path: String) -> (c: Self)
        ensures
            c.path@ == path@,
            c.name@ == dir_name(path@),
    {
        let name = match file_name(path.as_str()) {
            Some(n) => n,
            None => String::from_str(path.as_str()),
        };
        ProjectConfig { path, name }
    }

    /// The configured name, or the directory name when none is set.
    pub fn name(&self) -> (n: String)
        ensures
            n@ == if self.name@.len() == 0 {
                dir_name(self.path@)
            } else {
                self.name@
            },
    {
        if self.name.as_str().is_empty() {
            match file_name(self.path.as_str()) {
                Some(n) => n,
                None => String::from_str(self.path.as_str()),
            }
        } else {
            String::from_str(self.name.as_str())
        }
    }
}

/// Persisted user preferences; the API key is stored encrypted.
#[derive(Debug, Clone)]
pub struct UserConfig {
    pub selected_provider: String,
    pub selected_model: String,
    pub api_key: String,
    pub encrypted: bool,
    pub project_path: String,
}

/// The stored form of an API key: base64 of the nonce followed by the
/// AES-256-GCM ciphertext of the key's UTF-8 bytes.
pub open spec fn sealed_api_key(key: Seq<u8>, nonce: Seq<u8>, plaintext: Seq<char>) -> Seq<char> {
    spec_b64_encode(nonce + aes_gcm_seal(key, nonce, encode_utf8(plaintext)))
}

/// The key's UTF-8 bytes fit in one AES-GCM message.
pub open spec fn sealable(plaintext: Seq<char>) -> bool {
    encode_utf8(plaintext).len() <= AES_GCM_P_MAX
}

/// Seal an API key under `key` with the given nonce.
pub fn seal_api_key(key: &[u8; 32], nonce: &[u8; 12], plaintext: &str) -> (r: Result<String, String>)
    ensures
        sealable(plaintext@) ==> (r matches Ok(s) && s@ == sealed_api_key(key@, nonce@, plaintext@)),
        !sealable(plaintext@) ==> (r matches Err(e) && e@ == "encryption failed: aead::Error"@),
{
    let bytes = plaintext.as_bytes();
    match aes_encrypt(key, nonce, bytes) {
        None => Err(String::from_str("encryption failed: aead::Error")),
        Some(ct) => {
            let buf = concat_bytes(nonce, ct.as_slice());
            Ok(b64_encode(buf.as_slice()))
        },
    }
}

/// Seal an API key under `key` with a fresh random nonce.
pub fn encrypt_api_key(key: &[u8; 32], plaintext: &str) -> (r: Result<String, String>)
    ensures
        sealable(plaintext@) ==> (r matches Ok(s) && exists|n: Seq<u8>|
            n.len() == 12 && s@ == #[trigger] sealed_api_key(key@, n, plaintext@)),
        !sealable(plaintext@) ==> (r matches Err(e) && e@ == "encryption failed: aead::Error"@),
{
    let nonce = generate_nonce();
    let r = seal_api_key(key, &nonce, plaintext);
    proof {
        if sealable(plaintext@) {
            assert(nonce@.len() == 12);
        }
    }
    r
}

/// What a stored API key opens to under `key`: the key, or the error of
/// the first step that fails (base64, length, authentication, UTF-8).
pub open spec fn opened_api_key(key: Seq<u8>, encoded: Seq<char>) -> Result<Seq<char>, Seq<char>> {
    match spec_b64_decode(encoded) {
        None => Err("base64 decode failed: "@ + spec_b64_error(encoded)),
        Some(data) => if data.len() < 12 {
            Err("invalid encrypted data"@)
        } else {
            match aes_gcm_open(key, data.subrange(0, 12), data.subrange(12, data.len() as int)) {
                None => Err("decryption failed: aead::Error"@),
                Some(p) => if valid_utf8(p) {
                    Ok(decode_utf8(p))
                } else {
                    Err("invalid utf-8: "@ + spec_utf8_error(p))
                },
            }
        },
    }
}

/// `encoded` is what sealing `p` under `key` with nonce `n` stores.
pub open spec fn seals(key: Seq<u8>, encoded: Seq<char>, n: Seq<u8>, p: Seq<char>) -> bool {
    n.len() == 12 && sealable(p) && encoded == sealed_api_key(key, n, p)
}

/// Open a stored API key. A key sealed under the same `key` opens to
/// itself, whatever nonce sealed it.
pub fn decrypt_api_key(key: &[u8; 32], encoded: &str) -> (r: Result<String, String>)
    ensures
        match opened_api_key(key@, encoded@) {
            Ok(s) => r matches Ok(t) && t@ == s,
            Err(m) => r matches Err(e) && e@ == m,
        },
        forall|n: Seq<u8>, p: Seq<char>| #[trigger] seals(key@, encoded@, n, p) ==> r is Ok && r->Ok_0@ == p,
{
    let data = match b64_decode(encoded) {
        Ok(d) => d,
        Err(e) => {
            let mut m = String::from_str("base64 decode failed: ");
            m.append(e.as_str());
            return Err(m);
        },
    };
    if data.len() < 12 {
        proof {
            assert forall|n: Seq<u8>, p: Seq<char>| #[trigger] seals(key@, encoded@, n, p) implies false by {
                assert(data@ == n + aes_gcm_seal(key@, n, encode_utf8(p)));
            }
        }
        return Err(String::from_str("invalid encrypted data"));
    }
    let nonce_bytes = byte_range(data.as_slice(), 0, 12);
    let ciphertext = byte_range(data.as_slice(), 12, data.len());
    let plain = match aes_decrypt(key, nonce_bytes.as_slice(), ciphertext.as_slice()) {
        Some(p) => p,
        None => {
            proof {
                assert forall|n: Seq<u8>, p: Seq<char>| #[trigger] seals(key@, encoded@, n, p) implies false by {
                    let c = aes_gcm_seal(key@, n, encode_utf8(p));
                    assert(data@ == n + c);
                    assert(nonce_bytes@ =~= n);
                    assert(ciphertext@ =~= c);
                }
            }
            return Err(String::from_str("decryption failed: aead::Error"));
        },
    };
    proof {
        assert forall|n: Seq<u8>, p: Seq<char>| #[trigger] seals(key@, encoded@, n, p) implies plain@ == encode_utf8(p)
            && valid_utf8(plain@) by {
            let c = aes_gcm_seal(key@, n, encode_utf8(p));
            assert(data@ == n + c);
            assert(nonce_bytes@ =~= n);
            assert(ciphertext@ =~= c);
            encode_utf8_valid_utf8(p);
        }
    }
    let ghost pv = plain@;
    match string_from_utf8(plain) {
        Ok(s) => {
            proof {
                assert forall|n: Seq<u8>, p: Seq<char>| #[trigger] seals(key@, encoded@, n, p) implies s@ == p by {
                    encode_utf8_decode_utf8(p);
                }
            }
            Ok(s)
        },
        Err(e) => {
            let mut m = String::from_str("invalid utf-8: ");
            m.append(e.as_str());
            Err(m)
        },
    }
}

} // verus!
