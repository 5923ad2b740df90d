//! MCP server configuration: the records, and how the stored list changes
//! when a server is added or removed. Reading and writing the file is the
//! caller's part.
use vstd::prelude::*;
use crate::text::{chars_of, str_eq, trim, trim_range};

verus! {

/// How to reach one MCP server.
#[derive(Debug, Clone)]
pub enum McpTransport {
    /// A subprocess spoken to over stdio, with extra environment variables.
    Stdio { command: String, args: Vec<String>, env: Option<Vec<(String, String)>> },
    Sse { url: String },
    StreamableHttp { url: String },
}

/// One configured MCP server.
#[derive(Debug, Clone)]
pub struct McpServerConfig {
    pub name: String,
    pub transport: McpTransport,
}

/// The stored form of the configuration.
#[derive(Debug, Clone)]
pub struct McpConfigFile {
    pub servers: Vec<McpServerConfig>,
}

impl Default for McpConfigFile {
    fn default() -> (f: Self)
        ensures
            f.servers@.len() == 0,
    {
        McpConfigFile { servers: Vec::new() }
    }
}

/// What a connected server reports of itself.
#[derive(Debug, Clone)]
pub struct McpConnectionInfo {
    pub name: String,
    pub tool_count: usize,
}

/// Arguments of the install tool.
#[derive(Debug, Clone)]
pub struct InstallMcpServerArgs {
    pub name: String,
    pub command: String,
    pub args: Vec<String>,
    pub env: Option<Vec<(String, String)>>,
}

#[derive(Debug, Clone)]
pub struct InstallMcpServerOutput {
    pub server: String,
    pub status: String,
    pub message: String,
}

#[derive(Debug, Clone, Copy)]
pub struct ListMcpServersArgs {}

#[derive(Debug, Clone)]
pub struct RemoveMcpServerArgs {
    pub name: String,
}

#[derive(Debug, Clone)]
pub struct RemoveMcpServerOutput {
    pub server: String,
    pub status: String,
    pub message: String,
}

/// Where the MCP server list is kept.
pub struct McpConfigSource {
    path: String,
}

/// The first server named `name`, if any.
pub open spec fn first_named(servers: Seq<McpServerConfig>, name: Seq<char>, i: int) -> bool {
    0 <= i < servers.len() && servers[i].name@ == name && forall|k: int| 0 <= k < i ==> servers[k].name@ != name
}

/// `servers` with `config` in the place of the first server of the same
/// name, or appended.
pub open spec fn with_server(servers: Seq<McpServerConfig>, config: McpServerConfig) -> Seq<McpServerConfig> {
    if exists|i: int| first_named(servers, config.name@, i) {
        servers.update(choose|i: int| first_named(servers, config.name@, i), config)
    } else {
        servers.push(config)
    }
}

/// The servers not named `name`.
pub open spec fn named_otherwise(name: Seq<char>) -> spec_fn(McpServerConfig) -> bool {
    |s: McpServerConfig| s.name@ != name
}

/// `servers` without any server named `name`, in order.
pub open spec fn without_server(servers: Seq<McpServerConfig>, name: Seq<char>) -> Seq<McpServerConfig> {
    servers.filter(named_otherwise(name))
}

/// The file holds a bare JSON array (rather than an object with a
/// `servers` list).
pub open spec fn holds_array(content: Seq<char>) -> bool {
    trim(content).len() > 0 && trim(content)[0] == '['
}

impl McpConfigSource {
    pub fn new(path: String) -> (s: Self)
        ensures
            s.spec_path() == path@,
    {
        McpConfigSource { path }
    }

    pub closed spec fn spec_path(&self) -> Seq<char> {
        self.path@
    }

    /// The configuration file.
    pub fn path(&self) -> (p: &str)
        ensures
            p@ == self.spec_path(),
    {
        self.path.as_str()
    }

    /// Whether the file text is a bare array of servers.
    pub fn is_array_form(content: &str) -> (b: bool)
        ensures
            b == holds_array(content@),
    {
        let cs = chars_of(content);
        let t = trim_range(cs.as_slice(), 0, cs.len());
        assert(cs@.subrange(0, cs@.len() as int) =~= cs@);
        t.len() > 0 && t[0] == '['
    }

    /// Add a server to the stored list `servers`, or replace the one of the
    /// same name; the result is the list to store.
    pub fn add_server(&self, servers: Vec<McpServerConfig>, config: McpServerConfig) -> (r: Vec<McpServerConfig>)
        ensures
            r@ == with_server(servers@, config),
    {
        let mut list = servers;
        let mut i: usize = 0;
        while i < list.len()
            invariant
                i <= list@.len(),
                list@ == servers@,
                forall|k: int| 0 <= k < i ==> list@[k].name@ != config.name@,
            decreases list@.len() - i,
        {
            if str_eq(list[i].name.as_str(), config.name.as_str()) {
                proof {
                    assert(first_named(servers@, config.name@, i as int));
                    let j = choose|j: int| first_named(servers@, config.name@, j);
                    if j < i {
                        assert(servers@[j].name@ != config.name@);
                    }
                    if i < j {
                        assert(servers@[i as int].name@ != config.name@);
                    }
                }
                list.set(i, config);
                return list;
            }
            i += 1;
        }
        proof {
            assert(!exists|j: int| first_named(servers@, config.name@, j));
        }
        list.push(config);
        list
    }

    /// Remove every server named `name` from the stored list `servers`:
    /// the list to store and whether anything was removed.
    pub fn remove_server(&self, servers: Vec<McpServerConfig>, name: &str) -> (r: (Vec<McpServerConfig>, bool))
        ensures
            r.0@ == without_server(servers@, name@),
            r.1 == (r.0@.len() != servers@.len()),
    {
        let mut kept: Vec<McpServerConfig> = Vec::new();
        let mut rest = servers;
        let ghost all = rest@;
        let n = rest.len();
        let mut i: usize = 0;
        while rest.len() > 0
            invariant
                n == all.len(),
                i + rest@.len() == all.len(),
                rest@ == all.subrange(i as int, all.len() as int),
                kept@ == without_server(all.subrange(0, i as int), name@),
            decreases rest@.len(),
        {
            let s = rest.remove(0);
            let ghost sv = s;
            let keep = !str_eq(s.name.as_str(), name);
            if keep {
                kept.push(s);
            }
            proof {
                all.subrange(0, i as int).lemma_filter_push(sv, named_otherwise(name@));
                assert(all.subrange(0, i + 1) =~= all.subrange(0, i as int).push(sv));
                assert(rest@ =~= all.subrange(i + 1, all.len() as int));
            }
            i += 1;
        }
        assert(all.subrange(0, all.len() as int) =~= all);
        let removed = kept.len() != n;
        (kept, removed)
    }
}

/// After removing a name, no server of that name is left, and every other
/// server is kept.
pub proof fn lemma_remove_server(servers: Seq<McpServerConfig>, name: Seq<char>)
    ensures
        forall|i: int| 0 <= i < without_server(servers, name).len() ==> (#[trigger] without_server(servers, name)[i]).name@
            != name,
        forall|i: int| 0 <= i < servers.len() && servers[i].name@ != name ==> without_server(servers, name).contains(
            #[trigger] servers[i],
        ),
{
    servers.filter_lemma(named_otherwise(name));
}

/// After adding a server, it is in the list, and the servers of other names
/// are as they were.
pub proof fn lemma_add_server(servers: Seq<McpServerConfig>, config: McpServerConfig)
    ensures
        with_server(servers, config).contains(config),
        forall|i: int| 0 <= i < servers.len() && servers[i].name@ != config.name@ ==> with_server(servers, config)[i]
            == #[trigger] servers[i],
{
    if exists|i: int| first_named(servers, config.name@, i) {
        let k = choose|i: int| first_named(servers, config.name@, i);
        assert(with_server(servers, config)[k] == config);
    } else {
        assert(with_server(servers, config)[servers.len() as int] == config);
    }
}

} // verus!
