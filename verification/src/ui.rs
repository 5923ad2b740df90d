//! What the desktop interface lists and decides on its own: providers and
//! their models, the opened project, the roles it keeps between runs, and
//! the names it gives sessions.
use vstd::prelude::*;
use vstd::utf8::{encode_utf8, is_char_boundary};
use crate::command::starts_with_chars;
use crate::file_tools::{byte_slice, str_slice};
use crate::config::{protocol_of_id, ProjectConfig, ProviderConfig, ProviderProtocol};
use crate::project_scan::shown_name;
use crate::runtime::{RoleInfo, RuntimeConfig, DEFAULT_AGENT_CAPACITY};
use crate::text::{chars_of, is_control, spec_is_control, str_eq, string_of, trim, trim_range, utf8_len};

verus! {

/// A model offered by a provider, as the user interface lists it.
#[derive(Debug, Clone)]
pub struct ProviderModel {
    pub id: String,
    pub name: String,
    pub supports_tools: bool,
}

/// A provider, as the user interface lists it.
#[derive(Debug, Clone)]
pub struct ProviderEntry {
    pub id: String,
    pub name: String,
    pub api_url: Option<String>,
    pub models: Vec<ProviderModel>,
}

/// The opened project, as the user interface shows it.
#[derive(Debug, Clone)]
pub struct ProjectInfo {
    pub name: String,
    pub path: String,
}

/// What the interface reads of a provider's model: its id, its name and
/// whether it is known to call tools.
#[derive(Debug, Clone)]
pub struct ModelSummary {
    pub id: String,
    pub name: String,
    pub tool_call: Option<bool>,
}

/// What the interface reads of a provider from the provider catalogue.
#[derive(Debug, Clone)]
pub struct ProviderSummary {
    pub id: String,
    pub name: String,
    pub api: Option<String>,
    pub models: Vec<ModelSummary>,
}

pub open spec fn opt_view(o: Option<String>) -> Option<Seq<char>> {
    match o {
        Some(s) => Some(s@),
        None => None,
    }
}

/// A catalogue model as listed: tools are supported only where the
/// catalogue says so.
pub open spec fn lists_model(m: ProviderModel, s: ModelSummary) -> bool {
    m.id@ == s.id@ && m.name@ == s.name@ && m.supports_tools == (s.tool_call == Some(true))
}

/// The interface's entry for a catalogue provider: its identity, its API
/// address and its models in the order given.
pub fn entry_from_provider(p: &ProviderSummary) -> (e: ProviderEntry)
    ensures
        e.id@ == p.id@,
        e.name@ == p.name@,
        opt_view(e.api_url) == opt_view(p.api),
        e.models@.len() == p.models@.len(),
        forall|i: int| 0 <= i < p.models@.len() ==> lists_model(#[trigger] e.models@[i], p.models@[i]),
{
    let mut models: Vec<ProviderModel> = Vec::new();
    let mut i: usize = 0;
    while i < p.models.len()
        invariant
            i <= p.models@.len(),
            models@.len() == i,
            forall|k: int| 0 <= k < i ==> lists_model(#[trigger] models@[k], p.models@[k]),
        decreases p.models@.len() - i,
    {
        let m = &p.models[i];
        let supports_tools = match m.tool_call {
            Some(b) => b,
            None => false,
        };
        models.push(
            ProviderModel {
                id: String::from_str(m.id.as_str()),
                name: String::from_str(m.name.as_str()),
                supports_tools,
            },
        );
        i += 1;
    }
    let api_url = match &p.api {
        Some(a) => Some(String::from_str(a.as_str())),
        None => None,
    };
    ProviderEntry {
        id: String::from_str(p.id.as_str()),
        name: String::from_str(p.name.as_str()),
        api_url,
        models,
    }
}

/// `s` without its control characters.
pub open spec fn without_controls(s: Seq<char>) -> Seq<char>
    decreases s.len(),
{
    if s.len() == 0 {
        Seq::empty()
    } else if spec_is_control(s.last()) {
        without_controls(s.drop_last())
    } else {
        without_controls(s.drop_last()).push(s.last())
    }
}

/// The trimmed message without control characters.
pub open spec fn cleaned_message(message: Seq<char>) -> Seq<char> {
    trim(without_controls(message))
}

/// A session's name taken from its first message: the message without
/// control characters and surrounding whitespace, cut after 55 bytes with
/// an ellipsis when it is longer.
pub open spec fn session_name_of(message: Seq<char>) -> Seq<char> {
    let t = cleaned_message(message);
    if utf8_len(t) > 55 {
        byte_slice(t, 0, 55) + "\u{2026}"@
    } else {
        t
    }
}

/// A long cleaned message can be cut after its 55th byte.
pub open spec fn session_name_cuttable(message: Seq<char>) -> bool {
    let t = cleaned_message(message);
    utf8_len(t) > 55 ==> is_char_boundary(encode_utf8(t), 55)
}

/// The name a session gets from its first message.
pub fn message_session_name(message: &str) -> (r: String)
    requires
        session_name_cuttable(message@),
    ensures
        r@ == session_name_of(message@),
{
    let cs = chars_of(message);
    let mut kept: Vec<char> = Vec::new();
    let mut i: usize = 0;
    while i < cs.len()
        invariant
            i <= cs@.len(),
            cs@ == message@,
            kept@ == without_controls(cs@.subrange(0, i as int)),
        decreases cs@.len() - i,
    {
        assert(cs@.subrange(0, i + 1).drop_last() =~= cs@.subrange(0, i as int));
        if !is_control(cs[i]) {
            kept.push(cs[i]);
        }
        i += 1;
    }
    assert(cs@.subrange(0, i as int) =~= cs@);
    let t = trim_range(kept.as_slice(), 0, kept.len());
    assert(kept@.subrange(0, kept@.len() as int) =~= kept@);
    let trimmed = string_of(t.as_slice());
    if trimmed.as_str().len() > 55 {
        let mut r = str_slice(trimmed.as_str(), 0, 55);
        r.append("\u{2026}");
        r
    } else {
        trimmed
    }
}

/// A session still under a name it was given by default.
pub open spec fn generic_session_name(name: Seq<char>) -> bool {
    name == "New Session"@ || name == "Default"@ || (name.len() >= 8 && name.take(8) == "Session "@)
}

/// Whether a session's name is one given by default, so that its first
/// message names it.
pub fn is_generic_session_name(name: &str) -> (b: bool)
    ensures
        b == generic_session_name(name@),
{
    let cs = chars_of(name);
    proof {
        reveal_strlit("Session ");
    }
    str_eq(name, "New Session") || str_eq(name, "Default") || starts_with_chars(&cs, "Session ")
}

/// A role kept between runs of the interface.
#[derive(Debug, Clone)]
pub struct SavedRole {
    pub name: String,
    pub definition: String,
}

pub open spec fn role_is(r: RoleInfo, id: Seq<char>, name: Seq<char>, definition: Seq<char>) -> bool {
    r.id@ == id && r.name@ == name && r.definition@ == definition
}

/// The built-in roles: a planner and an executor.
pub open spec fn is_default_roles(rs: Seq<RoleInfo>) -> bool {
    &&& rs.len() == 2
    &&& role_is(rs[0], "planner"@, "planner"@, "I should help user to plan"@)
    &&& role_is(rs[1], "executor"@, "executor"@, "I should execute the plan"@)
}

pub fn default_roles() -> (r: Vec<RoleInfo>)
    ensures
        is_default_roles(r@),
{
    let mut r: Vec<RoleInfo> = Vec::new();
    r.push(
        RoleInfo {
            id: String::from_str("planner"),
            name: String::from_str("planner"),
            definition: String::from_str("I should help user to plan"),
        },
    );
    r.push(
        RoleInfo {
            id: String::from_str("executor"),
            name: String::from_str("executor"),
            definition: String::from_str("I should execute the plan"),
        },
    );
    r
}

/// Whether some role in `rs` goes by `name`.
pub open spec fn has_role_named(rs: Seq<RoleInfo>, name: Seq<char>) -> bool {
    exists|i: int| 0 <= i < rs.len() && (#[trigger] rs[i]).name@ == name
}

/// `roles` with the saved roles `saved` added in turn, each one whose name
/// is not taken yet becoming a role named and identified by that name.
pub open spec fn merged_roles(roles: Seq<RoleInfo>, saved: Seq<SavedRole>) -> Seq<(Seq<char>, Seq<char>, Seq<char>)>
    decreases saved.len(),
{
    if saved.len() == 0 {
        roles_view(roles)
    } else {
        let prev = merged_roles(roles, saved.drop_last());
        let s = saved.last();
        if exists|i: int| 0 <= i < prev.len() && (#[trigger] prev[i]).1 == s.name@ {
            prev
        } else {
            prev.push((s.name@, s.name@, s.definition@))
        }
    }
}

pub open spec fn roles_view(rs: Seq<RoleInfo>) -> Seq<(Seq<char>, Seq<char>, Seq<char>)> {
    rs.map_values(|r: RoleInfo| (r.id@, r.name@, r.definition@))
}

/// The roles to list: the given ones, then each saved role whose name is
/// not taken yet.
pub fn merge_roles(defaults: Vec<RoleInfo>, saved: Vec<SavedRole>) -> (r: Vec<RoleInfo>)
    ensures
        roles_view(r@) == merged_roles(defaults@, saved@),
{
    let ghost all = saved@;
    let mut merged = defaults;
    let ghost d = merged@;
    let mut rest = saved;
    let total: usize = rest.len();
    let mut i: usize = 0;
    while rest.len() > 0
        invariant
            i <= all.len(),
            i + rest@.len() == all.len(),
            all.len() == total,
            rest@ == all.subrange(i as int, all.len() as int),
            roles_view(merged@) == merged_roles(d, all.subrange(0, i as int)),
        decreases rest@.len(),
    {
        let s = rest.remove(0);
        let ghost prev = roles_view(merged@);
        proof {
            assert(s == all[i as int]);
            assert(all.subrange(0, i + 1).drop_last() =~= all.subrange(0, i as int));
        }
        let mut taken = false;
        let mut k: usize = 0;
        while k < merged.len()
            invariant
                k <= merged@.len(),
                prev == roles_view(merged@),
                taken == exists|j: int| 0 <= j < k && (#[trigger] prev[j]).1 == s.name@,
            decreases merged@.len() - k,
        {
            if str_eq(merged[k].name.as_str(), s.name.as_str()) {
                taken = true;
            }
            proof {
                assert(prev[k as int].1 == merged@[k as int].name@);
                if taken {
                    assert(exists|j: int| 0 <= j < k + 1 && (#[trigger] prev[j]).1 == s.name@);
                }
            }
            k += 1;
        }
        if !taken {
            let role = RoleInfo { id: s.name.clone(), name: s.name, definition: s.definition };
            proof {
                assert(roles_view(merged@.push(role)) =~= prev.push((role.name@, role.name@, role.definition@)));
            }
            merged.push(role);
        }
        i += 1;
        assert(rest@ =~= all.subrange(i as int, all.len() as int));
    }
    assert(all.subrange(0, i as int) =~= all);
    merged
}

/// The saved roles with `name` added, unless a role of that name is saved
/// already.
pub fn add_saved_role(saved: Vec<SavedRole>, name: String, definition: String) -> (r: Vec<SavedRole>)
    ensures
        (exists|i: int| 0 <= i < saved@.len() && (#[trigger] saved@[i]).name@ == name@) ==> r@ == saved@,
        !(exists|i: int| 0 <= i < saved@.len() && (#[trigger] saved@[i]).name@ == name@) ==> (r@.len()
            == saved@.len() + 1 && r@.subrange(0, saved@.len() as int) == saved@ && r@.last().name@ == name@
            && r@.last().definition@ == definition@),
{
    let mut k: usize = 0;
    while k < saved.len()
        invariant
            k <= saved@.len(),
            forall|j: int| 0 <= j < k ==> (#[trigger] saved@[j]).name@ != name@,
        decreases saved@.len() - k,
    {
        if str_eq(saved[k].name.as_str(), name.as_str()) {
            return saved;
        }
        k += 1;
    }
    let mut r = saved;
    let ghost before = r@;
    r.push(SavedRole { name, definition });
    assert(r@.subrange(0, before.len() as int) =~= before);
    r
}

/// The saved roles without those named `name`, in order.
pub open spec fn without_role(saved: Seq<SavedRole>, name: Seq<char>) -> Seq<SavedRole>
    decreases saved.len(),
{
    if saved.len() == 0 {
        Seq::empty()
    } else if saved.last().name@ == name {
        without_role(saved.drop_last(), name)
    } else {
        without_role(saved.drop_last(), name).push(saved.last())
    }
}

/// The saved roles with every role named `name` taken out.
pub fn remove_saved_role(saved: Vec<SavedRole>, name: &str) -> (r: Vec<SavedRole>)
    ensures
        r@ == without_role(saved@, name@),
{
    let ghost all = saved@;
    let mut rest = saved;
    let total: usize = rest.len();
    let mut kept: Vec<SavedRole> = Vec::new();
    let mut i: usize = 0;
    while rest.len() > 0
        invariant
            i <= all.len(),
            i + rest@.len() == all.len(),
            all.len() == total,
            rest@ == all.subrange(i as int, all.len() as int),
            kept@ == without_role(all.subrange(0, i as int), name@),
        decreases rest@.len(),
    {
        let s = rest.remove(0);
        proof {
            assert(s == all[i as int]);
            assert(all.subrange(0, i + 1).drop_last() =~= all.subrange(0, i as int));
        }
        if !str_eq(s.name.as_str(), name) {
            kept.push(s);
        }
        i += 1;
        assert(rest@ =~= all.subrange(i as int, all.len() as int));
    }
    assert(all.subrange(0, i as int) =~= all);
    kept
}

/// The API address the catalogue gives for a provider: that of the first
/// catalogue entry with the id, or none.
pub open spec fn catalogue_api(providers: Seq<ProviderSummary>, id: Seq<char>) -> Seq<char> {
    if exists|i: int| 0 <= i < providers.len() && (#[trigger] providers[i]).id@ == id {
        let i = choose|i: int|
            0 <= i < providers.len() && (#[trigger] providers[i]).id@ == id && forall|k: int|
                0 <= k < i ==> providers[k].id@ != id;
        match providers[i].api {
            Some(a) => a@,
            None => Seq::empty(),
        }
    } else {
        Seq::empty()
    }
}

/// The base address for a provider chosen in the interface, out of the
/// catalogue; empty when the catalogue has none.
pub fn catalogue_base_url(providers: &[ProviderSummary], provider_id: &str) -> (r: String)
    ensures
        r@ == catalogue_api(providers@, provider_id@),
{
    let mut i: usize = 0;
    while i < providers.len()
        invariant
            i <= providers@.len(),
            forall|k: int| 0 <= k < i ==> providers@[k].id@ != provider_id@,
        decreases providers@.len() - i,
    {
        if str_eq(providers[i].id.as_str(), provider_id) {
            proof {
                let j = choose|j: int|
                    0 <= j < providers@.len() && (#[trigger] providers@[j]).id@ == provider_id@ && forall|k: int|
                        0 <= k < j ==> providers@[k].id@ != provider_id@;
                assert(0 <= i < providers@.len() && providers@[i as int].id@ == provider_id@ && forall|k: int|
                    0 <= k < i ==> providers@[k].id@ != provider_id@);
                if j < i {
                    assert(providers@[j].id@ != provider_id@);
                }
                if i < j {
                    assert(providers@[i as int].id@ != provider_id@);
                }
            }
            return match &providers[i].api {
                Some(a) => String::from_str(a.as_str()),
                None => String::new(),
            };
        }
        i += 1;
    }
    String::new()
}

/// The runtime the interface configures: the chosen provider, unnamed,
/// speaking the protocol its id maps to, with the given address, key and
/// single model, and the default limits and agent capacity.
pub open spec fn configured(c: RuntimeConfig, id: Seq<char>, base_url: Seq<char>, api_key: Seq<char>, model: Seq<char>) -> bool {
    &&& c.provider.id@ == id
    &&& c.provider.name@ == Seq::<char>::empty()
    &&& c.provider.protocol == protocol_of_id(id)
    &&& c.provider.base_url@ == base_url
    &&& c.provider.api_key@ == api_key
    &&& c.provider.models@.len() == 1 && c.provider.models@[0]@ == model
    &&& c.provider.timeout_secs == 60 && c.provider.max_retries == 3 && c.provider.max_connections == 5
    &&& c.model@ == model
    &&& c.agent_capacity == DEFAULT_AGENT_CAPACITY
}

pub fn configured_runtime(provider_id: String, base_url: String, api_key: String, model: String) -> (c: RuntimeConfig)
    ensures
        configured(c, provider_id@, base_url@, api_key@, model@),
{
    let protocol = ProviderProtocol::from_id(provider_id.as_str());
    let mut models: Vec<String> = Vec::new();
    models.push(model.clone());
    let provider = ProviderConfig {
        id: provider_id,
        name: String::new(),
        protocol,
        base_url,
        api_key,
        models,
        timeout_secs: 60,
        max_retries: 3,
        max_connections: 5,
    };
    RuntimeConfig { provider, model, agent_capacity: DEFAULT_AGENT_CAPACITY }
}

/// A session is named after its project's folder, or `Default` without
/// one (or with an empty name).
pub open spec fn project_session_name(project: Option<ProjectConfig>) -> Seq<char> {
    match project {
        Some(p) => if shown_name(p).len() > 0 {
            shown_name(p)
        } else {
            "Default"@
        },
        None => "Default"@,
    }
}

pub fn session_name_for(project: &Option<ProjectConfig>) -> (r: String)
    ensures
        r@ == project_session_name(*project),
{
    match project {
        Some(p) => {
            let n = p.name();
            if n.as_str().is_empty() {
                String::from_str("Default")
            } else {
                n
            }
        },
        None => String::from_str("Default"),
    }
}

} // verus!
