//! The registry of the tools a conversation can call, by registered name.
use vstd::prelude::*;

use crate::json::{Json, JsonValue};
use crate::mcp_types::{NormalizedTool, TransportConfig, TransportModel};
use crate::naming::{registered_name, registered_name_spec};
use crate::json::json_get;
use crate::order::{insert_sorted, lemma_insert_sorted_at, seq_less, sort_strings, sort_with, str_key, str_less};
use crate::text::{join, join_strings, owned, push_str, str_eq, views};
use crate::tools::str_or;

verus! {

broadcast use vstd::string::group_string_axioms;

/// Hints about a registered tool.
#[derive(Debug)]
pub struct ToolAnnotations {
    pub title: Option<String>,
    pub read_only_hint: Option<bool>,
    pub destructive_hint: Option<bool>,
    pub idempotent_hint: Option<bool>,
    pub open_world_hint: Option<bool>,
}

impl Clone for ToolAnnotations {
    fn clone(&self) -> (r: Self)
        ensures
            r == *self,
    {
        ToolAnnotations {
            title: self.title.clone(),
            read_only_hint: self.read_only_hint,
            destructive_hint: self.destructive_hint,
            idempotent_hint: self.idempotent_hint,
            open_world_hint: self.open_world_hint,
        }
    }
}

/// A registered tool as callers see it. `metadata` lists its extra facts as
/// `(key, value)` pairs.
#[derive(Debug)]
pub struct ToolDefinition {
    pub name: String,
    pub description: Option<String>,
    pub input_schema: JsonValue,
    pub annotations: Option<ToolAnnotations>,
    pub metadata: Vec<(String, JsonValue)>,
    pub enabled: bool,
}

/// The model of a tool definition.
pub struct DefinitionModel {
    pub name: Seq<char>,
    pub description: Option<String>,
    pub input_schema: Json,
    pub annotations: Option<ToolAnnotations>,
    pub metadata: Seq<(Seq<char>, Json)>,
    pub enabled: bool,
}

pub open spec fn meta_view(v: Seq<(String, JsonValue)>) -> Seq<(Seq<char>, Json)> {
    v.map_values(|p: (String, JsonValue)| (p.0@, p.1@))
}

impl View for ToolDefinition {
    type V = DefinitionModel;

    open spec fn view(&self) -> DefinitionModel {
        DefinitionModel {
            name: self.name@,
            description: self.description,
            input_schema: self.input_schema@,
            annotations: self.annotations,
            metadata: meta_view(self.metadata@),
            enabled: self.enabled,
        }
    }
}

fn clone_meta(v: &Vec<(String, JsonValue)>) -> (r: Vec<(String, JsonValue)>)
    ensures
        meta_view(r@) == meta_view(v@),
{
    let mut out: Vec<(String, JsonValue)> = Vec::new();
    let mut i: usize = 0;
    while i < v.len()
        invariant
            i <= v@.len(),
            out@.len() == i,
            forall|j: int| 0 <= j < i ==> (#[trigger] out@[j]).0@ == v@[j].0@ && out@[j].1@ == v@[j].1@,
        decreases v.len() - i,
    {
        out.push((v[i].0.clone(), v[i].1.copy()));
        i = i + 1;
    }
    assert(meta_view(out@) =~= meta_view(v@));
    out
}

impl Clone for ToolDefinition {
    fn clone(&self) -> (r: Self)
        ensures
            r@ == self@,
    {
        let annotations = match &self.annotations {
            Some(a) => Some(a.clone()),
            None => None,
        };
        ToolDefinition {
            name: self.name.clone(),
            description: self.description.clone(),
            input_schema: self.input_schema.copy(),
            annotations,
            metadata: clone_meta(&self.metadata),
            enabled: self.enabled,
        }
    }
}

/// What can go wrong with a tool.
#[derive(Debug, Clone, PartialEq)]
pub enum ToolError {
    /// The tool name is not registered.
    NotFound(String),
    /// Running the tool failed.
    ExecutionFailed(String),
}

impl ToolError {
    /// The error as text: `tool not found: {name}` or
    /// `tool execution failed: {reason}`.
    pub fn message(&self) -> (r: String)
        ensures
            r@ == match self {
                ToolError::NotFound(n) => "tool not found: "@ + n@,
                ToolError::ExecutionFailed(e) => "tool execution failed: "@ + e@,
            },
    {
        match self {
            ToolError::NotFound(n) => {
                let mut s = owned("tool not found: ");
                push_str(&mut s, n.as_str());
                s
            },
            ToolError::ExecutionFailed(e) => {
                let mut s = owned("tool execution failed: ");
                push_str(&mut s, e.as_str());
                s
            },
        }
    }
}

/// A registered tool with what it takes to call it.
#[derive(Debug)]
pub struct McpToolEntry {
    pub definition: ToolDefinition,
    pub server_id: String,
    pub original_name: String,
    pub transport: TransportConfig,
}

/// The model of an entry.
pub struct EntryModel {
    pub definition: DefinitionModel,
    pub server_id: Seq<char>,
    pub original_name: Seq<char>,
    pub transport: TransportModel,
}

impl View for McpToolEntry {
    type V = EntryModel;

    open spec fn view(&self) -> EntryModel {
        EntryModel {
            definition: self.definition@,
            server_id: self.server_id@,
            original_name: self.original_name@,
            transport: self.transport@,
        }
    }
}

/// The registry: its entries, each under a distinct registered name, and
/// the names that are enabled.
pub struct ToolRegistry {
    entries: Vec<McpToolEntry>,
    enabled: Vec<String>,
}

pub open spec fn entry_names(es: Seq<McpToolEntry>) -> Seq<Seq<char>> {
    es.map_values(|e: McpToolEntry| e.definition.name@)
}

/// The entries by registered name.
pub open spec fn entries_map(es: Seq<McpToolEntry>) -> Map<Seq<char>, EntryModel>
    decreases es.len(),
{
    if es.len() == 0 {
        Map::empty()
    } else {
        entries_map(es.drop_last()).insert(es.last().definition.name@, es.last()@)
    }
}

/// The enabled names.
pub open spec fn name_set(v: Seq<String>) -> Set<Seq<char>> {
    Set::new(|n: Seq<char>| exists|i: int| 0 <= i < v.len() && (#[trigger] v[i])@ == n)
}

/// No string occurs twice.
pub open spec fn unique_strings(v: Seq<String>) -> bool {
    forall|i: int, j: int| 0 <= i < j < v.len() ==> (#[trigger] v[i])@ != (#[trigger] v[j])@
}

/// The model of a definition registered for `tool` of server `server_id`:
/// named by `registered_name`, enabled, its metadata naming the provider
/// `mcp`, the server and the tool's own name.
pub open spec fn registered_definition(server_id: Seq<char>, tool: NormalizedTool) -> DefinitionModel {
    DefinitionModel {
        name: registered_name_spec(server_id, tool.name@),
        description: tool.description,
        input_schema: tool.input_schema@,
        annotations: match tool.annotations {
            Some(a) => Some(
                ToolAnnotations {
                    title: a.title,
                    read_only_hint: a.read_only_hint,
                    destructive_hint: a.destructive_hint,
                    idempotent_hint: a.idempotent_hint,
                    open_world_hint: a.open_world_hint,
                },
            ),
            None => None,
        },
        metadata: seq![
            ("provider"@, Json::Str("mcp"@)),
            ("server_id"@, Json::Str(server_id)),
            ("original_name"@, Json::Str(tool.name@)),
        ],
        enabled: true,
    }
}

/// The model of the entry registered for `tool`.
pub open spec fn registered_entry(server_id: Seq<char>, tool: NormalizedTool, transport: TransportModel) -> EntryModel {
    EntryModel {
        definition: registered_definition(server_id, tool),
        server_id,
        original_name: tool.name@,
        transport,
    }
}

/// The map after registering `tools` of a server one after the other.
pub open spec fn register_all(
    m: Map<Seq<char>, EntryModel>,
    server_id: Seq<char>,
    tools: Seq<NormalizedTool>,
    transport: TransportModel,
) -> Map<Seq<char>, EntryModel>
    decreases tools.len(),
{
    if tools.len() == 0 {
        m
    } else {
        register_all(m, server_id, tools.drop_last(), transport).insert(
            registered_name_spec(server_id, tools.last().name@),
            registered_entry(server_id, tools.last(), transport),
        )
    }
}

/// The names that registering `tools` of a server adds.
pub open spec fn registered_names(server_id: Seq<char>, tools: Seq<NormalizedTool>) -> Set<Seq<char>> {
    Set::new(|n: Seq<char>| exists|i: int| 0 <= i < tools.len() && registered_name_spec(server_id, (#[trigger] tools[i]).name@) == n)
}

impl ToolRegistry {
    /// Entries under distinct names; enabled names distinct and registered.
    /// The entries, in the order they were registered.
    pub closed spec fn entry_seq(&self) -> Seq<McpToolEntry> {
        self.entries@
    }

    /// The enabled names, as kept.
    pub closed spec fn enabled_seq(&self) -> Seq<String> {
        self.enabled@
    }

    pub closed spec fn wf(&self) -> bool {
        &&& crate::provider::unique_names(entry_names(self.entry_seq()))
        &&& unique_strings(self.enabled_seq())
        &&& forall|i: int| 0 <= i < self.enabled_seq().len() ==> entries_map(self.entry_seq()).dom().contains(#[trigger] self.enabled_seq()[i]@)
    }

    /// The entries by name.
    pub closed spec fn tools(&self) -> Map<Seq<char>, EntryModel> {
        entries_map(self.entry_seq())
    }

    /// The enabled names.
    pub closed spec fn enabled_names(&self) -> Set<Seq<char>> {
        name_set(self.enabled_seq())
    }
}

pub proof fn lemma_entries_map_dom(es: Seq<McpToolEntry>)
    ensures
        forall|n: Seq<char>| #[trigger] entries_map(es).dom().contains(n) <==> exists|i: int| 0 <= i < es.len() && (#[trigger] es[i]).definition.name@ == n,
    decreases es.len(),
{
    if es.len() > 0 {
        lemma_entries_map_dom(es.drop_last());
        assert forall|n: Seq<char>| entries_map(es).dom().contains(n) implies exists|i: int| 0 <= i < es.len() && (#[trigger] es[i]).definition.name@ == n by {
            if n != es.last().definition.name@ {
                assert(entries_map(es) == entries_map(es.drop_last()).insert(es.last().definition.name@, es.last()@));
                assert(entries_map(es.drop_last()).dom().contains(n));
                let i = choose|i: int| 0 <= i < es.drop_last().len() && (#[trigger] es.drop_last()[i]).definition.name@ == n;
                assert(es[i] == es.drop_last()[i]);
            } else {
                assert(es[es.len() - 1].definition.name@ == n);
            }
        }
        assert forall|n: Seq<char>| (exists|i: int| 0 <= i < es.len() && (#[trigger] es[i]).definition.name@ == n) implies entries_map(es).dom().contains(n) by {
            let i = choose|i: int| 0 <= i < es.len() && (#[trigger] es[i]).definition.name@ == n;
            assert(entries_map(es) == entries_map(es.drop_last()).insert(es.last().definition.name@, es.last()@));
            if i < es.len() - 1 {
                assert(es.drop_last()[i] == es[i]);
                assert(entries_map(es.drop_last()).dom().contains(n));
            }
        }
    }
}

pub proof fn lemma_entries_map_at(es: Seq<McpToolEntry>, i: int)
    requires
        crate::provider::unique_names(entry_names(es)),
        0 <= i < es.len(),
    ensures
        entries_map(es).dom().contains(es[i].definition.name@),
        entries_map(es)[es[i].definition.name@] == es[i]@,
    decreases es.len(),
{
    if i < es.len() - 1 {
        assert(entry_names(es.drop_last()) =~= entry_names(es).drop_last());
        lemma_entries_map_at(es.drop_last(), i);
        assert(entry_names(es)[i] != entry_names(es)[es.len() - 1]);
    }
}

pub proof fn lemma_entries_map_update(es: Seq<McpToolEntry>, i: int, e: McpToolEntry)
    requires
        crate::provider::unique_names(entry_names(es)),
        0 <= i < es.len(),
        es[i].definition.name@ == e.definition.name@,
    ensures
        entries_map(es.update(i, e)) == entries_map(es).insert(e.definition.name@, e@),
        crate::provider::unique_names(entry_names(es.update(i, e))),
    decreases es.len(),
{
    let w = es.update(i, e);
    assert(entry_names(w) =~= entry_names(es));
    if i == es.len() - 1 {
        assert(w.drop_last() =~= es.drop_last());
        assert(entries_map(w) =~= entries_map(es).insert(e.definition.name@, e@));
    } else {
        assert(w.drop_last() =~= es.drop_last().update(i, e));
        assert(entry_names(es.drop_last()) =~= entry_names(es).drop_last());
        lemma_entries_map_update(es.drop_last(), i, e);
        assert(entry_names(es)[i] != entry_names(es)[es.len() - 1]);
        assert(entries_map(w) =~= entries_map(es).insert(e.definition.name@, e@));
    }
}

pub proof fn lemma_entries_map_push(es: Seq<McpToolEntry>, e: McpToolEntry)
    requires
        crate::provider::unique_names(entry_names(es)),
        !entries_map(es).dom().contains(e.definition.name@),
    ensures
        entries_map(es.push(e)) == entries_map(es).insert(e.definition.name@, e@),
        crate::provider::unique_names(entry_names(es.push(e))),
{
    assert(es.push(e).drop_last() =~= es);
    lemma_entries_map_dom(es);
    assert(entry_names(es.push(e)) =~= entry_names(es).push(e.definition.name@));
    assert forall|a: int, b: int| 0 <= a < b < es.len() + 1 implies entry_names(es.push(e))[a] != entry_names(es.push(e))[b] by {
        if b == es.len() {
            assert(es[a].definition.name@ == entry_names(es)[a]);
        } else {
            assert(entry_names(es)[a] != entry_names(es)[b]);
        }
    }
}

fn find_entry(es: &Vec<McpToolEntry>, name: &str) -> (r: Option<usize>)
    requires
        crate::provider::unique_names(entry_names(es@)),
    ensures
        match r {
            Some(i) => i < es@.len() && es@[i as int].definition.name@ == name@,
            None => !entries_map(es@).dom().contains(name@),
        },
{
    let mut i: usize = 0;
    while i < es.len()
        invariant
            i <= es@.len(),
            forall|j: int| 0 <= j < i ==> (#[trigger] es@[j]).definition.name@ != name@,
        decreases es.len() - i,
    {
        if str_eq(es[i].definition.name.as_str(), name) {
            return Some(i);
        }
        i = i + 1;
    }
    proof {
        lemma_entries_map_dom(es@);
    }
    None
}

fn find_name(v: &Vec<String>, name: &str) -> (r: Option<usize>)
    ensures
        match r {
            Some(i) => i < v@.len() && v@[i as int]@ == name@,
            None => !name_set(v@).contains(name@),
        },
{
    let mut i: usize = 0;
    while i < v.len()
        invariant
            i <= v@.len(),
            forall|j: int| 0 <= j < i ==> (#[trigger] v@[j])@ != name@,
        decreases v.len() - i,
    {
        if str_eq(v[i].as_str(), name) {
            return Some(i);
        }
        i = i + 1;
    }
    None
}

pub proof fn lemma_name_set_push(v: Seq<String>, s: String)
    ensures
        name_set(v.push(s)) == name_set(v).insert(s@),
{
    assert forall|n: Seq<char>| name_set(v.push(s)).contains(n) == name_set(v).insert(s@).contains(n) by {
        if name_set(v).contains(n) {
            let i = choose|i: int| 0 <= i < v.len() && (#[trigger] v[i])@ == n;
            assert(v.push(s)[i] == v[i]);
        }
        if n == s@ {
            assert(v.push(s)[v.len() as int] == s);
        }
        if name_set(v.push(s)).contains(n) && n != s@ {
            let i = choose|i: int| 0 <= i < v.push(s).len() && (#[trigger] v.push(s)[i])@ == n;
            assert(v[i] == v.push(s)[i]);
        }
    }
    assert(name_set(v.push(s)) =~= name_set(v).insert(s@));
}

pub proof fn lemma_name_set_remove(v: Seq<String>, i: int)
    requires
        unique_strings(v),
        0 <= i < v.len(),
    ensures
        name_set(v.remove(i)) == name_set(v).remove(v[i]@),
        unique_strings(v.remove(i)),
{
    let w = v.remove(i);
    assert forall|n: Seq<char>| name_set(w).contains(n) == name_set(v).remove(v[i]@).contains(n) by {
        if name_set(w).contains(n) {
            let k = choose|k: int| 0 <= k < w.len() && (#[trigger] w[k])@ == n;
            if k < i {
                assert(w[k] == v[k]);
            } else {
                assert(w[k] == v[k + 1]);
            }
        }
        if name_set(v).contains(n) && n != v[i]@ {
            let k = choose|k: int| 0 <= k < v.len() && (#[trigger] v[k])@ == n;
            if k < i {
                assert(w[k] == v[k]);
            } else {
                assert(w[k - 1] == v[k]);
            }
        }
    }
    assert(name_set(w) =~= name_set(v).remove(v[i]@));
    assert forall|a: int, b: int| 0 <= a < b < w.len() implies (#[trigger] w[a])@ != (#[trigger] w[b])@ by {
        let a2 = if a < i { a } else { a + 1 };
        let b2 = if b < i { b } else { b + 1 };
        assert(w[a] == v[a2] && w[b] == v[b2]);
    }
}

impl ToolRegistry {
    /// An empty registry.
    pub fn new() -> (r: Self)
        ensures
            r.wf(),
            r.tools() == Map::<Seq<char>, EntryModel>::empty(),
            r.enabled_names() == Set::<Seq<char>>::empty(),
    {
        let r = ToolRegistry { entries: Vec::new(), enabled: Vec::new() };
        assert(r.enabled_names() =~= Set::<Seq<char>>::empty());
        r
    }

    fn enable_name(&mut self, name: String)
        requires
            old(self).wf(),
            old(self).tools().dom().contains(name@),
        ensures
            final(self).wf(),
            final(self).entry_seq() == old(self).entry_seq(),
            final(self).enabled_names() == old(self).enabled_names().insert(name@),
    {
        match find_name(&self.enabled, name.as_str()) {
            Some(_) => {
                assert(self.enabled_names() =~= self.enabled_names().insert(name@));
            },
            None => {
                proof {
                    lemma_name_set_push(self.enabled_seq(), name);
                }
                let ghost before = self.enabled_seq();
                self.enabled.push(name);
                proof {
                    assert forall|a: int, b: int| 0 <= a < b < self.enabled_seq().len() implies (#[trigger] self.enabled_seq()[a])@ != (#[trigger] self.enabled_seq()[b])@ by {
                        assert(self.enabled_seq()[a] == before[a]);
                        if b < before.len() {
                            assert(self.enabled_seq()[b] == before[b]);
                        } else {
                            assert(name_set(before).contains(before[a]@));
                        }
                    }
                    assert forall|i: int| 0 <= i < self.enabled_seq().len() implies entries_map(self.entry_seq()).dom().contains(#[trigger] self.enabled_seq()[i]@) by {
                        if i < before.len() {
                            assert(self.enabled_seq()[i] == before[i]);
                        }
                    }
                }
            },
        }
    }

    fn disable_name(&mut self, name: &str)
        requires
            old(self).wf(),
        ensures
            final(self).wf(),
            final(self).entry_seq() == old(self).entry_seq(),
            final(self).enabled_names() == old(self).enabled_names().remove(name@),
    {
        match find_name(&self.enabled, name) {
            Some(i) => {
                proof {
                    lemma_name_set_remove(self.enabled_seq(), i as int);
                }
                let ghost before = self.enabled_seq();
                self.enabled.remove(i);
                proof {
                    assert forall|k: int| 0 <= k < self.enabled_seq().len() implies entries_map(self.entry_seq()).dom().contains(#[trigger] self.enabled_seq()[k]@) by {
                        if k < i {
                            assert(self.enabled_seq()[k] == before[k]);
                        } else {
                            assert(self.enabled_seq()[k] == before[k + 1]);
                        }
                    }
                }
            },
            None => {
                assert(self.enabled_names() =~= self.enabled_names().remove(name@));
            },
        }
    }

    fn register_tool(&mut self, server_id: &str, tool: &NormalizedTool, transport: &TransportConfig)
        requires
            old(self).wf(),
        ensures
            final(self).wf(),
            final(self).tools() == old(self).tools().insert(
                registered_name_spec(server_id@, tool.name@),
                registered_entry(server_id@, *tool, transport@),
            ),
            final(self).enabled_names() == old(self).enabled_names().insert(registered_name_spec(server_id@, tool.name@)),
    {
        let name = registered_name(server_id, tool.name.as_str());
        let annotations = match &tool.annotations {
            Some(a) => Some(ToolAnnotations {
                title: a.title.clone(),
                read_only_hint: a.read_only_hint,
                destructive_hint: a.destructive_hint,
                idempotent_hint: a.idempotent_hint,
                open_world_hint: a.open_world_hint,
            }),
            None => None,
        };
        let mut metadata: Vec<(String, JsonValue)> = Vec::new();
        metadata.push((owned("provider"), JsonValue::String(owned("mcp"))));
        metadata.push((owned("server_id"), JsonValue::String(owned(server_id))));
        metadata.push((owned("original_name"), JsonValue::String(tool.name.clone())));
        let definition = ToolDefinition {
            name: name.clone(),
            description: tool.description.clone(),
            input_schema: tool.input_schema.copy(),
            annotations,
            metadata,
            enabled: true,
        };
        let entry = McpToolEntry {
            definition,
            server_id: owned(server_id),
            original_name: tool.name.clone(),
            transport: transport.clone(),
        };
        proof {
            assert(meta_view(entry.definition.metadata@) =~= registered_definition(server_id@, *tool).metadata);
            assert(entry@ == registered_entry(server_id@, *tool, transport@));
        }
        match find_entry(&self.entries, name.as_str()) {
            Some(i) => {
                proof {
                    lemma_entries_map_update(self.entry_seq(), i as int, entry);
                }
                let ghost before = self.entry_seq();
                self.entries.set(i, entry);
                proof {
                    assert(self.entry_seq() == before.update(i as int, entry));
                }
            },
            None => {
                proof {
                    lemma_entries_map_push(self.entry_seq(), entry);
                }
                let ghost before = self.entry_seq();
                self.entries.push(entry);
                proof {
                    assert forall|k: int| 0 <= k < self.enabled_seq().len() implies entries_map(self.entry_seq()).dom().contains(#[trigger] self.enabled_seq()[k]@) by {
                        assert(entries_map(before).dom().contains(self.enabled_seq()[k]@));
                    }
                }
            },
        }
        proof {
            lemma_entries_map_at(self.entry_seq(), 0);
        }
        assert(self.tools().dom().contains(name@));
        self.enable_name(name);
    }
}

/// The entries of other servers than `server_id`, in order.
pub open spec fn kept_entries(es: Seq<McpToolEntry>, server_id: Seq<char>) -> Seq<McpToolEntry>
    decreases es.len(),
{
    if es.len() == 0 {
        Seq::empty()
    } else if es.last().server_id@ == server_id {
        kept_entries(es.drop_last(), server_id)
    } else {
        kept_entries(es.drop_last(), server_id).push(es.last())
    }
}

/// The names of the entries of `server_id`, in order.
pub open spec fn server_names(es: Seq<McpToolEntry>, server_id: Seq<char>) -> Seq<Seq<char>>
    decreases es.len(),
{
    if es.len() == 0 {
        Seq::empty()
    } else if es.last().server_id@ == server_id {
        server_names(es.drop_last(), server_id).push(es.last().definition.name@)
    } else {
        server_names(es.drop_last(), server_id)
    }
}

/// The members of a sequence.
pub open spec fn seq_set(s: Seq<Seq<char>>) -> Set<Seq<char>> {
    Set::new(|n: Seq<char>| s.contains(n))
}

/// The map without the tools of `server_id`.
pub open spec fn without_server(m: Map<Seq<char>, EntryModel>, server_id: Seq<char>) -> Map<Seq<char>, EntryModel> {
    Map::new(|n: Seq<char>| m.dom().contains(n) && m[n].server_id != server_id, |n: Seq<char>| m[n])
}

/// The names of the tools of `server_id`.
pub open spec fn names_of_server(m: Map<Seq<char>, EntryModel>, server_id: Seq<char>) -> Set<Seq<char>> {
    Set::new(|n: Seq<char>| m.dom().contains(n) && m[n].server_id == server_id)
}

proof fn lemma_kept_entries(es: Seq<McpToolEntry>, server_id: Seq<char>)
    requires
        crate::provider::unique_names(entry_names(es)),
    ensures
        crate::provider::unique_names(entry_names(kept_entries(es, server_id))),
        entries_map(kept_entries(es, server_id)) == without_server(entries_map(es), server_id),
        seq_set(server_names(es, server_id)) == names_of_server(entries_map(es), server_id),
        forall|a: int, b: int| 0 <= a < b < server_names(es, server_id).len() ==> server_names(es, server_id)[a] != server_names(es, server_id)[b],
        forall|k: int| 0 <= k < kept_entries(es, server_id).len() ==> exists|j: int| 0 <= j < es.len() && es[j] == #[trigger] kept_entries(es, server_id)[k],
        forall|k: int| 0 <= k < server_names(es, server_id).len() ==> exists|j: int| 0 <= j < es.len() && es[j].definition.name@ == #[trigger] server_names(es, server_id)[k],
    decreases es.len(),
{
    if es.len() == 0 {
        assert(entries_map(kept_entries(es, server_id)) =~= without_server(entries_map(es), server_id));
        assert(seq_set(server_names(es, server_id)) =~= names_of_server(entries_map(es), server_id));
    } else {
        let d = es.drop_last();
        let l = es.last();
        assert(entry_names(d) =~= entry_names(es).drop_last());
        lemma_kept_entries(d, server_id);
        lemma_entries_map_dom(d);
        let ln = l.definition.name@;
        assert forall|j: int| 0 <= j < d.len() implies d[j].definition.name@ != ln by {
            assert(entry_names(es)[j] != entry_names(es)[es.len() - 1]);
        }
        assert(!entries_map(d).dom().contains(ln));
        let kd = kept_entries(d, server_id);
        assert forall|k: int| 0 <= k < kd.len() implies kd[k].definition.name@ != ln by {
            let j = choose|j: int| 0 <= j < d.len() && d[j] == #[trigger] kd[k];
        }
        let sd = server_names(d, server_id);
        assert forall|k: int| 0 <= k < sd.len() implies sd[k] != ln by {
            let j = choose|j: int| 0 <= j < d.len() && d[j].definition.name@ == #[trigger] sd[k];
        }
        if l.server_id@ == server_id {
            assert(entries_map(kept_entries(es, server_id)) =~= without_server(entries_map(es), server_id));
            assert(server_names(es, server_id) == sd.push(ln));
            assert(entries_map(es) == entries_map(d).insert(ln, l@));
            assert forall|n: Seq<char>| seq_set(server_names(es, server_id)).contains(n) == names_of_server(entries_map(es), server_id).contains(n) by {
                assert(seq_set(sd).contains(n) == names_of_server(entries_map(d), server_id).contains(n));
                if n != ln {
                    if sd.contains(n) {
                        let k = choose|k: int| 0 <= k < sd.len() && sd[k] == n;
                        assert(seq_set(sd).contains(n));
                        assert(sd.push(ln)[k] == n);
                    }
                    if sd.push(ln).contains(n) {
                        let k = choose|k: int| 0 <= k < sd.push(ln).len() && sd.push(ln)[k] == n;
                        assert(sd[k] == n);
                    }
                } else {
                    assert(sd.push(ln)[sd.len() as int] == ln);
                }
            }
            assert(seq_set(server_names(es, server_id)) =~= names_of_server(entries_map(es), server_id));
            assert forall|k: int| 0 <= k < server_names(es, server_id).len() implies exists|j: int| 0 <= j < es.len() && es[j].definition.name@ == #[trigger] server_names(es, server_id)[k] by {
                if k < sd.len() {
                    let j = choose|j: int| 0 <= j < d.len() && d[j].definition.name@ == #[trigger] sd[k];
                    assert(es[j] == d[j]);
                } else {
                    assert(es[es.len() - 1] == l);
                }
            }
            assert forall|k: int| 0 <= k < kd.len() implies exists|j: int| 0 <= j < es.len() && es[j] == #[trigger] kept_entries(es, server_id)[k] by {
                let j = choose|j: int| 0 <= j < d.len() && d[j] == #[trigger] kd[k];
                assert(es[j] == d[j]);
            }
        } else {
            let ke = kept_entries(es, server_id);
            assert(ke.drop_last() =~= kd);
            assert(entry_names(ke) =~= entry_names(kd).push(ln));
            assert forall|a: int, b: int| 0 <= a < b < ke.len() implies entry_names(ke)[a] != entry_names(ke)[b] by {
                if b == kd.len() {
                    assert(entry_names(ke)[a] == kd[a].definition.name@);
                } else {
                    assert(entry_names(kd)[a] != entry_names(kd)[b]);
                }
            }
            assert(entries_map(ke) =~= without_server(entries_map(es), server_id));
            assert(server_names(es, server_id) == sd);
            assert(entries_map(es) == entries_map(d).insert(ln, l@));
            assert forall|n: Seq<char>| seq_set(sd).contains(n) == names_of_server(entries_map(es), server_id).contains(n) by {
                assert(seq_set(sd).contains(n) == names_of_server(entries_map(d), server_id).contains(n));
                if n == ln {
                    if sd.contains(n) {
                        let k = choose|k: int| 0 <= k < sd.len() && sd[k] == n;
                    }
                }
            }
            assert(seq_set(server_names(es, server_id)) =~= names_of_server(entries_map(es), server_id));
            assert forall|k: int| 0 <= k < ke.len() implies exists|j: int| 0 <= j < es.len() && es[j] == #[trigger] ke[k] by {
                if k < kd.len() {
                    let j = choose|j: int| 0 <= j < d.len() && d[j] == #[trigger] kd[k];
                    assert(es[j] == d[j]);
                } else {
                    assert(es[es.len() - 1] == l);
                }
            }
            assert forall|k: int| 0 <= k < sd.len() implies exists|j: int| 0 <= j < es.len() && es[j].definition.name@ == #[trigger] server_names(es, server_id)[k] by {
                let j = choose|j: int| 0 <= j < d.len() && d[j].definition.name@ == #[trigger] sd[k];
                assert(es[j] == d[j]);
            }
        }
    }
}

impl ToolRegistry {
    /// Registers every tool of a server under `registered_name(server_id,
    /// tool name)`, a later tool replacing an earlier one of the same name,
    /// and enables each; other tools and their enabled state stay.
    /// The servers of the registered tools, each as often as it has tools.
    pub fn server_ids(&self) -> (r: Vec<String>)
        requires
            self.wf(),
        ensures
            forall|n: Seq<char>| #[trigger] self.tools().dom().contains(n) ==> name_set(r@).contains(self.tools()[n].server_id),
    {
        let mut servers: Vec<String> = Vec::new();
        let mut i: usize = 0;
        while i < self.entries.len()
            invariant
                i <= self.entry_seq().len(),
                servers@.len() == i,
                forall|j: int| 0 <= j < i ==> name_set(servers@).contains(#[trigger] self.entry_seq()[j].server_id@),
            decreases self.entries.len() - i,
        {
            let ghost before = servers@;
            servers.push(self.entries[i].server_id.clone());
            proof {
                assert forall|j: int| 0 <= j < i + 1 implies name_set(servers@).contains(#[trigger] self.entry_seq()[j].server_id@) by {
                    if j < i {
                        let q = choose|q: int| 0 <= q < before.len() && (#[trigger] before[q])@ == self.entry_seq()[j].server_id@;
                        assert(servers@[q] == before[q]);
                    } else {
                        assert(servers@[i as int]@ == self.entry_seq()[j].server_id@);
                    }
                }
            }
            i = i + 1;
        }
        proof {
            lemma_entries_map_dom(self.entry_seq());
            assert forall|n: Seq<char>| #[trigger] self.tools().dom().contains(n) implies name_set(servers@).contains(
                self.tools()[n].server_id,
            ) by {
                let q = choose|q: int| 0 <= q < self.entry_seq().len() && (#[trigger] self.entry_seq()[q]).definition.name@ == n;
                lemma_entries_map_at(self.entry_seq(), q);
            }
        }
        servers
    }

    pub fn register_server(&mut self, server_id: &str, tools: &[NormalizedTool], transport: &TransportConfig)
        requires
            old(self).wf(),
        ensures
            final(self).wf(),
            final(self).tools() == register_all(old(self).tools(), server_id@, tools@, transport@),
            final(self).enabled_names() == old(self).enabled_names().union(registered_names(server_id@, tools@)),
    {
        let ghost m0 = self.tools();
        let ghost e0 = self.enabled_names();
        let mut i: usize = 0;
        proof {
            assert(tools@.take(0) =~= Seq::<NormalizedTool>::empty());
            assert(e0.union(registered_names(server_id@, tools@.take(0))) =~= e0);
        }
        while i < tools.len()
            invariant
                i <= tools@.len(),
                self.wf(),
                self.tools() == register_all(m0, server_id@, tools@.take(i as int), transport@),
                self.enabled_names() == e0.union(registered_names(server_id@, tools@.take(i as int))),
            decreases tools.len() - i,
        {
            self.register_tool(server_id, &tools[i], transport);
            proof {
                let t = tools@.take(i + 1);
                assert(t.drop_last() =~= tools@.take(i as int));
                assert(t.last() == tools@[i as int]);
                assert(registered_names(server_id@, t) =~= registered_names(server_id@, tools@.take(i as int)).insert(
                    registered_name_spec(server_id@, tools@[i as int].name@),
                )) by {
                    assert forall|n: Seq<char>| registered_names(server_id@, t).contains(n) implies registered_names(server_id@, tools@.take(i as int)).insert(
                        registered_name_spec(server_id@, tools@[i as int].name@),
                    ).contains(n) by {
                        let k = choose|k: int| 0 <= k < t.len() && registered_name_spec(server_id@, (#[trigger] t[k]).name@) == n;
                        if k < i {
                            assert(tools@.take(i as int)[k] == t[k]);
                        }
                    }
                    assert forall|n: Seq<char>| registered_names(server_id@, tools@.take(i as int)).contains(n) implies registered_names(server_id@, t).contains(n) by {
                        let k = choose|k: int| 0 <= k < i && registered_name_spec(server_id@, (#[trigger] tools@.take(i as int)[k]).name@) == n;
                        assert(t[k] == tools@.take(i as int)[k]);
                    }
                    assert(t[i as int] == tools@[i as int]);
                }
                assert(self.enabled_names() =~= e0.union(registered_names(server_id@, t)));
            }
            i = i + 1;
        }
        proof {
            assert(tools@.take(i as int) =~= tools@);
        }
    }

    /// Removes every tool of a server, from the enabled names too; returns
    /// their registered names. Other tools stay as they were.
    pub fn unregister_server(&mut self, server_id: &str) -> (r: Vec<String>)
        requires
            old(self).wf(),
        ensures
            final(self).wf(),
            final(self).tools() == without_server(old(self).tools(), server_id@),
            name_set(r@) == names_of_server(old(self).tools(), server_id@),
            unique_strings(r@),
            final(self).enabled_names() == old(self).enabled_names().difference(names_of_server(old(self).tools(), server_id@)),
    {
        let ghost orig = self.entry_seq();
        let n = self.entries.len();
        let mut rest: Vec<McpToolEntry> = Vec::new();
        std::mem::swap(&mut rest, &mut self.entries);
        let mut kept: Vec<McpToolEntry> = Vec::new();
        let mut removed: Vec<String> = Vec::new();
        let mut k: usize = 0;
        proof {
            assert(orig.take(0) =~= Seq::<McpToolEntry>::empty());
            assert(orig.skip(0) =~= orig);
        }
        while rest.len() > 0
            invariant
                k <= orig.len(),
                n == orig.len(),
                rest@ == orig.skip(k as int),
                kept@ == kept_entries(orig.take(k as int), server_id@),
                removed@.len() == server_names(orig.take(k as int), server_id@).len(),
                forall|j: int| 0 <= j < removed@.len() ==> (#[trigger] removed@[j])@ == server_names(orig.take(k as int), server_id@)[j],
            decreases rest.len(),
        {
            let e = rest.remove(0);
            proof {
                assert(orig.take(k + 1).drop_last() =~= orig.take(k as int));
                assert(orig.take(k + 1).last() == e);
                assert(rest@ =~= orig.skip(k + 1));
            }
            if str_eq(e.server_id.as_str(), server_id) {
                removed.push(e.definition.name.clone());
            } else {
                kept.push(e);
            }
            k = k + 1;
        }
        proof {
            assert(orig.take(k as int) =~= orig);
            lemma_kept_entries(orig, server_id@);
        }
        self.entries = kept;
        let mut new_enabled: Vec<String> = Vec::new();
        let mut i: usize = 0;
        let ghost en = self.enabled_seq();
        while i < self.enabled.len()
            invariant
                i <= self.enabled_seq().len(),
                self.enabled_seq() == en,
                crate::provider::unique_names(entry_names(self.entry_seq())),
                unique_strings(en),
                unique_strings(new_enabled@),
                forall|j: int| 0 <= j < new_enabled@.len() ==> entries_map(self.entry_seq()).dom().contains(#[trigger] new_enabled@[j]@),
                name_set(new_enabled@) == name_set(en.take(i as int)).intersect(entries_map(self.entry_seq()).dom()),
                forall|j: int| 0 <= j < new_enabled@.len() ==> exists|q: int| 0 <= q < i && (#[trigger] new_enabled@[j])@ == en[q]@,
            decreases self.enabled.len() - i,
        {
            let name = self.enabled[i].clone();
            proof {
                assert(en.take(i + 1) =~= en.take(i as int).push(en[i as int]));
                lemma_name_set_push(en.take(i as int), en[i as int]);
            }
            match find_entry(&self.entries, name.as_str()) {
                Some(_) => {
                    proof {
                        lemma_entries_map_dom(self.entry_seq());
                        lemma_name_set_push(new_enabled@, name);
                    }
                    let ghost before = new_enabled@;
                    new_enabled.push(name);
                    proof {
                        assert forall|a: int, b: int| 0 <= a < b < new_enabled@.len() implies (#[trigger] new_enabled@[a])@ != (#[trigger] new_enabled@[b])@ by {
                            assert(new_enabled@[a] == before[a]);
                            if b < before.len() {
                                assert(new_enabled@[b] == before[b]);
                            } else {
                                let q = choose|q: int| 0 <= q < i && (#[trigger] before[a])@ == en[q]@;
                            }
                        }
                        assert forall|j: int| 0 <= j < new_enabled@.len() implies exists|q: int| 0 <= q < i + 1 && (#[trigger] new_enabled@[j])@ == en[q]@ by {
                            if j < before.len() {
                                assert(new_enabled@[j] == before[j]);
                                let q = choose|q: int| 0 <= q < i && (#[trigger] before[j])@ == en[q]@;
                            } else {
                                assert(new_enabled@[j]@ == en[i as int]@);
                            }
                        }
                        assert forall|j: int| 0 <= j < new_enabled@.len() implies entries_map(self.entry_seq()).dom().contains(#[trigger] new_enabled@[j]@) by {
                            if j < before.len() {
                                assert(new_enabled@[j] == before[j]);
                            }
                        }
                        assert(name_set(new_enabled@) =~= name_set(en.take(i + 1)).intersect(entries_map(self.entry_seq()).dom()));
                    }
                },
                None => {
                    proof {
                        assert(name_set(new_enabled@) =~= name_set(en.take(i + 1)).intersect(entries_map(self.entry_seq()).dom()));
                        assert forall|j: int| 0 <= j < new_enabled@.len() implies exists|q: int| 0 <= q < i + 1 && (#[trigger] new_enabled@[j])@ == en[q]@ by {
                            let q = choose|q: int| 0 <= q < i && (#[trigger] new_enabled@[j])@ == en[q]@;
                        }
                    }
                },
            }
            i = i + 1;
        }
        proof {
            assert(en.take(i as int) =~= en);
            let old_dom = entries_map(orig).dom();
            assert forall|n: Seq<char>| name_set(en).contains(n) implies old_dom.contains(n) by {
                let q = choose|q: int| 0 <= q < en.len() && (#[trigger] en[q])@ == n;
            }
            assert(name_set(new_enabled@) =~= name_set(en).difference(names_of_server(entries_map(orig), server_id@)));
            assert(name_set(removed@) =~= seq_set(server_names(orig, server_id@))) by {
                assert forall|n: Seq<char>| name_set(removed@).contains(n) implies seq_set(server_names(orig, server_id@)).contains(n) by {
                    let j = choose|j: int| 0 <= j < removed@.len() && (#[trigger] removed@[j])@ == n;
                    assert(server_names(orig, server_id@).contains(n));
                }
                assert forall|n: Seq<char>| seq_set(server_names(orig, server_id@)).contains(n) implies name_set(removed@).contains(n) by {
                    let j = choose|j: int| 0 <= j < server_names(orig, server_id@).len() && server_names(orig, server_id@)[j] == n;
                    assert(removed@[j]@ == n);
                }
            }
        }
        self.enabled = new_enabled;
        removed
    }
}

/// Every name.
pub open spec fn all_names() -> Set<Seq<char>> {
    Set::new(|n: Seq<char>| true)
}

/// The definitions of the entries whose names are in `keep`, in order.
pub open spec fn kept_definitions(es: Seq<McpToolEntry>, keep: Set<Seq<char>>) -> Seq<DefinitionModel>
    decreases es.len(),
{
    if es.len() == 0 {
        Seq::empty()
    } else if keep.contains(es.last().definition.name@) {
        kept_definitions(es.drop_last(), keep).push(es.last().definition@)
    } else {
        kept_definitions(es.drop_last(), keep)
    }
}

/// The models of a run of definitions.
pub open spec fn defs_view(v: Seq<ToolDefinition>) -> Seq<DefinitionModel> {
    v.map_values(|d: ToolDefinition| d@)
}

/// `defs` are the definitions of the tools of `m` whose names satisfy
/// `keep`, each once, in some order.
pub open spec fn lists_definitions(defs: Seq<ToolDefinition>, m: Map<Seq<char>, EntryModel>, keep: Set<Seq<char>>) -> bool {
    &&& forall|i: int| 0 <= i < defs.len() ==> m.dom().contains((#[trigger] defs[i]).name@) && keep.contains(defs[i].name@)
        && m[defs[i].name@].definition == defs[i]@
    &&& forall|n: Seq<char>| m.dom().contains(n) && keep.contains(n) ==> exists|i: int| 0 <= i < defs.len() && (#[trigger] defs[i]).name@ == n
    &&& forall|i: int, j: int| 0 <= i < j < defs.len() ==> (#[trigger] defs[i]).name@ != (#[trigger] defs[j]).name@
}

impl ToolRegistry {
    /// The definition registered under `name`.
    pub fn get_tool(&self, name: &str) -> (r: Option<ToolDefinition>)
        requires
            self.wf(),
        ensures
            self.tools().dom().contains(name@) ==> (r matches Some(d) && d@ == self.tools()[name@].definition),
            !self.tools().dom().contains(name@) ==> r is None,
    {
        match find_entry(&self.entries, name) {
            Some(i) => {
                proof {
                    lemma_entries_map_at(self.entry_seq(), i as int);
                }
                Some(self.entries[i].definition.clone())
            },
            None => None,
        }
    }

    fn collect_definitions(&self, only_enabled: bool) -> (r: Vec<ToolDefinition>)
        requires
            self.wf(),
        ensures
            defs_view(r@) == kept_definitions(
                self.entry_seq(),
                if only_enabled { self.enabled_names() } else { all_names() },
            ),
            lists_definitions(
                r@,
                self.tools(),
                if only_enabled { self.enabled_names() } else { all_names() },
            ),
    {
        let ghost keep = if only_enabled { self.enabled_names() } else { all_names() };
        let mut out: Vec<ToolDefinition> = Vec::new();
        let mut i: usize = 0;
        while i < self.entries.len()
            invariant
                i <= self.entry_seq().len(),
                self.wf(),
                keep == (if only_enabled { self.enabled_names() } else { all_names() }),
                forall|k: int| 0 <= k < out@.len() ==> exists|j: int| 0 <= j < i && (#[trigger] out@[k])@ == self.entry_seq()[j].definition@,
                forall|k: int| 0 <= k < out@.len() ==> self.tools().dom().contains((#[trigger] out@[k]).name@) && keep.contains(out@[k].name@)
                    && self.tools()[out@[k].name@].definition == out@[k]@,
                forall|j: int| 0 <= j < i && keep.contains(self.entry_seq()[j].definition.name@) ==> exists|k: int| 0 <= k < out@.len() && (#[trigger] out@[k]).name@ == self.entry_seq()[j].definition.name@,
                forall|a: int, b: int| 0 <= a < b < out@.len() ==> (#[trigger] out@[a]).name@ != (#[trigger] out@[b]).name@,
                defs_view(out@) == kept_definitions(self.entry_seq().take(i as int), keep),
            decreases self.entries.len() - i,
        {
            proof {
                assert(self.entry_seq().take(i + 1).drop_last() =~= self.entry_seq().take(i as int));
                assert(self.entry_seq().take(i + 1).last() == self.entry_seq()[i as int]);
            }
            let take = if only_enabled {
                find_name(&self.enabled, self.entries[i].definition.name.as_str()).is_some()
            } else {
                true
            };
            proof {
                lemma_entries_map_at(self.entry_seq(), i as int);
                if only_enabled && !take {
                    assert(!keep.contains(self.entry_seq()[i as int].definition.name@));
                }
                if only_enabled && take {
                    assert(keep.contains(self.entry_seq()[i as int].definition.name@));
                }
            }
            if take {
                let d = self.entries[i].definition.clone();
                let ghost before = out@;
                out.push(d);
                proof {
                    assert(defs_view(out@) =~= defs_view(before).push(self.entry_seq()[i as int].definition@));
                    assert forall|a: int, b: int| 0 <= a < b < out@.len() implies (#[trigger] out@[a]).name@ != (#[trigger] out@[b]).name@ by {
                        assert(out@[a] == before[a]);
                        if b < before.len() {
                            assert(out@[b] == before[b]);
                        } else {
                            let j = choose|j: int| 0 <= j < i && (#[trigger] before[a])@ == self.entry_seq()[j].definition@;
                            assert(entry_names(self.entry_seq())[j] != entry_names(self.entry_seq())[i as int]);
                        }
                    }
                    assert forall|k: int| 0 <= k < out@.len() implies exists|j: int| 0 <= j < i + 1 && (#[trigger] out@[k])@ == self.entry_seq()[j].definition@ by {
                        if k < before.len() {
                            assert(out@[k] == before[k]);
                            let j = choose|j: int| 0 <= j < i && (#[trigger] before[k])@ == self.entry_seq()[j].definition@;
                        } else {
                            assert(out@[k]@ == self.entry_seq()[i as int].definition@);
                        }
                    }
                    assert forall|k: int| 0 <= k < out@.len() implies self.tools().dom().contains((#[trigger] out@[k]).name@) && keep.contains(out@[k].name@)
                        && self.tools()[out@[k].name@].definition == out@[k]@ by {
                        if k < before.len() {
                            assert(out@[k] == before[k]);
                        }
                    }
                    assert forall|j: int| 0 <= j < i + 1 && keep.contains(self.entry_seq()[j].definition.name@) implies exists|k: int| 0 <= k < out@.len() && (#[trigger] out@[k]).name@ == self.entry_seq()[j].definition.name@ by {
                        if j < i {
                            let k = choose|k: int| 0 <= k < before.len() && (#[trigger] before[k]).name@ == self.entry_seq()[j].definition.name@;
                            assert(out@[k] == before[k]);
                        } else {
                            assert(out@[before.len() as int].name@ == self.entry_seq()[j].definition.name@);
                        }
                    }
                }
            }
            i = i + 1;
        }
        proof {
            lemma_entries_map_dom(self.entry_seq());
            assert(self.entry_seq().take(i as int) =~= self.entry_seq());
        }
        out
    }

    /// The definitions of all registered tools.
    pub fn list_tools(&self) -> (r: Vec<ToolDefinition>)
        requires
            self.wf(),
        ensures
            lists_definitions(r@, self.tools(), all_names()),
            defs_view(r@) == kept_definitions(self.entry_seq(), all_names()),
    {
        self.collect_definitions(false)
    }

    /// The definitions of the enabled tools.
    pub fn list_enabled_tools(&self) -> (r: Vec<ToolDefinition>)
        requires
            self.wf(),
        ensures
            lists_definitions(r@, self.tools(), self.enabled_names()),
            defs_view(r@) == kept_definitions(self.entry_seq(), self.enabled_names()),
    {
        self.collect_definitions(true)
    }

    /// The enabled names.
    pub fn enabled_set(&self) -> (r: Vec<String>)
        requires
            self.wf(),
        ensures
            name_set(r@) == self.enabled_names(),
            unique_strings(r@),
    {
        let r = self.enabled.clone();
        assert(r@ =~= self.enabled_seq());
        r
    }

    /// Makes the enabled names those of `names` that are registered.
    pub fn set_enabled(&mut self, names: Vec<String>)
        requires
            old(self).wf(),
        ensures
            final(self).wf(),
            final(self).tools() == old(self).tools(),
            final(self).enabled_names() == name_set(names@).intersect(old(self).tools().dom()),
    {
        let mut out: Vec<String> = Vec::new();
        let mut i: usize = 0;
        while i < names.len()
            invariant
                i <= names@.len(),
                crate::provider::unique_names(entry_names(self.entry_seq())),
                unique_strings(out@),
                forall|k: int| 0 <= k < out@.len() ==> entries_map(self.entry_seq()).dom().contains(#[trigger] out@[k]@),
                name_set(out@) == name_set(names@.take(i as int)).intersect(entries_map(self.entry_seq()).dom()),
            decreases names.len() - i,
        {
            let name = names[i].clone();
            proof {
                assert(names@.take(i + 1) =~= names@.take(i as int).push(names@[i as int]));
                lemma_name_set_push(names@.take(i as int), names@[i as int]);
            }
            let registered = find_entry(&self.entries, name.as_str()).is_some();
            let dup = find_name(&out, name.as_str()).is_some();
            if registered && !dup {
                proof {
                    lemma_entries_map_dom(self.entry_seq());
                    lemma_name_set_push(out@, name);
                }
                let ghost before = out@;
                out.push(name);
                proof {
                    assert forall|a: int, b: int| 0 <= a < b < out@.len() implies (#[trigger] out@[a])@ != (#[trigger] out@[b])@ by {
                        assert(out@[a] == before[a]);
                        if b < before.len() {
                            assert(out@[b] == before[b]);
                        } else {
                            assert(name_set(before).contains(before[a]@));
                        }
                    }
                    assert forall|k: int| 0 <= k < out@.len() implies entries_map(self.entry_seq()).dom().contains(#[trigger] out@[k]@) by {
                        if k < before.len() {
                            assert(out@[k] == before[k]);
                        }
                    }
                    assert(name_set(out@) =~= name_set(names@.take(i + 1)).intersect(entries_map(self.entry_seq()).dom()));
                }
            } else {
                proof {
                    if !registered {
                        lemma_entries_map_dom(self.entry_seq());
                    }
                    assert(name_set(out@) =~= name_set(names@.take(i + 1)).intersect(entries_map(self.entry_seq()).dom()));
                }
            }
            i = i + 1;
        }
        proof {
            assert(names@.take(i as int) =~= names@);
        }
        self.enabled = out;
    }

    /// Enables or disables one registered tool; an unknown name changes nothing.
    pub fn set_tool_enabled(&mut self, name: &str, enabled: bool)
        requires
            old(self).wf(),
        ensures
            final(self).wf(),
            final(self).tools() == old(self).tools(),
            final(self).enabled_names() == if !old(self).tools().dom().contains(name@) {
                old(self).enabled_names()
            } else if enabled {
                old(self).enabled_names().insert(name@)
            } else {
                old(self).enabled_names().remove(name@)
            },
    {
        if find_entry(&self.entries, name).is_some() {
            proof {
                lemma_entries_map_dom(self.entry_seq());
            }
            if enabled {
                self.enable_name(name.to_string());
            } else {
                self.disable_name(name);
            }
        }
    }

    /// Enables or disables every tool of a server.
    pub fn set_server_enabled(&mut self, server_id: &str, enabled: bool)
        requires
            old(self).wf(),
        ensures
            final(self).wf(),
            final(self).tools() == old(self).tools(),
            final(self).enabled_names() == if enabled {
                old(self).enabled_names().union(names_of_server(old(self).tools(), server_id@))
            } else {
                old(self).enabled_names().difference(names_of_server(old(self).tools(), server_id@))
            },
    {
        let ghost e0 = self.enabled_names();
        let ghost m = self.tools();
        let mut i: usize = 0;
        while i < self.entries.len()
            invariant
                i <= self.entry_seq().len(),
                self.wf(),
                self.tools() == m,
                self.enabled_names() == if enabled {
                    e0.union(Set::new(|n: Seq<char>| exists|j: int| 0 <= j < i && self.entry_seq()[j].server_id@ == server_id@ && (#[trigger] self.entry_seq()[j]).definition.name@ == n))
                } else {
                    e0.difference(Set::new(|n: Seq<char>| exists|j: int| 0 <= j < i && self.entry_seq()[j].server_id@ == server_id@ && (#[trigger] self.entry_seq()[j]).definition.name@ == n))
                },
            decreases self.entries.len() - i,
        {
            let ghost before = Set::new(|n: Seq<char>| exists|j: int| 0 <= j < i && self.entry_seq()[j].server_id@ == server_id@ && (#[trigger] self.entry_seq()[j]).definition.name@ == n);
            let ghost after = Set::new(|n: Seq<char>| exists|j: int| 0 <= j < i + 1 && self.entry_seq()[j].server_id@ == server_id@ && (#[trigger] self.entry_seq()[j]).definition.name@ == n);
            proof {
                lemma_entries_map_at(self.entry_seq(), i as int);
            }
            if str_eq(self.entries[i].server_id.as_str(), server_id) {
                let name = self.entries[i].definition.name.clone();
                proof {
                    assert(after =~= before.insert(name@));
                }
                if enabled {
                    self.enable_name(name);
                    proof {
                        assert(self.enabled_names() =~= e0.union(after));
                    }
                } else {
                    self.disable_name(name.as_str());
                    proof {
                        assert(self.enabled_names() =~= e0.difference(after));
                    }
                }
            } else {
                proof {
                    assert(after =~= before);
                }
            }
            i = i + 1;
        }
        proof {
            let done = Set::new(|n: Seq<char>| exists|j: int| 0 <= j < i && self.entry_seq()[j].server_id@ == server_id@ && (#[trigger] self.entry_seq()[j]).definition.name@ == n);
            lemma_entries_map_dom(self.entry_seq());
            assert forall|n: Seq<char>| done.contains(n) == names_of_server(m, server_id@).contains(n) by {
                if done.contains(n) {
                    let j = choose|j: int| 0 <= j < i && self.entry_seq()[j].server_id@ == server_id@ && (#[trigger] self.entry_seq()[j]).definition.name@ == n;
                    lemma_entries_map_at(self.entry_seq(), j);
                }
                if names_of_server(m, server_id@).contains(n) {
                    let j = choose|j: int| 0 <= j < self.entry_seq().len() && (#[trigger] self.entry_seq()[j]).definition.name@ == n;
                    lemma_entries_map_at(self.entry_seq(), j);
                }
            }
            assert(done =~= names_of_server(m, server_id@));
        }
    }
}

/// A definition is ordered by its name.
pub open spec fn def_key() -> spec_fn(DefinitionModel) -> Seq<char> {
    |d: DefinitionModel| d.name
}

/// Definitions in name order, equal names in their given order.
pub fn sort_definitions(v: Vec<ToolDefinition>) -> (r: Vec<ToolDefinition>)
    ensures
        defs_view(r@) == sort_with(defs_view(v@), def_key()),
{
    let ghost orig = defs_view(v@);
    let n = v.len();
    let mut input = v;
    let mut out: Vec<ToolDefinition> = Vec::new();
    let mut k: usize = 0;
    proof {
        assert(orig.take(0) =~= Seq::<DefinitionModel>::empty());
        assert(defs_view(out@) =~= Seq::<DefinitionModel>::empty());
        assert(defs_view(input@) =~= orig.skip(0));
    }
    while input.len() > 0
        invariant
            k <= n,
            n == orig.len(),
            defs_view(input@) == orig.skip(k as int),
            defs_view(out@) == sort_with(orig.take(k as int), def_key()),
        decreases input.len(),
    {
        proof {
            assert(defs_view(input@).len() == input@.len());
        }
        let ghost before_input = input@;
        let x = input.remove(0);
        proof {
            assert(defs_view(before_input)[0] == x@);
            assert forall|i: int| 0 <= i < input@.len() implies defs_view(input@)[i] == orig.skip(k + 1)[i] by {
                assert(input@[i] == before_input[i + 1]);
                assert(defs_view(before_input)[i + 1] == orig.skip(k as int)[i + 1]);
            }
            assert(defs_view(input@) =~= orig.skip(k + 1));
            assert(orig.take(k + 1).drop_last() =~= orig.take(k as int));
            assert(orig.take(k + 1).last() == x@);
        }
        let xc = crate::text::chars_of(x.name.as_str());
        let mut p: usize = 0;
        while p < out.len()
            invariant
                p <= out@.len(),
                xc@ == x.name@,
                forall|j: int| 0 <= j < p ==> !seq_less(x.name@, (#[trigger] out@[j]).name@),
            ensures
                p <= out@.len(),
                forall|j: int| 0 <= j < p ==> !seq_less(x.name@, (#[trigger] out@[j]).name@),
                p < out@.len() ==> seq_less(x.name@, out@[p as int].name@),
            decreases out.len() - p,
        {
            let oc = crate::text::chars_of(out[p].name.as_str());
            if str_less(xc.as_slice(), oc.as_slice()) {
                break;
            }
            p = p + 1;
        }
        proof {
            let sv = defs_view(out@);
            assert forall|j: int| 0 <= j < p implies !seq_less(def_key()(x@), def_key()(#[trigger] sv[j])) by {
                assert(sv[j] == out@[j]@);
            }
            if p < out@.len() {
                assert(sv[p as int] == out@[p as int]@);
            }
            lemma_insert_sorted_at(sv, x@, def_key(), p as int);
        }
        let ghost before = out@;
        out.insert(p, x);
        proof {
            assert(defs_view(out@) =~= defs_view(before).insert(p as int, x@));
        }
        k = k + 1;
    }
    proof {
        assert(orig.take(k as int) =~= orig);
    }
    out
}

/// A tool's description, or `No description`.
pub open spec fn desc_text(d: DefinitionModel) -> Seq<char> {
    match d.description {
        Some(s) => s@,
        None => "No description"@,
    }
}

/// The bullet that lists a tool.
pub open spec fn bullet_line(d: DefinitionModel) -> Seq<char> {
    "- **"@ + d.name + "**: "@ + desc_text(d)
}

/// The line of the argument `key` of a `properties` object: after
/// `lead`, its name, its type (default `dflt`) and its description
/// (default empty).
pub open spec fn prop_line(props: Json, key: Seq<char>, lead: Seq<char>, dflt: Seq<char>) -> Seq<char> {
    let (t, d) = match json_get(props, key) {
        Some(p) => (str_or(p, "type"@, dflt), str_or(p, "description"@, Seq::empty())),
        None => (dflt, Seq::empty()),
    };
    lead + "`"@ + key + "` ("@ + t + "): "@ + d
}

/// The lines of a schema's arguments, in name order.
pub open spec fn prop_lines(schema: Json, lead: Seq<char>, dflt: Seq<char>) -> Seq<Seq<char>> {
    match json_get(schema, "properties"@) {
        Some(props) => match props {
            Json::Object(keys, vals) => sort_with(keys, str_key()).map_values(|k: Seq<char>| prop_line(props, k, lead, dflt)),
            _ => Seq::empty(),
        },
        None => Seq::empty(),
    }
}

/// The lines that present one tool.
pub open spec fn tool_lines(d: DefinitionModel) -> Seq<Seq<char>> {
    seq![bullet_line(d)] + prop_lines(d.input_schema, "  - "@, "string"@)
}

/// The lines that present the tools, one after the other.
pub open spec fn all_tool_lines(ts: Seq<DefinitionModel>) -> Seq<Seq<char>>
    decreases ts.len(),
{
    if ts.len() == 0 {
        Seq::empty()
    } else {
        all_tool_lines(ts.drop_last()) + tool_lines(ts.last())
    }
}

pub open spec fn prompt_header() -> Seq<Seq<char>> {
    seq![
        "## Available Tools"@,
        Seq::empty(),
        "You have access to the following tools. Use them via <|tool_calls|> when appropriate."@,
        Seq::empty(),
    ]
}

pub open spec fn prompt_footer() -> Seq<Seq<char>> {
    seq![
        Seq::empty(),
        "Call tools by wrapping a JSON array in `<|tool_calls|>` tags:"@,
        "<|tool_calls|>"@,
        "[{\"name\":\"tool_name\",\"arguments\":{\"param1\":\"value1\"}}]"@,
        "<|/tool_calls|>"@,
    ]
}

/// The tools prompt for tools in the order given: nothing where there are
/// none, else the header, each tool, and how to call them, one per line.
pub open spec fn tools_prompt(ts: Seq<DefinitionModel>) -> Seq<char> {
    if ts.len() == 0 {
        Seq::empty()
    } else {
        join(prompt_header() + all_tool_lines(ts) + prompt_footer(), "\n"@)
    }
}

proof fn lemma_join_ends(parts: Seq<Seq<char>>, sep: Seq<char>)
    requires
        parts.len() >= 1,
    ensures
        join(parts, sep).len() >= parts[0].len(),
        join(parts, sep).len() >= parts.last().len(),
        join(parts, sep).subrange(0, parts[0].len() as int) == parts[0],
        join(parts, sep).subrange(join(parts, sep).len() - parts.last().len(), join(parts, sep).len() as int)
            == parts.last(),
    decreases parts.len(),
{
    let j = join(parts, sep);
    if parts.len() == 1 {
        assert(j.subrange(0, parts[0].len() as int) =~= parts[0]);
        assert(j.subrange(j.len() - parts.last().len(), j.len() as int) =~= parts.last());
    } else {
        let d = parts.drop_last();
        lemma_join_ends(d, sep);
        let jd = join(d, sep);
        assert(j == jd + sep + parts.last());
        assert(d[0] == parts[0]);
        assert(j.subrange(0, parts[0].len() as int) =~= jd.subrange(0, parts[0].len() as int));
        assert(j.subrange(j.len() - parts.last().len(), j.len() as int) =~= parts.last());
    }
}

proof fn lemma_tool_lines_list_each(ts: Seq<DefinitionModel>, i: int)
    requires
        0 <= i < ts.len(),
    ensures
        all_tool_lines(ts).contains(bullet_line(ts[i])),
    decreases ts.len(),
{
    let d = ts.drop_last();
    let a = all_tool_lines(d);
    let t = tool_lines(ts.last());
    assert(all_tool_lines(ts) == a + t);
    if i < ts.len() - 1 {
        assert(d[i] == ts[i]);
        lemma_tool_lines_list_each(d, i);
        let k = choose|k: int| 0 <= k < a.len() && a[k] == bullet_line(d[i]);
        assert((a + t)[k] == a[k]);
    } else {
        assert(t[0] == bullet_line(ts.last()));
        assert((a + t)[a.len() as int] == t[0]);
    }
}

/// The lines that start with `-`, in order.
pub open spec fn dash_lines(lines: Seq<Seq<char>>) -> Seq<Seq<char>>
    decreases lines.len(),
{
    if lines.len() == 0 {
        Seq::empty()
    } else if lines.last().len() > 0 && lines.last()[0] == '-' {
        dash_lines(lines.drop_last()).push(lines.last())
    } else {
        dash_lines(lines.drop_last())
    }
}

proof fn lemma_dash_concat(a: Seq<Seq<char>>, b: Seq<Seq<char>>)
    ensures
        dash_lines(a + b) == dash_lines(a) + dash_lines(b),
    decreases b.len(),
{
    if b.len() == 0 {
        assert(a + b =~= a);
        assert(dash_lines(a) + dash_lines(b) =~= dash_lines(a));
    } else {
        lemma_dash_concat(a, b.drop_last());
        assert((a + b).drop_last() =~= a + b.drop_last());
        assert((a + b).last() == b.last());
        assert(dash_lines(a) + dash_lines(b.drop_last()).push(b.last()) =~= (dash_lines(a) + dash_lines(b.drop_last())).push(
            b.last(),
        ));
    }
}

proof fn lemma_dash_none(lines: Seq<Seq<char>>)
    requires
        forall|i: int| 0 <= i < lines.len() ==> !((#[trigger] lines[i]).len() > 0 && lines[i][0] == '-'),
    ensures
        dash_lines(lines) == Seq::<Seq<char>>::empty(),
    decreases lines.len(),
{
    if lines.len() > 0 {
        assert forall|i: int| 0 <= i < lines.drop_last().len() implies !((#[trigger] lines.drop_last()[i]).len() > 0
            && lines.drop_last()[i][0] == '-') by {
            assert(lines.drop_last()[i] == lines[i]);
        }
        lemma_dash_none(lines.drop_last());
        assert(lines.last() == lines[lines.len() - 1]);
    }
}

proof fn lemma_dash_tool_lines(ts: Seq<DefinitionModel>)
    ensures
        dash_lines(all_tool_lines(ts)) == ts.map_values(|d: DefinitionModel| bullet_line(d)),
    decreases ts.len(),
{
    reveal_strlit("- **");
    reveal_strlit("  - ");
    if ts.len() == 0 {
        assert(ts.map_values(|d: DefinitionModel| bullet_line(d)) =~= Seq::<Seq<char>>::empty());
    } else {
        let d = ts.last();
        lemma_dash_tool_lines(ts.drop_last());
        let props = prop_lines(d.input_schema, "  - "@, "string"@);
        assert forall|i: int| 0 <= i < props.len() implies !((#[trigger] props[i]).len() > 0 && props[i][0] == '-') by {
            assert(props[i][0] == ' ');
        }
        lemma_dash_none(props);
        let b = bullet_line(d);
        assert(b.len() > 0 && b[0] == '-');
        assert(seq![b].last() == b);
        assert(dash_lines(seq![b]) == dash_lines(seq![b].drop_last()).push(b));
        lemma_dash_concat(seq![b], props);
        assert(seq![b].drop_last() =~= Seq::<Seq<char>>::empty());
        assert(dash_lines(seq![b]) =~= seq![b]);
        lemma_dash_concat(all_tool_lines(ts.drop_last()), tool_lines(d));
        assert(ts.map_values(|d: DefinitionModel| bullet_line(d)) =~= ts.drop_last().map_values(|d: DefinitionModel| bullet_line(d)).push(
            b,
        ));
    }
}

/// In a tools prompt, the lines that start with `-` are the tools'
/// bullets (name and description), one per tool and in the order given;
/// every other line is the heading, an argument or the calling example.
pub proof fn law_tools_prompt_bullets(ts: Seq<DefinitionModel>)
    ensures
        dash_lines(prompt_header() + all_tool_lines(ts) + prompt_footer()) == ts.map_values(|d: DefinitionModel| bullet_line(d)),
{
    reveal_strlit("## Available Tools");
    reveal_strlit("You have access to the following tools. Use them via <|tool_calls|> when appropriate.");
    reveal_strlit("Call tools by wrapping a JSON array in `<|tool_calls|>` tags:");
    reveal_strlit("<|tool_calls|>");
    reveal_strlit("[{\"name\":\"tool_name\",\"arguments\":{\"param1\":\"value1\"}}]");
    reveal_strlit("<|/tool_calls|>");
    let h = prompt_header();
    let f = prompt_footer();
    assert forall|i: int| 0 <= i < h.len() implies !((#[trigger] h[i]).len() > 0 && h[i][0] == '-') by {}
    assert forall|i: int| 0 <= i < f.len() implies !((#[trigger] f[i]).len() > 0 && f[i][0] == '-') by {}
    lemma_dash_none(h);
    lemma_dash_none(f);
    lemma_dash_tool_lines(ts);
    lemma_dash_concat(h, all_tool_lines(ts));
    lemma_dash_concat(h + all_tool_lines(ts), f);
    assert(Seq::<Seq<char>>::empty() + ts.map_values(|d: DefinitionModel| bullet_line(d)) + Seq::<Seq<char>>::empty()
        =~= ts.map_values(|d: DefinitionModel| bullet_line(d)));
}

/// The tools prompt is empty exactly where there are no tools; otherwise
/// it begins with the `## Available Tools` heading, lists each tool by its
/// bullet (name and description), and ends with the closing
/// `<|/tool_calls|>` tag of its calling example.
pub proof fn law_tools_prompt_shape(ts: Seq<DefinitionModel>)
    ensures
        (tools_prompt(ts).len() == 0) == (ts.len() == 0),
        ts.len() > 0 ==> ({
            let p = tools_prompt(ts);
            let lines = prompt_header() + all_tool_lines(ts) + prompt_footer();
            &&& p == join(lines, "\n"@)
            &&& p.len() >= "## Available Tools"@.len()
            &&& p.subrange(0, "## Available Tools"@.len() as int) == "## Available Tools"@
            &&& p.len() >= "<|/tool_calls|>"@.len()
            &&& p.subrange(p.len() - "<|/tool_calls|>"@.len(), p.len() as int) == "<|/tool_calls|>"@
            &&& forall|i: int| 0 <= i < ts.len() ==> lines.contains(bullet_line(#[trigger] ts[i]))
        }),
{
    if ts.len() > 0 {
        let lines = prompt_header() + all_tool_lines(ts) + prompt_footer();
        reveal_strlit("## Available Tools");
        reveal_strlit("<|/tool_calls|>");
        assert(lines[0] == "## Available Tools"@);
        assert(lines.last() == "<|/tool_calls|>"@);
        lemma_join_ends(lines, "\n"@);
        assert forall|i: int| 0 <= i < ts.len() implies lines.contains(bullet_line(#[trigger] ts[i])) by {
            lemma_tool_lines_list_each(ts, i);
            let a = all_tool_lines(ts);
            let k = choose|k: int| 0 <= k < a.len() && a[k] == bullet_line(ts[i]);
            assert(lines[prompt_header().len() + k] == a[k]);
        }
        assert("## Available Tools"@.len() > 0);
    }
}

fn push_line(lines: &mut Vec<String>, s: &str)
    ensures
        views(final(lines)@) == views(old(lines)@).push(s@),
{
    let ghost before = lines@;
    lines.push(owned(s));
    assert(views(lines@) =~= views(before).push(s@));
}

pub fn schema_prop_lines(schema: &JsonValue, lead: &str, dflt: &str) -> (r: Vec<String>)
    ensures
        views(r@) == prop_lines(schema@, lead@, dflt@),
{
    let mut out: Vec<String> = Vec::new();
    let props = match schema.get("properties") {
        Some(p) => p,
        None => {
            assert(views(out@) =~= Seq::<Seq<char>>::empty());
            return out;
        },
    };
    let members = match props.as_object() {
        Some(m) => m,
        None => {
            assert(views(out@) =~= Seq::<Seq<char>>::empty());
            return out;
        },
    };
    let ghost keys = props@->Object_0;
    let mut names: Vec<String> = Vec::new();
    let mut i: usize = 0;
    while i < members.len()
        invariant
            i <= members@.len(),
            keys == Seq::new(members@.len() as nat, |k: int| members@[k].key@),
            views(names@) == keys.take(i as int),
        decreases members.len() - i,
    {
        let ghost before = names@;
        let kc = members[i].key.clone();
        names.push(kc);
        proof {
            assert(names@ == before.push(kc));
            assert(kc@ == keys[i as int]);
            assert(views(names@) =~= views(before).push(kc@));
            assert(keys.take(i + 1) =~= keys.take(i as int).push(keys[i as int]));
        }
        i = i + 1;
    }
    proof {
        assert(keys.take(i as int) =~= keys);
    }
    let sorted = sort_strings(names);
    let ghost sk = sort_with(keys, str_key());
    let mut j: usize = 0;
    while j < sorted.len()
        invariant
            j <= sorted@.len(),
            views(sorted@) == sk,
            views(out@) == sk.take(j as int).map_values(|k: Seq<char>| prop_line(props@, k, lead@, dflt@)),
        decreases sorted.len() - j,
    {
        let key = &sorted[j];
        let (t, d) = match props.get(key.as_str()) {
            Some(p) => {
                let t = match p.str_field("type") {
                    Some(t) => t.clone(),
                    None => owned(dflt),
                };
                let d = match p.str_field("description") {
                    Some(d) => d.clone(),
                    None => String::new(),
                };
                (t, d)
            },
            None => (owned(dflt), String::new()),
        };
        let mut line = owned(lead);
        push_str(&mut line, "`");
        push_str(&mut line, key.as_str());
        push_str(&mut line, "` (");
        push_str(&mut line, t.as_str());
        push_str(&mut line, "): ");
        push_str(&mut line, d.as_str());
        proof {
            assert(sk[j as int] == sorted@[j as int]@);
            assert(line@ == prop_line(props@, sk[j as int], lead@, dflt@));
        }
        let ghost before = out@;
        let ghost lv = line@;
        out.push(line);
        proof {
            assert(views(out@) =~= views(before).push(lv));
            assert(sk.take(j + 1) =~= sk.take(j as int).push(sk[j as int]));
            assert(sk.take(j + 1).map_values(|k: Seq<char>| prop_line(props@, k, lead@, dflt@)) =~= sk.take(j as int).map_values(
                |k: Seq<char>| prop_line(props@, k, lead@, dflt@),
            ).push(prop_line(props@, sk[j as int], lead@, dflt@)));
        }
        j = j + 1;
    }
    proof {
        assert(sk.take(j as int) =~= sk);
    }
    out
}

impl ToolRegistry {
    /// The prompt that presents the enabled tools to a model, in name
    /// order: each as `- **name**: description` followed by its arguments
    /// (`` - `arg` (type): description ``, in name order), between a header
    /// and the calling convention. Empty where no tool is enabled.
    pub fn build_tools_prompt(&self) -> (r: String)
        requires
            self.wf(),
        ensures
            r@ == tools_prompt(sort_with(kept_definitions(self.entry_seq(), self.enabled_names()), def_key())),
    {
        let tools = sort_definitions(self.collect_definitions(true));
        let ghost ts = defs_view(tools@);
        if tools.len() == 0 {
            return String::new();
        }
        let mut lines: Vec<String> = Vec::new();
        push_line(&mut lines, "## Available Tools");
        push_line(&mut lines, "");
        push_line(&mut lines, "You have access to the following tools. Use them via <|tool_calls|> when appropriate.");
        push_line(&mut lines, "");
        proof {
            reveal_strlit("");
            assert(""@ =~= Seq::<char>::empty());
            assert(ts.take(0).len() == 0);
            assert(all_tool_lines(ts.take(0)) =~= Seq::<Seq<char>>::empty());
            assert(views(lines@) =~= prompt_header() + all_tool_lines(ts.take(0)));
        }
        let mut i: usize = 0;
        while i < tools.len()
            invariant
                i <= tools@.len(),
                ts == defs_view(tools@),
                views(lines@) == prompt_header() + all_tool_lines(ts.take(i as int)),
            decreases tools.len() - i,
        {
            let t = &tools[i];
            let mut bullet = owned("- **");
            push_str(&mut bullet, t.name.as_str());
            push_str(&mut bullet, "**: ");
            match &t.description {
                Some(d) => push_str(&mut bullet, d.as_str()),
                None => push_str(&mut bullet, "No description"),
            }
            let ghost before = lines@;
            lines.push(bullet);
            let mut props = schema_prop_lines(&t.input_schema, "  - ", "string");
            let ghost pl = props@;
            lines.append(&mut props);
            proof {
                assert(ts[i as int] == t@);
                assert(ts.take(i + 1).drop_last() =~= ts.take(i as int));
                assert(ts.take(i + 1).last() == t@);
                assert(views(lines@) =~= views(before) + tool_lines(t@));
            }
            i = i + 1;
        }
        push_line(&mut lines, "");
        push_line(&mut lines, "Call tools by wrapping a JSON array in `<|tool_calls|>` tags:");
        push_line(&mut lines, "<|tool_calls|>");
        push_line(&mut lines, "[{\"name\":\"tool_name\",\"arguments\":{\"param1\":\"value1\"}}]");
        push_line(&mut lines, "<|/tool_calls|>");
        proof {
            assert(ts.take(i as int) =~= ts);
            assert(views(lines@) =~= prompt_header() + all_tool_lines(ts) + prompt_footer());
        }
        join_strings(lines.as_slice(), "\n")
    }
}

/// Where and with what a registered tool is called.
#[derive(Debug)]
pub struct ToolCallTarget {
    pub server_id: String,
    pub original_name: String,
    pub transport: TransportConfig,
    pub arguments: Option<JsonValue>,
}

/// A definition with its `enabled` flag set.
pub open spec fn with_enabled(d: DefinitionModel, enabled: bool) -> DefinitionModel {
    DefinitionModel { enabled, ..d }
}

/// Definitions with their flags taken from the enabled names.
pub open spec fn synced(ds: Seq<DefinitionModel>, enabled: Set<Seq<char>>) -> Seq<DefinitionModel> {
    ds.map_values(|d: DefinitionModel| with_enabled(d, enabled.contains(d.name)))
}

impl ToolRegistry {
    /// What calling the tool registered under `name` takes: its server, its
    /// own name, its transport, and the arguments (none where they are
    /// `null`). `NotFound` for an unknown name.
    pub fn prepare_execution(&self, name: &str, args: JsonValue) -> (r: Result<ToolCallTarget, ToolError>)
        requires
            self.wf(),
        ensures
            self.tools().dom().contains(name@) ==> (r matches Ok(t) && {
                &&& t.server_id@ == self.tools()[name@].server_id
                &&& t.original_name@ == self.tools()[name@].original_name
                &&& t.transport@ == self.tools()[name@].transport
                &&& (args@ is Null ==> t.arguments is None)
                &&& (!(args@ is Null) ==> t.arguments == Some(args))
            }),
            !self.tools().dom().contains(name@) ==> (r matches Err(ToolError::NotFound(n)) && n@ == name@),
    {
        match find_entry(&self.entries, name) {
            Some(i) => {
                proof {
                    lemma_entries_map_at(self.entry_seq(), i as int);
                }
                let e = &self.entries[i];
                let arguments = if args.is_null() {
                    None
                } else {
                    Some(args)
                };
                Ok(ToolCallTarget {
                    server_id: e.server_id.clone(),
                    original_name: e.original_name.clone(),
                    transport: e.transport.clone(),
                    arguments,
                })
            },
            None => Err(ToolError::NotFound(name.to_string())),
        }
    }
}

impl ToolCallTarget {
    /// The error for a failed call of the tool registered as `name`:
    /// `tool '{name}' (MCP stdio, server '{server}'): {error}`, or `MCP http`
    /// for the HTTP and SSE transports.
    pub fn failure(&self, name: &str, error: &str) -> (r: ToolError)
        ensures
            r matches ToolError::ExecutionFailed(m) && m@ == "tool '"@ + name@ + (if self.transport is Stdio {
                "' (MCP stdio, server '"@
            } else {
                "' (MCP http, server '"@
            }) + self.server_id@ + "'): "@ + error@,
    {
        let mut m = owned("tool '");
        push_str(&mut m, name);
        match &self.transport {
            TransportConfig::Stdio { .. } => push_str(&mut m, "' (MCP stdio, server '"),
            _ => push_str(&mut m, "' (MCP http, server '"),
        }
        push_str(&mut m, self.server_id.as_str());
        push_str(&mut m, "'): ");
        push_str(&mut m, error);
        ToolError::ExecutionFailed(m)
    }
}

/// The registered tools for display: every definition with its `enabled`
/// flag taken from the enabled names, in name order.
pub fn registry_list_tools(registry: &ToolRegistry) -> (r: Vec<ToolDefinition>)
    requires
        registry.wf(),
    ensures
        defs_view(r@) == sort_with(
            synced(kept_definitions(registry.entry_seq(), all_names()), registry.enabled_names()),
            def_key(),
        ),
{
    let mut tools = registry.list_tools();
    let ghost start = defs_view(tools@);
    let mut i: usize = 0;
    while i < tools.len()
        invariant
            i <= tools@.len(),
            registry.wf(),
            start.len() == tools@.len(),
            forall|k: int| 0 <= k < i ==> (#[trigger] tools@[k])@ == with_enabled(start[k], registry.enabled_names().contains(start[k].name)),
            forall|k: int| i <= k < tools@.len() ==> (#[trigger] tools@[k])@ == start[k],
        decreases tools.len() - i,
    {
        let on = find_name(&registry.enabled, tools[i].name.as_str()).is_some();
        let mut t = tools.remove(i);
        t.enabled = on;
        tools.insert(i, t);
        proof {
            assert(on == registry.enabled_names().contains(start[i as int].name));
        }
        i = i + 1;
    }
    proof {
        assert(defs_view(tools@) =~= synced(start, registry.enabled_names()));
    }
    sort_definitions(tools)
}

/// After registering a server's tools, each tool is found under its
/// registered name, holding the last tool of that name; every other name
/// keeps what it had.
pub proof fn law_registered_tools_found(
    m: Map<Seq<char>, EntryModel>,
    server_id: Seq<char>,
    tools: Seq<NormalizedTool>,
    transport: TransportModel,
    i: int,
    other: Seq<char>,
)
    requires
        0 <= i < tools.len(),
    ensures
        register_all(m, server_id, tools, transport).dom().contains(registered_name_spec(server_id, tools[i].name@)),
        (forall|j: int| i < j < tools.len() ==> registered_name_spec(server_id, (#[trigger] tools[j]).name@) != registered_name_spec(server_id, tools[i].name@))
            ==> register_all(m, server_id, tools, transport)[registered_name_spec(server_id, tools[i].name@)]
            == registered_entry(server_id, tools[i], transport),
        !registered_names(server_id, tools).contains(other) ==> {
            &&& register_all(m, server_id, tools, transport).dom().contains(other) == m.dom().contains(other)
            &&& m.dom().contains(other) ==> register_all(m, server_id, tools, transport)[other] == m[other]
        },
    decreases tools.len(),
{
    let d = tools.drop_last();
    let l = tools.last();
    let ln = registered_name_spec(server_id, l.name@);
    if i < tools.len() - 1 {
        assert(d[i] == tools[i]);
        if !registered_names(server_id, tools).contains(other) {
            assert forall|k: int| 0 <= k < d.len() implies registered_name_spec(server_id, (#[trigger] d[k]).name@) != other by {
                assert(d[k] == tools[k]);
                assert(registered_name_spec(server_id, tools[k].name@) != other);
            }
            assert(!registered_names(server_id, d).contains(other));
            assert(registered_name_spec(server_id, tools[tools.len() - 1].name@) != other);
        }
        law_registered_tools_found(m, server_id, d, transport, i, other);
        if forall|j: int| i < j < tools.len() ==> registered_name_spec(server_id, (#[trigger] tools[j]).name@) != registered_name_spec(server_id, tools[i].name@) {
            assert forall|j: int| i < j < d.len() implies registered_name_spec(server_id, (#[trigger] d[j]).name@) != registered_name_spec(server_id, d[i].name@) by {
                assert(d[j] == tools[j]);
            }
            assert(registered_name_spec(server_id, tools[tools.len() - 1].name@) != registered_name_spec(server_id, tools[i].name@));
        }
    } else {
        if tools.len() > 1 {
            law_registered_tools_found(m, server_id, d, transport, 0, other);
        }
        if !registered_names(server_id, tools).contains(other) {
            assert(registered_name_spec(server_id, tools[tools.len() - 1].name@) != other);
            if d.len() > 0 {
                assert forall|k: int| 0 <= k < d.len() implies registered_name_spec(server_id, (#[trigger] d[k]).name@) != other by {
                    assert(d[k] == tools[k]);
                    assert(registered_name_spec(server_id, tools[k].name@) != other);
                }
                assert(!registered_names(server_id, d).contains(other));
            } else {
                assert(register_all(m, server_id, d, transport) == m);
            }
        }
    }
}

} // verus!
