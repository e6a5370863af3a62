//! The MCP configuration (servers, pipeline and loop limits) and the global
//! tool state built from what the connected servers list.
use vstd::prelude::*;

use crate::json::{key_index_from, lemma_key_index_skip};
use crate::mcp_types::{
    same_pipeline, same_server, ConversationLoopConfig, McpConfig, NormalizedTool, PipelineConfig,
    ServerConfig,
};
use crate::naming::{encode_tool_name_for_model, encoded_name_spec};
use crate::order::{sort_keyed, sort_with, key_of, Keyed};
use crate::registry::{lemma_name_set_push, lemma_name_set_remove, name_set, unique_strings};
use crate::text::{decimal, lemma_decimal_injective, owned, push_str, str_eq};

verus! {

broadcast use vstd::string::group_string_axioms;

/// The MCP configuration held in memory; the file is read and written
/// around it.
pub struct McpConfigManager {
    pub config: McpConfig,
}

pub open spec fn server_ids(ss: Seq<ServerConfig>) -> Seq<Seq<char>> {
    ss.map_values(|s: ServerConfig| s.id@)
}

/// The first server with id `id`.
pub open spec fn server_index(ss: Seq<ServerConfig>, id: Seq<char>) -> Option<int> {
    key_index_from(server_ids(ss), id, 0)
}

/// The servers whose id is not `id`, in order.
pub open spec fn servers_without(ss: Seq<ServerConfig>, id: Seq<char>) -> Seq<ServerConfig>
    decreases ss.len(),
{
    if ss.len() == 0 {
        Seq::empty()
    } else if ss.last().id@ == id {
        servers_without(ss.drop_last(), id)
    } else {
        servers_without(ss.drop_last(), id).push(ss.last())
    }
}

fn find_server(ss: &Vec<ServerConfig>, id: &str) -> (r: Option<usize>)
    ensures
        match r {
            Some(i) => server_index(ss@, id@) == Some(i as int) && i < ss@.len(),
            None => server_index(ss@, id@) is None,
        },
{
    let ghost ids = server_ids(ss@);
    let mut i: usize = 0;
    while i < ss.len()
        invariant
            i <= ss@.len(),
            ids == server_ids(ss@),
            forall|j: int| 0 <= j < i ==> ids[j] != id@,
        decreases ss.len() - i,
    {
        if str_eq(ss[i].id.as_str(), id) {
            proof {
                lemma_key_index_skip(ids, id@, i as int);
            }
            return Some(i);
        }
        i = i + 1;
    }
    proof {
        lemma_key_index_skip(ids, id@, i as int);
    }
    None
}

fn message_with_id(before: &str, id: &str, after: &str) -> (r: String)
    ensures
        r@ == before@ + id@ + after@,
{
    let mut m = owned(before);
    push_str(&mut m, id);
    push_str(&mut m, after);
    m
}

impl McpConfigManager {
    /// A manager holding the configuration that was read.
    pub fn from_config(config: McpConfig) -> (r: Self)
        ensures
            r.config == config,
    {
        McpConfigManager { config }
    }

    /// Replaces the whole configuration.
    pub fn update_config(&mut self, config: McpConfig)
        ensures
            final(self).config == config,
    {
        self.config = config;
    }

    /// Adds a server; `Server {id} already exists` where one has its id,
    /// and nothing changes.
    pub fn add_server(&mut self, server: ServerConfig) -> (r: Result<(), String>)
        ensures
            server_index(old(self).config.servers@, server.id@) is Some ==> {
                &&& r matches Err(m) && m@ == "Server "@ + server.id@ + " already exists"@
                &&& final(self).config.servers@ == old(self).config.servers@
            },
            server_index(old(self).config.servers@, server.id@) is None ==> {
                &&& r is Ok
                &&& final(self).config.servers@ == old(self).config.servers@.push(server)
            },
            final(self).config.pipeline_config == old(self).config.pipeline_config,
            final(self).config.conversation_config == old(self).config.conversation_config,
    {
        if find_server(&self.config.servers, server.id.as_str()).is_some() {
            return Err(message_with_id("Server ", server.id.as_str(), " already exists"));
        }
        self.config.servers.push(server);
        Ok(())
    }

    /// Removes every server with that id.
    pub fn remove_server(&mut self, server_id: &str)
        ensures
            final(self).config.servers@ == servers_without(old(self).config.servers@, server_id@),
            final(self).config.pipeline_config == old(self).config.pipeline_config,
            final(self).config.conversation_config == old(self).config.conversation_config,
    {
        let ghost orig = self.config.servers@;
        let n = self.config.servers.len();
        let mut rest: Vec<ServerConfig> = Vec::new();
        std::mem::swap(&mut rest, &mut self.config.servers);
        let mut kept: Vec<ServerConfig> = Vec::new();
        let mut k: usize = 0;
        proof {
            assert(orig.take(0) =~= Seq::<ServerConfig>::empty());
            assert(rest@ =~= orig.skip(0));
        }
        while rest.len() > 0
            invariant
                k <= n,
                n == orig.len(),
                rest@ == orig.skip(k as int),
                kept@ == servers_without(orig.take(k as int), server_id@),
            decreases rest.len(),
        {
            let s = rest.remove(0);
            proof {
                assert(rest@ =~= orig.skip(k + 1));
                assert(orig.take(k + 1).drop_last() =~= orig.take(k as int));
                assert(orig.take(k + 1).last() == s);
            }
            if !str_eq(s.id.as_str(), server_id) {
                kept.push(s);
            }
            k = k + 1;
        }
        proof {
            assert(orig.take(k as int) =~= orig);
        }
        self.config.servers = kept;
    }

    /// Replaces the first server with that id; `Server {id} not found`
    /// where there is none, and nothing changes.
    pub fn update_server(&mut self, server_id: &str, server: ServerConfig) -> (r: Result<(), String>)
        ensures
            match server_index(old(self).config.servers@, server_id@) {
                Some(i) => r is Ok && final(self).config.servers@ == old(self).config.servers@.update(i, server),
                None => (r matches Err(m) && m@ == "Server "@ + server_id@ + " not found"@)
                    && final(self).config.servers@ == old(self).config.servers@,
            },
            final(self).config.pipeline_config == old(self).config.pipeline_config,
            final(self).config.conversation_config == old(self).config.conversation_config,
    {
        match find_server(&self.config.servers, server_id) {
            Some(i) => {
                self.config.servers.set(i, server);
                Ok(())
            },
            None => Err(message_with_id("Server ", server_id, " not found")),
        }
    }

    /// The first server with that id.
    pub fn get_server(&self, server_id: &str) -> (r: Option<ServerConfig>)
        ensures
            match server_index(self.config.servers@, server_id@) {
                Some(i) => r matches Some(s) && same_server(s, self.config.servers@[i]),
                None => r is None,
            },
    {
        match find_server(&self.config.servers, server_id) {
            Some(i) => Some(self.config.servers[i].clone()),
            None => None,
        }
    }

    /// All servers, in order.
    pub fn get_all_servers(&self) -> (r: Vec<ServerConfig>)
        ensures
            r@.len() == self.config.servers@.len(),
            forall|i: int| 0 <= i < r@.len() ==> same_server(#[trigger] r@[i], self.config.servers@[i]),
    {
        self.config.servers.clone()
    }

    /// The pipeline limits, or the defaults where none are set.
    pub fn get_pipeline_config(&self) -> (r: PipelineConfig)
        ensures
            match self.config.pipeline_config {
                Some(p) => same_pipeline(r, p),
                None => r.compression_threshold_bytes == 4 * 1024 * 1024 && r.max_payload_bytes == 20 * 1024 * 1024
                    && r.jpeg_quality == 80 && r.max_width == 2048 && r.max_height == 2048
                    && crate::text::views(r.mime_whitelist@) == crate::mcp_types::mime_whitelist()
                    && r.enable_compression && r.temp_url_endpoint is None,
            },
    {
        match &self.config.pipeline_config {
            Some(p) => p.clone(),
            None => PipelineConfig::default(),
        }
    }

    /// Sets the pipeline limits.
    pub fn update_pipeline_config(&mut self, pipeline_config: PipelineConfig)
        ensures
            final(self).config.pipeline_config == Some(pipeline_config),
            final(self).config.servers@ == old(self).config.servers@,
            final(self).config.conversation_config == old(self).config.conversation_config,
    {
        self.config.pipeline_config = Some(pipeline_config);
    }

    /// The conversation loop limits, or the defaults where none are set.
    pub fn get_conversation_config(&self) -> (r: ConversationLoopConfig)
        ensures
            match self.config.conversation_config {
                Some(c) => r == c,
                None => r.max_tool_rounds == 10 && r.max_context_tokens == 128000 && r.image_token_cost == 85
                    && r.context_window_sliding_ratio == 0x3f33_3333 && r.retry_attempts == 2
                    && r.retry_delay_ms == 1000 && r.enable_vision_injection,
            },
    {
        match &self.config.conversation_config {
            Some(c) => *c,
            None => ConversationLoopConfig::default(),
        }
    }

    /// Sets the conversation loop limits.
    pub fn update_conversation_config(&mut self, conversation_config: ConversationLoopConfig)
        ensures
            final(self).config.conversation_config == Some(conversation_config),
            final(self).config.servers@ == old(self).config.servers@,
            final(self).config.pipeline_config == old(self).config.pipeline_config,
    {
        self.config.conversation_config = Some(conversation_config);
    }
}

/// A tool of the global tool list as the settings screen shows it.
#[derive(Debug, Clone)]
pub struct UiToolEntry {
    pub qualified_name: String,
    pub model_name: String,
    pub server_id: String,
    pub name: String,
    pub description: Option<String>,
    pub enabled: bool,
}

impl Keyed for UiToolEntry {
    open spec fn key(&self) -> Seq<char> {
        self.qualified_name@
    }

    fn key_chars(&self) -> (r: Vec<char>) {
        crate::text::chars_of(self.qualified_name.as_str())
    }
}

/// The tools the connected servers list, which of them are enabled (by
/// qualified name) and the names a model sees for them.
pub struct GlobalToolState {
    pub available_tools: Vec<NormalizedTool>,
    pub enabled_tools: Vec<String>,
    pub model_name_map: Vec<(String, String)>,
}

/// How many of the first `hi` tools are named `name`.
pub open spec fn count_named(ts: Seq<NormalizedTool>, name: Seq<char>, hi: int) -> nat
    decreases hi,
{
    if hi <= 0 || hi > ts.len() {
        0
    } else if ts[hi - 1].name@ == name {
        count_named(ts, name, hi - 1) + 1
    } else {
        count_named(ts, name, hi - 1)
    }
}

/// The name a model sees for tool `i`: numbered by its place among the
/// tools of the same name where there are several.
#[verifier::opaque]
pub open spec fn model_name_of(ts: Seq<NormalizedTool>, i: int) -> Seq<char> {
    let name = ts[i].name@;
    encoded_name_spec(
        name,
        if count_named(ts, name, ts.len() as int) > 1 {
            Some((count_named(ts, name, i) + 1) as usize)
        } else {
            None
        },
    )
}

/// The qualified names of the tools.
pub open spec fn qualified_set(ts: Seq<NormalizedTool>) -> Set<Seq<char>> {
    Set::new(|q: Seq<char>| exists|i: int| 0 <= i < ts.len() && (#[trigger] ts[i]).qualified_name@ == q)
}

/// The map holds one entry per model name; every tool's model name is a
/// key, and each key maps to the qualified name of a tool with that model name.
pub open spec fn model_map_of(map: Seq<(String, String)>, ts: Seq<NormalizedTool>) -> bool {
    &&& forall|a: int, b: int| 0 <= a < b < map.len() ==> (#[trigger] map[a]).0@ != (#[trigger] map[b]).0@
    &&& forall|i: int| 0 <= i < ts.len() ==> has_key(map, #[trigger] model_name_of(ts, i))
    &&& forall|k: int| 0 <= k < map.len() ==> names_tool(ts, (#[trigger] map[k]).0@, map[k].1@)
}

/// The map has an entry for `key`.
pub open spec fn has_key(map: Seq<(String, String)>, key: Seq<char>) -> bool {
    exists|k: int| 0 <= k < map.len() && (#[trigger] map[k]).0@ == key
}

/// Some tool has the model name `key` and the qualified name `value`.
pub open spec fn names_tool(ts: Seq<NormalizedTool>, key: Seq<char>, value: Seq<char>) -> bool {
    exists|i: int| 0 <= i < ts.len() && #[trigger] model_name_of(ts, i) == key && ts[i].qualified_name@ == value
}

fn count_named_exec(ts: &Vec<NormalizedTool>, name: &str, hi: usize) -> (r: usize)
    requires
        hi <= ts@.len(),
    ensures
        r == count_named(ts@, name@, hi as int),
        r <= hi,
{
    let mut c: usize = 0;
    let mut j: usize = 0;
    while j < hi
        invariant
            j <= hi <= ts@.len(),
            c == count_named(ts@, name@, j as int),
            c <= j,
        decreases hi - j,
    {
        if str_eq(ts[j].name.as_str(), name) {
            c = c + 1;
        }
        j = j + 1;
    }
    c
}

fn model_name_exec(ts: &Vec<NormalizedTool>, i: usize) -> (r: String)
    requires
        i < ts@.len(),
    ensures
        r@ == model_name_of(ts@, i as int),
{
    proof {
        reveal(model_name_of);
    }
    let name = ts[i].name.as_str();
    let total = count_named_exec(ts, name, ts.len());
    let before = count_named_exec(ts, name, i);
    if total > 1 {
        encode_tool_name_for_model(name, Some(before + 1))
    } else {
        encode_tool_name_for_model(name, None)
    }
}

fn qualified_index(ts: &Vec<NormalizedTool>, q: &str) -> (r: bool)
    ensures
        r == qualified_set(ts@).contains(q@),
{
    let mut i: usize = 0;
    while i < ts.len()
        invariant
            i <= ts@.len(),
            forall|j: int| 0 <= j < i ==> (#[trigger] ts@[j]).qualified_name@ != q@,
        decreases ts.len() - i,
    {
        if str_eq(ts[i].qualified_name.as_str(), q) {
            assert(ts@[i as int].qualified_name@ == q@);
            return true;
        }
        i = i + 1;
    }
    false
}

/// Puts `(key, value)` into a map of distinct keys, replacing the value
/// of `key` where it is there.
fn map_upsert(map: &mut Vec<(String, String)>, key: String, value: String) -> (f: usize)
    requires
        forall|a: int, b: int| 0 <= a < b < old(map)@.len() ==> (#[trigger] old(map)@[a]).0@ != (#[trigger] old(map)@[b]).0@,
    ensures
        forall|a: int, b: int| 0 <= a < b < final(map)@.len() ==> (#[trigger] final(map)@[a]).0@ != (#[trigger] final(map)@[b]).0@,
        f < final(map)@.len() && final(map)@[f as int].0@ == key@ && final(map)@[f as int].1@ == value@,
        forall|j: int| 0 <= j < final(map)@.len() ==> (#[trigger] final(map)@[j]).0@ == key@ && final(map)@[j].1@ == value@
            || (j < old(map)@.len() && final(map)@[j] == old(map)@[j]),
        forall|j: int| 0 <= j < old(map)@.len() && (#[trigger] old(map)@[j]).0@ != key@ ==> j < final(map)@.len() && final(map)@[j] == old(map)@[j],
{
    let ghost kv = key@;
    let ghost vv = value@;
    let mut k: usize = 0;
    while k < map.len()
        invariant
            k <= map@.len(),
            key@ == kv,
            value@ == vv,
            map@ == old(map)@,
            forall|a: int, b: int| 0 <= a < b < map@.len() ==> (#[trigger] map@[a]).0@ != (#[trigger] map@[b]).0@,
            forall|j: int| 0 <= j < k ==> (#[trigger] map@[j]).0@ != key@,
        decreases map.len() - k,
    {
        if str_eq(map[k].0.as_str(), key.as_str()) {
            let ghost before = map@;
            let pair = (key, value);
            let ghost pv = pair;
            assert(pv.0@ == kv && pv.1@ == vv);
            map.set(k, pair);
            proof {
                assert(map@ == before.update(k as int, pv));
                assert(map@[k as int].0@ == kv && map@[k as int].1@ == vv);
                assert forall|a: int, b: int| 0 <= a < b < map@.len() implies (#[trigger] map@[a]).0@ != (#[trigger] map@[b]).0@ by {
                    assert(map@[a].0@ == before[a].0@ && map@[b].0@ == before[b].0@);
                }
                assert forall|j: int| 0 <= j < map@.len() implies (#[trigger] map@[j]).0@ == kv && map@[j].1@ == vv
                    || (j < before.len() && map@[j] == before[j]) by {
                    if j != k {
                        assert(map@[j] == before[j]);
                    }
                }
            }
            return k;
        }
        k = k + 1;
    }
    let ghost before = map@;
    let at = map.len();
    map.push((key, value));
    proof {
        assert(map@[before.len() as int].0@ == kv);
        assert forall|a: int, b: int| 0 <= a < b < map@.len() implies (#[trigger] map@[a]).0@ != (#[trigger] map@[b]).0@ by {
            assert(map@[a] == before[a]);
            if b < before.len() {
                assert(map@[b] == before[b]);
            }
        }
        assert forall|j: int| 0 <= j < map@.len() implies (#[trigger] map@[j]).0@ == kv && map@[j].1@ == vv
            || (j < before.len() && map@[j] == before[j]) by {
            if j < before.len() {
                assert(map@[j] == before[j]);
            }
        }
    }
    at
}

impl GlobalToolState {
    /// No tools.
    pub fn new() -> (r: Self)
        ensures
            r.available_tools@.len() == 0,
            r.enabled_tools@.len() == 0,
            r.model_name_map@.len() == 0,
    {
        GlobalToolState { available_tools: Vec::new(), enabled_tools: Vec::new(), model_name_map: Vec::new() }
    }

    /// Takes the tools the servers now list: enabled names that no longer
    /// name a tool are dropped, and the model names are rebuilt.
    #[verifier::rlimit(40)]
    pub fn rebuild(&mut self, tools: Vec<NormalizedTool>)
        requires
            unique_strings(old(self).enabled_tools@),
        ensures
            final(self).available_tools@ == tools@,
            unique_strings(final(self).enabled_tools@),
            name_set(final(self).enabled_tools@) == name_set(old(self).enabled_tools@).intersect(qualified_set(tools@)),
            model_map_of(final(self).model_name_map@, tools@),
    {
        let mut enabled: Vec<String> = Vec::new();
        let mut i: usize = 0;
        let ghost en = self.enabled_tools@;
        while i < self.enabled_tools.len()
            invariant
                i <= self.enabled_tools@.len(),
                self.enabled_tools@ == en,
                unique_strings(en),
                unique_strings(enabled@),
                name_set(enabled@) == name_set(en.take(i as int)).intersect(qualified_set(tools@)),
                forall|j: int| 0 <= j < enabled@.len() ==> exists|q: int| 0 <= q < i && (#[trigger] enabled@[j])@ == en[q]@,
            decreases self.enabled_tools.len() - i,
        {
            let name = self.enabled_tools[i].clone();
            proof {
                assert(en.take(i + 1) =~= en.take(i as int).push(en[i as int]));
                lemma_name_set_push(en.take(i as int), en[i as int]);
            }
            if qualified_index(&tools, name.as_str()) {
                proof {
                    lemma_name_set_push(enabled@, name);
                }
                let ghost before = enabled@;
                enabled.push(name);
                proof {
                    assert forall|a: int, b: int| 0 <= a < b < enabled@.len() implies (#[trigger] enabled@[a])@ != (#[trigger] enabled@[b])@ by {
                        assert(enabled@[a] == before[a]);
                        if b < before.len() {
                            assert(enabled@[b] == before[b]);
                        } else {
                            let q = choose|q: int| 0 <= q < i && (#[trigger] before[a])@ == en[q]@;
                        }
                    }
                    assert forall|j: int| 0 <= j < enabled@.len() implies exists|q: int| 0 <= q < i + 1 && (#[trigger] enabled@[j])@ == en[q]@ by {
                        if j < before.len() {
                            assert(enabled@[j] == before[j]);
                            let q = choose|q: int| 0 <= q < i && (#[trigger] before[j])@ == en[q]@;
                        } else {
                            assert(enabled@[j]@ == en[i as int]@);
                        }
                    }
                    assert(name_set(enabled@) =~= name_set(en.take(i + 1)).intersect(qualified_set(tools@)));
                }
            } else {
                proof {
                    assert(name_set(enabled@) =~= name_set(en.take(i + 1)).intersect(qualified_set(tools@)));
                    assert forall|j: int| 0 <= j < enabled@.len() implies exists|q: int| 0 <= q < i + 1 && (#[trigger] enabled@[j])@ == en[q]@ by {
                        let q = choose|q: int| 0 <= q < i && (#[trigger] enabled@[j])@ == en[q]@;
                    }
                }
            }
            i = i + 1;
        }
        proof {
            assert(en.take(i as int) =~= en);
        }
        let mut map: Vec<(String, String)> = Vec::new();
        let ghost mut wit: Seq<int> = Seq::empty();
        let ghost mut src: Seq<int> = Seq::empty();
        let mut t: usize = 0;
        while t < tools.len()
            invariant
                t <= tools@.len(),
                wit.len() == t,
                src.len() == map@.len(),
                forall|a: int, b: int| 0 <= a < b < map@.len() ==> (#[trigger] map@[a]).0@ != (#[trigger] map@[b]).0@,
                forall|i: int| 0 <= i < t ==> 0 <= #[trigger] wit[i] < map@.len() && map@[wit[i]].0@ == model_name_of(tools@, i),
                forall|k: int| 0 <= k < map@.len() ==> 0 <= #[trigger] src[k] < t && map@[k].0@ == model_name_of(tools@, src[k])
                    && map@[k].1@ == tools@[src[k]].qualified_name@,
            decreases tools.len() - t,
        {
            let key = model_name_exec(&tools, t);
            let value = tools[t].qualified_name.clone();
            let ghost before = map@;
            let ghost kv = key@;
            let ghost vv = value@;
            let f = map_upsert(&mut map, key, value);
            proof {
                let old_wit = wit;
                let old_src = src;
                wit = Seq::new((t + 1) as nat, |i: int| if i == t || before[old_wit[i]].0@ == kv { f as int } else { old_wit[i] });
                src = Seq::new(map@.len(), |k: int| if map@[k].0@ == kv { t as int } else { old_src[k] });
                assert forall|i: int| 0 <= i < t + 1 implies 0 <= #[trigger] wit[i] < map@.len() && map@[wit[i]].0@ == model_name_of(tools@, i) by {
                    if i < t && before[old_wit[i]].0@ != kv {
                        assert(map@[old_wit[i]] == before[old_wit[i]]);
                    }
                }
                assert forall|k: int| 0 <= k < map@.len() implies 0 <= #[trigger] src[k] < t + 1 && map@[k].0@ == model_name_of(tools@, src[k])
                    && map@[k].1@ == tools@[src[k]].qualified_name@ by {
                    if map@[k].0@ != kv {
                        assert(k < before.len() && map@[k] == before[k]);
                    } else {
                        assert(map@[k].1@ == vv) by {
                            if map@[k].1@ != vv {
                                assert(k < before.len() && map@[k] == before[k]);
                            }
                        }
                    }
                }
            }
            t = t + 1;
        }
        proof {
            assert forall|i: int| 0 <= i < tools@.len() implies has_key(map@, #[trigger] model_name_of(tools@, i)) by {
                assert(map@[wit[i]].0@ == model_name_of(tools@, i));
            }
            assert forall|k: int| 0 <= k < map@.len() implies names_tool(tools@, (#[trigger] map@[k]).0@, map@[k].1@) by {
                let i = src[k];
                assert(model_name_of(tools@, i) == map@[k].0@);
            }
        }
        self.available_tools = tools;
        self.enabled_tools = enabled;
        self.model_name_map = map;
    }
}

/// The first map entry whose value is `v`, searching from `k` on.
pub open spec fn value_index_from(map: Seq<(String, String)>, v: Seq<char>, k: int) -> Option<int>
    decreases map.len() - k,
{
    if k < 0 || k >= map.len() {
        None
    } else if map[k].1@ == v {
        Some(k)
    } else {
        value_index_from(map, v, k + 1)
    }
}

/// How the settings screen shows tool `i`: its model name is the first key
/// that maps to its qualified name, else its own name; it is enabled where
/// its qualified name is.
pub open spec fn ui_entry(st: GlobalToolState, i: int) -> UiToolEntry {
    let t = st.available_tools@[i];
    UiToolEntry {
        qualified_name: t.qualified_name,
        model_name: match value_index_from(st.model_name_map@, t.qualified_name@, 0) {
            Some(k) => st.model_name_map@[k].0,
            None => t.name,
        },
        server_id: t.server_id,
        name: t.name,
        description: t.description,
        enabled: name_set(st.enabled_tools@).contains(t.qualified_name@),
    }
}

/// Adds a name to a list of distinct names.
pub fn set_insert(v: &mut Vec<String>, s: String)
    requires
        unique_strings(old(v)@),
    ensures
        unique_strings(final(v)@),
        name_set(final(v)@) == name_set(old(v)@).insert(s@),
{
    let mut i: usize = 0;
    while i < v.len()
        invariant
            i <= v@.len(),
            v@ == old(v)@,
            unique_strings(v@),
            forall|j: int| 0 <= j < i ==> (#[trigger] v@[j])@ != s@,
        decreases v.len() - i,
    {
        if str_eq(v[i].as_str(), s.as_str()) {
            assert(name_set(v@) =~= name_set(v@).insert(s@));
            return;
        }
        i = i + 1;
    }
    proof {
        lemma_name_set_push(v@, s);
    }
    let ghost before = v@;
    v.push(s);
    assert forall|a: int, b: int| 0 <= a < b < v@.len() implies (#[trigger] v@[a])@ != (#[trigger] v@[b])@ by {
        assert(v@[a] == before[a]);
        if b < before.len() {
            assert(v@[b] == before[b]);
        }
    }
}

/// Removes a name from a list of distinct names.
pub fn set_remove(v: &mut Vec<String>, s: &str)
    requires
        unique_strings(old(v)@),
    ensures
        unique_strings(final(v)@),
        name_set(final(v)@) == name_set(old(v)@).remove(s@),
{
    let mut i: usize = 0;
    while i < v.len()
        invariant
            i <= v@.len(),
            v@ == old(v)@,
            unique_strings(v@),
            forall|j: int| 0 <= j < i ==> (#[trigger] v@[j])@ != s@,
        decreases v.len() - i,
    {
        if str_eq(v[i].as_str(), s) {
            proof {
                lemma_name_set_remove(v@, i as int);
            }
            v.remove(i);
            return;
        }
        i = i + 1;
    }
    assert(name_set(v@) =~= name_set(v@).remove(s@));
}

impl GlobalToolState {
    /// The tools for the settings screen, in qualified-name order.
    pub fn list_global_tools(&self) -> (r: Vec<UiToolEntry>)
        ensures
            r@ == sort_with(
                Seq::new(self.available_tools@.len(), |i: int| ui_entry(*self, i)),
                key_of::<UiToolEntry>(),
            ),
    {
        let ghost all = Seq::new(self.available_tools@.len(), |i: int| ui_entry(*self, i));
        let mut entries: Vec<UiToolEntry> = Vec::new();
        let mut i: usize = 0;
        while i < self.available_tools.len()
            invariant
                i <= self.available_tools@.len(),
                all == Seq::new(self.available_tools@.len(), |i: int| ui_entry(*self, i)),
                entries@ == all.take(i as int),
            decreases self.available_tools.len() - i,
        {
            let t = &self.available_tools[i];
            let mut k: usize = 0;
            let mut model: Option<String> = None;
            while k < self.model_name_map.len()
                invariant_except_break
                    model is None,
                invariant
                    k <= self.model_name_map@.len(),
                    value_index_from(self.model_name_map@, t.qualified_name@, 0) == value_index_from(
                        self.model_name_map@,
                        t.qualified_name@,
                        k as int,
                    ),
                ensures
                    match model {
                        Some(m) => value_index_from(self.model_name_map@, t.qualified_name@, 0) matches Some(f)
                            && m == self.model_name_map@[f].0,
                        None => value_index_from(self.model_name_map@, t.qualified_name@, 0) is None,
                    },
                decreases self.model_name_map.len() - k,
            {
                if str_eq(self.model_name_map[k].1.as_str(), t.qualified_name.as_str()) {
                    model = Some(self.model_name_map[k].0.clone());
                    break;
                }
                k = k + 1;
            }
            let model_name = match model {
                Some(m) => m,
                None => t.name.clone(),
            };
            let mut on = false;
            let mut j: usize = 0;
            while j < self.enabled_tools.len()
                invariant
                    j <= self.enabled_tools@.len(),
                    on == exists|q: int| 0 <= q < j && (#[trigger] self.enabled_tools@[q])@ == t.qualified_name@,
                decreases self.enabled_tools.len() - j,
            {
                if str_eq(self.enabled_tools[j].as_str(), t.qualified_name.as_str()) {
                    on = true;
                }
                j = j + 1;
            }
            let e = UiToolEntry {
                qualified_name: t.qualified_name.clone(),
                model_name,
                server_id: t.server_id.clone(),
                name: t.name.clone(),
                description: t.description.clone(),
                enabled: on,
            };
            proof {
                assert(e == ui_entry(*self, i as int));
                assert(all.take(i + 1) =~= all.take(i as int).push(e));
            }
            entries.push(e);
            i = i + 1;
        }
        proof {
            assert(all.take(i as int) =~= all);
        }
        sort_keyed(entries)
    }

    /// Makes the enabled tools those of `qualified_names` that are listed.
    pub fn set_global_enabled_tools(&mut self, qualified_names: Vec<String>)
        ensures
            final(self).available_tools@ == old(self).available_tools@,
            final(self).model_name_map@ == old(self).model_name_map@,
            unique_strings(final(self).enabled_tools@),
            name_set(final(self).enabled_tools@) == name_set(qualified_names@).intersect(qualified_set(old(self).available_tools@)),
    {
        let mut out: Vec<String> = Vec::new();
        let mut i: usize = 0;
        proof {
            assert(name_set(out@) =~= name_set(qualified_names@.take(0)).intersect(qualified_set(self.available_tools@)));
        }
        while i < qualified_names.len()
            invariant
                i <= qualified_names@.len(),
                unique_strings(out@),
                name_set(out@) == name_set(qualified_names@.take(i as int)).intersect(qualified_set(self.available_tools@)),
            decreases qualified_names.len() - i,
        {
            let name = qualified_names[i].clone();
            proof {
                assert(qualified_names@.take(i + 1) =~= qualified_names@.take(i as int).push(qualified_names@[i as int]));
                lemma_name_set_push(qualified_names@.take(i as int), qualified_names@[i as int]);
            }
            if qualified_index(&self.available_tools, name.as_str()) {
                set_insert(&mut out, name);
            }
            proof {
                assert(name_set(out@) =~= name_set(qualified_names@.take(i + 1)).intersect(qualified_set(self.available_tools@)));
            }
            i = i + 1;
        }
        proof {
            assert(qualified_names@.take(i as int) =~= qualified_names@);
        }
        self.enabled_tools = out;
    }

    /// Enables or disables every listed tool of a server.
    pub fn set_server_enabled(&mut self, server_id: &str, enabled: bool)
        requires
            unique_strings(old(self).enabled_tools@),
        ensures
            final(self).available_tools@ == old(self).available_tools@,
            final(self).model_name_map@ == old(self).model_name_map@,
            unique_strings(final(self).enabled_tools@),
            name_set(final(self).enabled_tools@) == if enabled {
                name_set(old(self).enabled_tools@).union(server_qualified(old(self).available_tools@, server_id@))
            } else {
                name_set(old(self).enabled_tools@).difference(server_qualified(old(self).available_tools@, server_id@))
            },
    {
        let ghost e0 = name_set(self.enabled_tools@);
        let mut i: usize = 0;
        proof {
            assert(server_qualified(self.available_tools@.take(0), server_id@) =~= Set::<Seq<char>>::empty());
            assert(e0.union(Set::<Seq<char>>::empty()) =~= e0);
            assert(e0.difference(Set::<Seq<char>>::empty()) =~= e0);
        }
        while i < self.available_tools.len()
            invariant
                i <= self.available_tools@.len(),
                self.available_tools@ == old(self).available_tools@,
                self.model_name_map@ == old(self).model_name_map@,
                unique_strings(self.enabled_tools@),
                name_set(self.enabled_tools@) == if enabled {
                    e0.union(server_qualified(self.available_tools@.take(i as int), server_id@))
                } else {
                    e0.difference(server_qualified(self.available_tools@.take(i as int), server_id@))
                },
            decreases self.available_tools.len() - i,
        {
            let ghost before = server_qualified(self.available_tools@.take(i as int), server_id@);
            let ghost after = server_qualified(self.available_tools@.take(i + 1), server_id@);
            let ghost ts = self.available_tools@;
            proof {
                assert(ts.take(i + 1) =~= ts.take(i as int).push(ts[i as int]));
            }
            if str_eq(self.available_tools[i].server_id.as_str(), server_id) {
                let q = self.available_tools[i].qualified_name.clone();
                proof {
                    assert(after =~= before.insert(q@)) by {
                        assert forall|n: Seq<char>| after.contains(n) implies before.insert(q@).contains(n) by {
                            let j = choose|j: int| 0 <= j < i + 1 && (#[trigger] ts.take(i + 1)[j]).server_id@ == server_id@ && ts.take(i + 1)[j].qualified_name@ == n;
                            if j < i {
                                assert(ts.take(i as int)[j] == ts.take(i + 1)[j]);
                            }
                        }
                        assert forall|n: Seq<char>| before.insert(q@).contains(n) implies after.contains(n) by {
                            if n == q@ {
                                assert(ts.take(i + 1)[i as int] == ts[i as int]);
                            } else {
                                let j = choose|j: int| 0 <= j < i && (#[trigger] ts.take(i as int)[j]).server_id@ == server_id@ && ts.take(i as int)[j].qualified_name@ == n;
                                assert(ts.take(i + 1)[j] == ts.take(i as int)[j]);
                            }
                        }
                    }
                }
                if enabled {
                    set_insert(&mut self.enabled_tools, q);
                } else {
                    set_remove(&mut self.enabled_tools, q.as_str());
                }
                proof {
                    if enabled {
                        assert(name_set(self.enabled_tools@) =~= e0.union(after));
                    } else {
                        assert(name_set(self.enabled_tools@) =~= e0.difference(after));
                    }
                }
            } else {
                proof {
                    assert(after =~= before) by {
                        assert forall|n: Seq<char>| after.contains(n) implies before.contains(n) by {
                            let j = choose|j: int| 0 <= j < i + 1 && (#[trigger] ts.take(i + 1)[j]).server_id@ == server_id@ && ts.take(i + 1)[j].qualified_name@ == n;
                            assert(j != i);
                            assert(ts.take(i as int)[j] == ts.take(i + 1)[j]);
                        }
                        assert forall|n: Seq<char>| before.contains(n) implies after.contains(n) by {
                            let j = choose|j: int| 0 <= j < i && (#[trigger] ts.take(i as int)[j]).server_id@ == server_id@ && ts.take(i as int)[j].qualified_name@ == n;
                            assert(ts.take(i + 1)[j] == ts.take(i as int)[j]);
                        }
                    }
                }
            }
            i = i + 1;
        }
        proof {
            assert(self.available_tools@.take(i as int) =~= self.available_tools@);
        }
    }
}

/// The qualified names of the tools of `server_id`.
pub open spec fn server_qualified(ts: Seq<NormalizedTool>, server_id: Seq<char>) -> Set<Seq<char>> {
    Set::new(|q: Seq<char>| exists|j: int| 0 <= j < ts.len() && (#[trigger] ts[j]).server_id@ == server_id && ts[j].qualified_name@ == q)
}

/// Whether any of the statuses reports the server connected.
pub fn is_server_connected(statuses: &[crate::mcp_types::ConnectionStatus], server_id: &str) -> (r: bool)
    ensures
        r == exists|i: int| 0 <= i < statuses@.len() && (#[trigger] statuses@[i]).server_id@ == server_id@ && statuses@[i].connected,
{
    let mut i: usize = 0;
    while i < statuses.len()
        invariant
            i <= statuses@.len(),
            forall|k: int| 0 <= k < i ==> !((#[trigger] statuses@[k]).server_id@ == server_id@ && statuses@[k].connected),
        decreases statuses.len() - i,
    {
        if statuses[i].connected && str_eq(statuses[i].server_id.as_str(), server_id) {
            return true;
        }
        i = i + 1;
    }
    false
}

proof fn lemma_count_named_bounds(ts: Seq<NormalizedTool>, name: Seq<char>, lo: int, hi: int)
    requires
        0 <= lo <= hi <= ts.len(),
    ensures
        count_named(ts, name, lo) <= count_named(ts, name, hi),
        count_named(ts, name, hi) <= hi,
    decreases hi,
{
    if hi > 0 {
        if lo < hi {
            lemma_count_named_bounds(ts, name, lo, hi - 1);
        } else {
            lemma_count_named_bounds(ts, name, hi - 1, hi - 1);
        }
    }
}

/// Tools that share a name never share a model name: each is numbered by
/// its own place among them, so none of them hides another in the model
/// name map.
pub proof fn law_same_name_tools_get_distinct_model_names(ts: Seq<NormalizedTool>, i: int, j: int)
    requires
        ts.len() <= usize::MAX,
        0 <= i < j < ts.len(),
        ts[i].name@ == ts[j].name@,
    ensures
        model_name_of(ts, i) != model_name_of(ts, j),
{
    reveal(model_name_of);
    let name = ts[i].name@;
    let n = ts.len() as int;
    lemma_count_named_bounds(ts, name, i + 1, j);
    lemma_count_named_bounds(ts, name, j + 1, n);
    lemma_count_named_bounds(ts, name, i, i);
    lemma_count_named_bounds(ts, name, j, j);
    let ci = count_named(ts, name, i);
    let cj = count_named(ts, name, j);
    assert(count_named(ts, name, i + 1) == ci + 1);
    assert(count_named(ts, name, j + 1) == cj + 1);
    assert(ci < cj);
    assert(count_named(ts, name, n) > 1);
    let di = decimal(((ci + 1) as usize) as nat);
    let dj = decimal(((cj + 1) as usize) as nat);
    let pre = "mcp__"@ + crate::naming::sanitize_spec(name) + "__"@;
    assert(model_name_of(ts, i) == pre + di);
    assert(model_name_of(ts, j) == pre + dj);
    if model_name_of(ts, i) == model_name_of(ts, j) {
        assert((pre + di).skip(pre.len() as int) =~= di);
        assert((pre + dj).skip(pre.len() as int) =~= dj);
        lemma_decimal_injective(((ci + 1) as usize) as nat, ((cj + 1) as usize) as nat);
    }
}

/// After a rebuild, two tools that share a name sit under two different
/// entries of the model name map: the second does not overwrite the first.
pub proof fn law_rebuilt_map_keeps_same_named_tools_apart(
    map: Seq<(String, String)>,
    ts: Seq<NormalizedTool>,
    i: int,
    j: int,
)
    requires
        model_map_of(map, ts),
        ts.len() <= usize::MAX,
        0 <= i < j < ts.len(),
        ts[i].name@ == ts[j].name@,
    ensures
        exists|a: int, b: int|
            0 <= a < map.len() && 0 <= b < map.len() && a != b && (#[trigger] map[a]).0@ == model_name_of(ts, i)
                && (#[trigger] map[b]).0@ == model_name_of(ts, j),
{
    law_same_name_tools_get_distinct_model_names(ts, i, j);
    assert(has_key(map, model_name_of(ts, i)));
    assert(has_key(map, model_name_of(ts, j)));
    let a = choose|k: int| 0 <= k < map.len() && (#[trigger] map[k]).0@ == model_name_of(ts, i);
    let b = choose|k: int| 0 <= k < map.len() && (#[trigger] map[k]).0@ == model_name_of(ts, j);
    assert(a != b);
}

/// Entry `k` of the map is tool `i`: its model name and its qualified name.
pub open spec fn entry_is_tool(map: Seq<(String, String)>, ts: Seq<NormalizedTool>, k: int, i: int) -> bool {
    &&& 0 <= k < map.len()
    &&& 0 <= i < ts.len()
    &&& map[k].0@ == model_name_of(ts, i)
    &&& map[k].1@ == ts[i].qualified_name@
}

/// Some entry of the map is tool `i`.
pub open spec fn tool_reached(map: Seq<(String, String)>, ts: Seq<NormalizedTool>, i: int) -> bool {
    exists|k: int| #[trigger] entry_is_tool(map, ts, k, i)
}

/// Entry `k` of the map is some tool.
pub open spec fn entry_names_a_tool(map: Seq<(String, String)>, ts: Seq<NormalizedTool>, k: int) -> bool {
    exists|i: int| #[trigger] entry_is_tool(map, ts, k, i)
}

/// Where no two tools end up with the same model name, the rebuilt map
/// reaches every tool: each tool's model name leads to its own qualified
/// name, and every entry is the model name and qualified name of a tool.
pub proof fn law_rebuilt_map_reaches_every_tool(map: Seq<(String, String)>, ts: Seq<NormalizedTool>)
    requires
        model_map_of(map, ts),
        forall|a: int, b: int|
            0 <= a < b < ts.len() ==> #[trigger] model_name_of(ts, a) != #[trigger] model_name_of(ts, b),
    ensures
        forall|i: int| 0 <= i < ts.len() ==> #[trigger] tool_reached(map, ts, i),
        forall|k: int| 0 <= k < map.len() ==> #[trigger] entry_names_a_tool(map, ts, k),
{
    assert forall|i: int| 0 <= i < ts.len() implies #[trigger] tool_reached(map, ts, i) by {
        assert(has_key(map, model_name_of(ts, i)));
        let k = choose|k: int| 0 <= k < map.len() && (#[trigger] map[k]).0@ == model_name_of(ts, i);
        assert(names_tool(ts, map[k].0@, map[k].1@));
        let t = choose|t: int| 0 <= t < ts.len() && #[trigger] model_name_of(ts, t) == map[k].0@ && ts[t].qualified_name@
            == map[k].1@;
        if t < i {
            assert(model_name_of(ts, t) != model_name_of(ts, i));
        } else if i < t {
            assert(model_name_of(ts, i) != model_name_of(ts, t));
        }
        assert(entry_is_tool(map, ts, k, i));
    }
    assert forall|k: int| 0 <= k < map.len() implies #[trigger] entry_names_a_tool(map, ts, k) by {
        assert(names_tool(ts, map[k].0@, map[k].1@));
        let t = choose|t: int| 0 <= t < ts.len() && #[trigger] model_name_of(ts, t) == map[k].0@ && ts[t].qualified_name@
            == map[k].1@;
        assert(entry_is_tool(map, ts, k, t));
    }
}

} // verus!
