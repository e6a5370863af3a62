//! Refreshing the registry from the MCP servers: which servers to ask for
//! their tools, and how their answers are reconciled with what is
//! registered, so that no tool of a server that is not connected stays.
use vstd::prelude::*;

use crate::json::{json_str_field, Json, JsonValue};
use crate::listing::{lenient_annotations, listed_as, listed_items, named_items, normalize_listed_tools};
use crate::mcp_config::is_server_connected;
use crate::mcp_types::{ConnectionStatus, NormalizedTool, ServerConfig, TransportConfig, TransportModel};
use crate::naming::registered_name_spec;
use crate::registry::{
    law_registered_tools_found, name_set, register_all,
    registered_entry, registered_names, EntryModel, ToolRegistry,
};
use crate::text::str_eq;

verus! {

/// A connected server to ask for its tools: its id and how it is reached.
#[derive(Debug)]
pub struct ServerToList {
    pub server_id: String,
    pub transport: TransportConfig,
}

/// What a connected server answered to `tools/list`.
#[derive(Debug)]
pub struct ServerListing {
    pub server_id: String,
    pub transport: TransportConfig,
    pub answer: JsonValue,
}

/// Whether a status reports the server connected.
pub open spec fn reported_connected(statuses: Seq<ConnectionStatus>, server_id: Seq<char>) -> bool {
    exists|i: int| 0 <= i < statuses.len() && (#[trigger] statuses[i]).server_id@ == server_id && statuses[i].connected
}

/// The configured servers that are connected, in order.
pub open spec fn connected_servers(servers: Seq<ServerConfig>, statuses: Seq<ConnectionStatus>) -> Seq<ServerConfig>
    decreases servers.len(),
{
    if servers.len() == 0 {
        Seq::empty()
    } else if reported_connected(statuses, servers.last().id@) {
        connected_servers(servers.drop_last(), statuses).push(servers.last())
    } else {
        connected_servers(servers.drop_last(), statuses)
    }
}

/// The servers to ask for their tools: the configured ones that a status
/// reports connected, in order.
pub fn servers_to_list(servers: &Vec<ServerConfig>, statuses: &[ConnectionStatus]) -> (r: Vec<ServerToList>)
    ensures
        r@.len() == connected_servers(servers@, statuses@).len(),
        forall|k: int|
            0 <= k < r@.len() ==> (#[trigger] r@[k]).server_id@ == connected_servers(servers@, statuses@)[k].id@
                && r@[k].transport@ == connected_servers(servers@, statuses@)[k].transport@,
{
    let mut out: Vec<ServerToList> = Vec::new();
    let mut i: usize = 0;
    while i < servers.len()
        invariant
            i <= servers@.len(),
            out@.len() == connected_servers(servers@.take(i as int), statuses@).len(),
            forall|k: int|
                0 <= k < out@.len() ==> (#[trigger] out@[k]).server_id@ == connected_servers(servers@.take(i as int), statuses@)[k].id@
                    && out@[k].transport@ == connected_servers(servers@.take(i as int), statuses@)[k].transport@,
        decreases servers.len() - i,
    {
        proof {
            assert(servers@.take(i + 1).drop_last() =~= servers@.take(i as int));
            assert(servers@.take(i + 1).last() == servers@[i as int]);
        }
        if is_server_connected(statuses, servers[i].id.as_str()) {
            let ghost before = out@;
            out.push(ServerToList { server_id: servers[i].id.clone(), transport: servers[i].transport.clone() });
            proof {
                assert forall|k: int| 0 <= k < out@.len() implies (#[trigger] out@[k]).server_id@ == connected_servers(
                    servers@.take(i + 1),
                    statuses@,
                )[k].id@ && out@[k].transport@ == connected_servers(servers@.take(i + 1), statuses@)[k].transport@ by {
                    if k < before.len() {
                        assert(out@[k] == before[k]);
                    }
                }
            }
        }
        i = i + 1;
    }
    proof {
        assert(servers@.take(i as int) =~= servers@);
    }
    out
}

/// The ids of the servers that answered.
pub open spec fn listing_ids(ls: Seq<ServerListing>) -> Set<Seq<char>> {
    Set::new(|s: Seq<char>| exists|k: int| 0 <= k < ls.len() && (#[trigger] ls[k]).server_id@ == s)
}

/// The registered names of the tools in a server's answer: one per listed
/// item with a string `name`.
pub open spec fn listed_names(server_id: Seq<char>, answer: Json) -> Set<Seq<char>> {
    Set::new(
        |n: Seq<char>|
            exists|i: int|
                0 <= i < named_items(listed_items(answer)).len() && registered_name_spec(
                    server_id,
                    json_str_field(#[trigger] named_items(listed_items(answer))[i], "name"@).unwrap(),
                ) == n,
    )
}

/// The tools listed in a server's answer.
pub open spec fn answer_items(answer: Json) -> Seq<Json> {
    named_items(listed_items(answer))
}

/// The registered name of a listed tool of a server.
pub open spec fn item_name(server_id: Seq<char>, item: Json) -> Seq<char> {
    registered_name_spec(server_id, json_str_field(item, "name"@).unwrap())
}

/// Whether tool `i` of answer `k` is the last, among the first `upto`
/// answers, to be registered under its name: no later tool of the same
/// answer and no later answer lists that name.
pub open spec fn last_to_list(ls: Seq<ServerListing>, k: int, i: int, upto: int) -> bool {
    let sid = ls[k].server_id@;
    let items = answer_items(ls[k].answer@);
    let n = item_name(sid, items[i]);
    &&& forall|i2: int| i < i2 < items.len() ==> item_name(sid, #[trigger] items[i2]) != n
    &&& forall|k2: int| k < k2 < upto ==> !(#[trigger] listed_names(ls[k2].server_id@, ls[k2].answer@)).contains(n)
}

/// The entry registered for tool `i` of answer `k`: the tool the answer
/// lists, of that server, reached by that server's transport.
pub open spec fn registered_from(ls: Seq<ServerListing>, k: int, i: int, m: Map<Seq<char>, EntryModel>) -> bool {
    let sid = ls[k].server_id@;
    let item = answer_items(ls[k].answer@)[i];
    exists|t: NormalizedTool|
        #[trigger] listed_as(t, sid, item, lenient_annotations(item)) && m.dom().contains(item_name(sid, item))
            && m[item_name(sid, item)] == registered_entry(sid, t, ls[k].transport@)
}

proof fn lemma_register_all_server(
    m: Map<Seq<char>, EntryModel>,
    server_id: Seq<char>,
    tools: Seq<NormalizedTool>,
    transport: TransportModel,
)
    ensures
        forall|n: Seq<char>|
            #[trigger] registered_names(server_id, tools).contains(n) ==> register_all(m, server_id, tools, transport).dom().contains(n)
                && register_all(m, server_id, tools, transport)[n].server_id == server_id,
        forall|n: Seq<char>|
            !registered_names(server_id, tools).contains(n) ==> (#[trigger] register_all(m, server_id, tools, transport).dom().contains(n)
                == m.dom().contains(n)) && (m.dom().contains(n) ==> register_all(m, server_id, tools, transport)[n] == m[n]),
    decreases tools.len(),
{
    if tools.len() > 0 {
        let d = tools.drop_last();
        lemma_register_all_server(m, server_id, d, transport);
        assert forall|n: Seq<char>| #[trigger] registered_names(server_id, d).contains(n) || registered_name_spec(server_id, tools.last().name@) == n
            <==> registered_names(server_id, tools).contains(n) by {
            if registered_names(server_id, d).contains(n) {
                let i = choose|i: int| 0 <= i < d.len() && registered_name_spec(server_id, (#[trigger] d[i]).name@) == n;
                assert(tools[i] == d[i]);
            }
            if registered_names(server_id, tools).contains(n) {
                let i = choose|i: int| 0 <= i < tools.len() && registered_name_spec(server_id, (#[trigger] tools[i]).name@) == n;
                if i < tools.len() - 1 {
                    assert(d[i] == tools[i]);
                }
            }
            if registered_name_spec(server_id, tools.last().name@) == n {
                assert(tools[tools.len() - 1] == tools.last());
            }
        }
        let r = register_all(m, server_id, tools, transport);
        let rd = register_all(m, server_id, d, transport);
        let ln = registered_name_spec(server_id, tools.last().name@);
        assert(r == rd.insert(ln, registered_entry(server_id, tools.last(), transport)));
        assert forall|n: Seq<char>| #[trigger] registered_names(server_id, tools).contains(n) implies r.dom().contains(n)
            && r[n].server_id == server_id by {
            if n != ln {
                assert(registered_names(server_id, d).contains(n));
            }
        }
        assert forall|n: Seq<char>| !registered_names(server_id, tools).contains(n) implies (#[trigger] r.dom().contains(n)
            == m.dom().contains(n)) && (m.dom().contains(n) ==> r[n] == m[n]) by {
            assert(!registered_names(server_id, d).contains(n));
            assert(n != ln);
        }
    }
}

/// Whether a listing came from this server.
fn has_listing(ls: &Vec<ServerListing>, server_id: &str) -> (r: bool)
    ensures
        r == listing_ids(ls@).contains(server_id@),
{
    let mut k: usize = 0;
    while k < ls.len()
        invariant
            k <= ls@.len(),
            forall|j: int| 0 <= j < k ==> (#[trigger] ls@[j]).server_id@ != server_id@,
        decreases ls.len() - k,
    {
        if str_eq(ls[k].server_id.as_str(), server_id) {
            assert(listing_ids(ls@).contains(server_id@));
            return true;
        }
        k = k + 1;
    }
    false
}

/// Registers the tools each connected server listed, in order, then
/// removes every tool of a server that did not answer: afterwards each
/// registered tool belongs to a server that answered, and each tool an
/// answer listed is registered.
pub fn refresh_registry(registry: &mut ToolRegistry, listings: &Vec<ServerListing>)
    requires
        old(registry).wf(),
    ensures
        final(registry).wf(),
        forall|n: Seq<char>|
            #[trigger] final(registry).tools().dom().contains(n) ==> listing_ids(listings@).contains(
                final(registry).tools()[n].server_id,
            ),
        forall|k: int, n: Seq<char>|
            0 <= k < listings@.len() && #[trigger] listed_names(listings@[k].server_id@, listings@[k].answer@).contains(n)
                ==> #[trigger] final(registry).tools().dom().contains(n),
        forall|k: int, i: int|
            0 <= k < listings@.len() && 0 <= i < answer_items(listings@[k].answer@).len() && #[trigger] last_to_list(
                listings@,
                k,
                i,
                listings@.len() as int,
            ) ==> registered_from(listings@, k, i, final(registry).tools()),
{
    let ghost ids = listing_ids(listings@);
    let mut k: usize = 0;
    while k < listings.len()
        invariant
            k <= listings@.len(),
            ids == listing_ids(listings@),
            registry.wf(),
            forall|j: int, n: Seq<char>|
                0 <= j < k && #[trigger] listed_names(listings@[j].server_id@, listings@[j].answer@).contains(n)
                    ==> registry.tools().dom().contains(n) && ids.contains(registry.tools()[n].server_id),
            forall|j: int, i: int|
                0 <= j < k && 0 <= i < answer_items(listings@[j].answer@).len() && #[trigger] last_to_list(listings@, j, i, k as int)
                    ==> registered_from(listings@, j, i, registry.tools()),
        decreases listings.len() - k,
    {
        let l = &listings[k];
        let tools = normalize_listed_tools(l.server_id.as_str(), &l.answer);
        let ghost m0 = registry.tools();
        registry.register_server(l.server_id.as_str(), tools.as_slice(), &l.transport);
        proof {
            let sid = l.server_id@;
            lemma_register_all_server(m0, sid, tools@, l.transport@);
            assert(ids.contains(sid)) by {
                assert(listings@[k as int].server_id@ == sid);
            }
            assert(registered_names(sid, tools@) =~= listed_names(sid, l.answer@)) by {
                assert forall|n: Seq<char>| registered_names(sid, tools@).contains(n) implies listed_names(sid, l.answer@).contains(n) by {
                    let i = choose|i: int| 0 <= i < tools@.len() && registered_name_spec(sid, (#[trigger] tools@[i]).name@) == n;
                    assert(json_str_field(named_items(listed_items(l.answer@))[i], "name"@) == Some(tools@[i].name@));
                }
                assert forall|n: Seq<char>| listed_names(sid, l.answer@).contains(n) implies registered_names(sid, tools@).contains(n) by {
                    let i = choose|i: int|
                        0 <= i < named_items(listed_items(l.answer@)).len() && registered_name_spec(
                            sid,
                            json_str_field(#[trigger] named_items(listed_items(l.answer@))[i], "name"@).unwrap(),
                        ) == n;
                    assert(json_str_field(named_items(listed_items(l.answer@))[i], "name"@) == Some(tools@[i].name@));
                }
            }
            let items = answer_items(l.answer@);
            assert forall|j: int, i: int|
                0 <= j < k + 1 && 0 <= i < answer_items(listings@[j].answer@).len() && #[trigger] last_to_list(
                    listings@,
                    j,
                    i,
                    k + 1,
                ) implies registered_from(listings@, j, i, registry.tools()) by {
                if j == k {
                    let n = item_name(sid, items[i]);
                    assert(json_str_field(items[i], "name"@) == Some(tools@[i].name@));
                    assert(n == registered_name_spec(sid, tools@[i].name@));
                    assert forall|i2: int| i < i2 < tools@.len() implies registered_name_spec(sid, (#[trigger] tools@[i2]).name@)
                        != registered_name_spec(sid, tools@[i].name@) by {
                        assert(json_str_field(items[i2], "name"@) == Some(tools@[i2].name@));
                        assert(item_name(sid, items[i2]) != n);
                    }
                    law_registered_tools_found(m0, sid, tools@, l.transport@, i, n);
                    assert(listed_as(tools@[i], sid, items[i], lenient_annotations(items[i])));
                } else {
                    let sj = listings@[j].server_id@;
                    let ij = answer_items(listings@[j].answer@)[i];
                    let n = item_name(sj, ij);
                    assert(last_to_list(listings@, j, i, k as int));
                    assert(!listed_names(sid, l.answer@).contains(n)) by {
                        assert(listings@[k as int] == *l);
                    }
                    assert(!registered_names(sid, tools@).contains(n));
                    assert(registered_from(listings@, j, i, m0));
                    let t = choose|t: NormalizedTool|
                        #[trigger] listed_as(t, sj, ij, lenient_annotations(ij)) && m0.dom().contains(n) && m0[n]
                            == registered_entry(sj, t, listings@[j].transport@);
                    assert(listed_as(t, sj, ij, lenient_annotations(ij)));
                }
            }
            assert forall|j: int, n: Seq<char>|
                0 <= j < k + 1 && #[trigger] listed_names(listings@[j].server_id@, listings@[j].answer@).contains(n)
                    implies registry.tools().dom().contains(n) && ids.contains(registry.tools()[n].server_id) by {
                if j == k {
                    assert(registered_names(sid, tools@).contains(n));
                } else if registered_names(sid, tools@).contains(n) {
                } else {
                    assert(m0.dom().contains(n));
                }
            }
        }
        k = k + 1;
    }
    let servers = registry.server_ids();
    let mut q: usize = 0;
    while q < servers.len()
        invariant
            q <= servers@.len(),
            ids == listing_ids(listings@),
            registry.wf(),
            forall|j: int, n: Seq<char>|
                0 <= j < listings@.len() && #[trigger] listed_names(listings@[j].server_id@, listings@[j].answer@).contains(n)
                    ==> registry.tools().dom().contains(n) && ids.contains(registry.tools()[n].server_id),
            forall|n: Seq<char>| #[trigger] registry.tools().dom().contains(n) ==> name_set(servers@).contains(registry.tools()[n].server_id),
            forall|j: int, n: Seq<char>|
                0 <= j < q && !ids.contains(servers@[j]@) && #[trigger] registry.tools().dom().contains(n)
                    ==> registry.tools()[n].server_id != (#[trigger] servers@[j])@,
            forall|j: int, i: int|
                0 <= j < listings@.len() && 0 <= i < answer_items(listings@[j].answer@).len() && #[trigger] last_to_list(
                    listings@,
                    j,
                    i,
                    listings@.len() as int,
                ) ==> registered_from(listings@, j, i, registry.tools()),
        decreases servers.len() - q,
    {
        if !has_listing(listings, servers[q].as_str()) {
            let ghost m0 = registry.tools();
            let _ = registry.unregister_server(servers[q].as_str());
            proof {
                assert forall|n: Seq<char>| #[trigger] registry.tools().dom().contains(n) implies m0.dom().contains(n)
                    && registry.tools()[n] == m0[n] by {}
                assert forall|j: int, i: int|
                    0 <= j < listings@.len() && 0 <= i < answer_items(listings@[j].answer@).len() && #[trigger] last_to_list(
                        listings@,
                        j,
                        i,
                        listings@.len() as int,
                    ) implies registered_from(listings@, j, i, registry.tools()) by {
                    let sj = listings@[j].server_id@;
                    let ij = answer_items(listings@[j].answer@)[i];
                    let n = item_name(sj, ij);
                    let t = choose|t: NormalizedTool|
                        #[trigger] listed_as(t, sj, ij, lenient_annotations(ij)) && m0.dom().contains(n) && m0[n]
                            == registered_entry(sj, t, listings@[j].transport@);
                    assert(ids.contains(sj));
                    assert(listed_as(t, sj, ij, lenient_annotations(ij)));
                }
            }
        }
        q = q + 1;
    }
    proof {
        assert forall|n: Seq<char>| #[trigger] registry.tools().dom().contains(n) implies ids.contains(registry.tools()[n].server_id) by {
            let s = registry.tools()[n].server_id;
            let j = choose|j: int| 0 <= j < servers@.len() && (#[trigger] servers@[j])@ == s;
            if !ids.contains(s) {
                assert(registry.tools()[n].server_id != servers@[j]@);
            }
        }
    }
}

} // verus!
