//! The MCP tool server: which tool a call names, what its arguments must
//! hold, and what each tool does to the store and answers.

use vstd::prelude::*;
use crate::ids::{new_uuid, now_millis, parse_uuid, uuid_parse, uuid_error_text};
use crate::kinds::{
    MemoryPool, MemoryType, LinkType, parse_pool, parse_type, parse_link,
};
use crate::types::{
    Memory, MemoryView, MemoryLink, MemoryStats, SearchQuery, UpdateMemoryRequest, SCALE,
    fresh_memory, touched, updated, opt_view,
};
use crate::store::{
    InMemoryStore, stored, link_stored, lookup, pos_of, has_id, views, search_outcome, describes,
    has_link_id, link_pos_of,
};
use crate::text::{str_eq, owned, joined, unicode_lowercase};
use crate::consolidation::{
    ConsolidationReport, MemoryConsolidator, strong_only, decayed_store, decaying_ids, weak_ids,
    spec_decay_threshold,
};

verus! {

/// The arguments of a tool call, as far as the tools read them: each is
/// present only where the call gave it with the right JSON type.
#[derive(Debug)]
pub struct McpArgs {
    pub content: Option<String>,
    pub pool: Option<String>,
    pub type_: Option<String>,
    pub query: Option<String>,
    pub limit: Option<u64>,
    pub source_id: Option<String>,
    pub target_id: Option<String>,
    pub link_type: Option<String>,
    pub id: Option<String>,
    pub confidence: Option<i32>,
    pub importance: Option<i32>,
    pub decay_rate: Option<i32>,
    pub tags: Option<Vec<String>>,
}

/// What a tool answers.
#[derive(Debug)]
pub enum McpReply {
    Memory(Memory),
    Memories(Vec<Memory>),
    Link(MemoryLink),
    Stats(MemoryStats),
    /// `{"deleted": true}`
    Deleted,
    /// The report of a consolidation run: `{"consolidated": true,
    /// "removed": <memories removed>}`.
    Consolidated(ConsolidationReport),
}

/// The tools.
#[derive(Debug, Clone, Copy, PartialEq, Eq, Structural)]
pub enum McpTool {
    Create,
    Retrieve,
    Link,
    Get,
    Update,
    Delete,
    Stats,
    Consolidate,
}

/// The tool a name selects.
pub open spec fn tool_named(s: Seq<char>) -> Option<McpTool> {
    if s == "memory_create"@ {
        Some(McpTool::Create)
    } else if s == "memory_retrieve"@ {
        Some(McpTool::Retrieve)
    } else if s == "memory_link"@ {
        Some(McpTool::Link)
    } else if s == "memory_get"@ {
        Some(McpTool::Get)
    } else if s == "memory_update"@ {
        Some(McpTool::Update)
    } else if s == "memory_delete"@ {
        Some(McpTool::Delete)
    } else if s == "memory_stats"@ {
        Some(McpTool::Stats)
    } else if s == "memory_consolidate"@ {
        Some(McpTool::Consolidate)
    } else {
        None
    }
}

/// The tool a name selects.
pub fn tool_from_name(name: &str) -> (r: Option<McpTool>)
    ensures
        r == tool_named(name@),
{
    if str_eq(name, "memory_create") {
        Some(McpTool::Create)
    } else if str_eq(name, "memory_retrieve") {
        Some(McpTool::Retrieve)
    } else if str_eq(name, "memory_link") {
        Some(McpTool::Link)
    } else if str_eq(name, "memory_get") {
        Some(McpTool::Get)
    } else if str_eq(name, "memory_update") {
        Some(McpTool::Update)
    } else if str_eq(name, "memory_delete") {
        Some(McpTool::Delete)
    } else if str_eq(name, "memory_stats") {
        Some(McpTool::Stats)
    } else if str_eq(name, "memory_consolidate") {
        Some(McpTool::Consolidate)
    } else {
        None
    }
}

/// The name a tool is called by.
pub open spec fn tool_name(t: McpTool) -> Seq<char> {
    match t {
        McpTool::Create => r#"memory_create"#@,
        McpTool::Retrieve => r#"memory_retrieve"#@,
        McpTool::Link => r#"memory_link"#@,
        McpTool::Get => r#"memory_get"#@,
        McpTool::Update => r#"memory_update"#@,
        McpTool::Delete => r#"memory_delete"#@,
        McpTool::Stats => r#"memory_stats"#@,
        McpTool::Consolidate => r#"memory_consolidate"#@,
    }
}

/// What a tool is described as.
pub open spec fn tool_description(t: McpTool) -> Seq<char> {
    match t {
        McpTool::Create => r#"Create a new memory entry"#@,
        McpTool::Retrieve => r#"Search and retrieve memories"#@,
        McpTool::Link => r#"Create a link between two memories"#@,
        McpTool::Get => r#"Get a specific memory by ID"#@,
        McpTool::Update => r#"Update an existing memory"#@,
        McpTool::Delete => r#"Delete a memory"#@,
        McpTool::Stats => r#"Get memory system statistics"#@,
        McpTool::Consolidate => r#"Run memory consolidation (decay + cleanup)"#@,
    }
}

/// The JSON schema of a tool's arguments, as JSON text.
pub open spec fn tool_schema(t: McpTool) -> Seq<char> {
    match t {
        McpTool::Create => r#"{"type":"object","properties":{"content":{"type":"string","description":"Memory content"},"pool":{"type":"string","enum":["explicit","implicit"],"default":"explicit"},"type":{"type":"string","enum":["fact","event","procedure","concept","preference","context"],"default":"fact"}},"required":["content"]}"#@,
        McpTool::Retrieve => r#"{"type":"object","properties":{"query":{"type":"string","description":"Search query"},"limit":{"type":"integer","default":10}},"required":["query"]}"#@,
        McpTool::Link => r#"{"type":"object","properties":{"source_id":{"type":"string","description":"Source memory ID"},"target_id":{"type":"string","description":"Target memory ID"},"link_type":{"type":"string","enum":["causes","related","contradicts","specializes","derived_from","similar","follows","alternative"]}},"required":["source_id","target_id","link_type"]}"#@,
        McpTool::Get => r#"{"type":"object","properties":{"id":{"type":"string","description":"Memory UUID"}},"required":["id"]}"#@,
        McpTool::Update => r#"{"type":"object","properties":{"id":{"type":"string","description":"Memory UUID"},"content":{"type":"string"},"confidence":{"type":"number"},"importance":{"type":"number"}},"required":["id"]}"#@,
        McpTool::Delete => r#"{"type":"object","properties":{"id":{"type":"string","description":"Memory UUID"}},"required":["id"]}"#@,
        McpTool::Stats => r#"{"type":"object","properties":{}}"#@,
        McpTool::Consolidate => r#"{"type":"object","properties":{}}"#@,
    }
}

/// The name a tool is called by.
pub fn name_of(t: McpTool) -> (r: &'static str)
    ensures
        r@ == tool_name(t),
{
    match t {
        McpTool::Create => r#"memory_create"#,
        McpTool::Retrieve => r#"memory_retrieve"#,
        McpTool::Link => r#"memory_link"#,
        McpTool::Get => r#"memory_get"#,
        McpTool::Update => r#"memory_update"#,
        McpTool::Delete => r#"memory_delete"#,
        McpTool::Stats => r#"memory_stats"#,
        McpTool::Consolidate => r#"memory_consolidate"#,
    }
}

/// What a tool is described as.
pub fn description_of(t: McpTool) -> (r: &'static str)
    ensures
        r@ == tool_description(t),
{
    match t {
        McpTool::Create => r#"Create a new memory entry"#,
        McpTool::Retrieve => r#"Search and retrieve memories"#,
        McpTool::Link => r#"Create a link between two memories"#,
        McpTool::Get => r#"Get a specific memory by ID"#,
        McpTool::Update => r#"Update an existing memory"#,
        McpTool::Delete => r#"Delete a memory"#,
        McpTool::Stats => r#"Get memory system statistics"#,
        McpTool::Consolidate => r#"Run memory consolidation (decay + cleanup)"#,
    }
}

/// The JSON schema of a tool's arguments, as JSON text.
pub fn schema_of(t: McpTool) -> (r: &'static str)
    ensures
        r@ == tool_schema(t),
{
    match t {
        McpTool::Create => r#"{"type":"object","properties":{"content":{"type":"string","description":"Memory content"},"pool":{"type":"string","enum":["explicit","implicit"],"default":"explicit"},"type":{"type":"string","enum":["fact","event","procedure","concept","preference","context"],"default":"fact"}},"required":["content"]}"#,
        McpTool::Retrieve => r#"{"type":"object","properties":{"query":{"type":"string","description":"Search query"},"limit":{"type":"integer","default":10}},"required":["query"]}"#,
        McpTool::Link => r#"{"type":"object","properties":{"source_id":{"type":"string","description":"Source memory ID"},"target_id":{"type":"string","description":"Target memory ID"},"link_type":{"type":"string","enum":["causes","related","contradicts","specializes","derived_from","similar","follows","alternative"]}},"required":["source_id","target_id","link_type"]}"#,
        McpTool::Get => r#"{"type":"object","properties":{"id":{"type":"string","description":"Memory UUID"}},"required":["id"]}"#,
        McpTool::Update => r#"{"type":"object","properties":{"id":{"type":"string","description":"Memory UUID"},"content":{"type":"string"},"confidence":{"type":"number"},"importance":{"type":"number"}},"required":["id"]}"#,
        McpTool::Delete => r#"{"type":"object","properties":{"id":{"type":"string","description":"Memory UUID"}},"required":["id"]}"#,
        McpTool::Stats => r#"{"type":"object","properties":{}}"#,
        McpTool::Consolidate => r#"{"type":"object","properties":{}}"#,
    }
}

/// Every tool, in the order they are listed.
pub open spec fn all_tools() -> Seq<McpTool> {
    seq![
        McpTool::Create,
        McpTool::Retrieve,
        McpTool::Link,
        McpTool::Get,
        McpTool::Update,
        McpTool::Delete,
        McpTool::Stats,
        McpTool::Consolidate,
    ]
}

/// A tool as it is offered to an agent: its name, its description and the
/// JSON schema of its arguments (as JSON text).
#[derive(Debug)]
pub struct ToolSpec {
    pub name: String,
    pub description: String,
    pub input_schema: String,
}

/// The tool catalogue: each tool with its name, description and argument
/// schema, in the order of `all_tools`.
pub fn get_tools() -> (r: Vec<ToolSpec>)
    ensures
        r@.len() == all_tools().len(),
        forall|i: int|
            0 <= i < r@.len() ==> {
                &&& (#[trigger] r@[i]).name@ == tool_name(all_tools()[i])
                &&& r@[i].description@ == tool_description(all_tools()[i])
                &&& r@[i].input_schema@ == tool_schema(all_tools()[i])
            },
{
    let ts: [McpTool; 8] = [
        McpTool::Create,
        McpTool::Retrieve,
        McpTool::Link,
        McpTool::Get,
        McpTool::Update,
        McpTool::Delete,
        McpTool::Stats,
        McpTool::Consolidate,
    ];
    assert(ts@ =~= all_tools());
    let mut out: Vec<ToolSpec> = Vec::new();
    let mut i: usize = 0;
    while i < 8
        invariant
            ts@ == all_tools(),
            i <= 8,
            out@.len() == i,
            forall|k: int|
                0 <= k < i ==> {
                    &&& (#[trigger] out@[k]).name@ == tool_name(all_tools()[k])
                    &&& out@[k].description@ == tool_description(all_tools()[k])
                    &&& out@[k].input_schema@ == tool_schema(all_tools()[k])
                },
        decreases 8 - i,
    {
        let t = ts[i];
        out.push(
            ToolSpec {
                name: owned(name_of(t)),
                description: owned(description_of(t)),
                input_schema: owned(schema_of(t)),
            },
        );
        i = i + 1;
    }
    out
}

/// Law (tool catalogue): every tool the catalogue lists is the tool its
/// name selects when called, and no two listed tools share a name.
pub proof fn lemma_listed_tools_dispatch()
    ensures
        forall|i: int| 0 <= i < all_tools().len() ==> tool_named(tool_name(#[trigger] all_tools()[i])) == Some(all_tools()[i]),
        forall|i: int, j: int|
            0 <= i < all_tools().len() && 0 <= j < all_tools().len() && i != j ==> tool_name(#[trigger] all_tools()[i]) != tool_name(#[trigger] all_tools()[j]),
{
    reveal_strlit("memory_create");
    reveal_strlit("memory_retrieve");
    reveal_strlit("memory_link");
    reveal_strlit("memory_get");
    reveal_strlit("memory_update");
    reveal_strlit("memory_delete");
    reveal_strlit("memory_stats");
    reveal_strlit("memory_consolidate");
    assert forall|i: int| 0 <= i < all_tools().len() implies tool_named(tool_name(#[trigger] all_tools()[i])) == Some(all_tools()[i]) by {
        assert("memory_retrieve"@[7] != "memory_create"@[7]);
        assert("memory_link"@[7] != "memory_create"@[7]);
        assert("memory_get"@[7] != "memory_create"@[7]);
        assert("memory_update"@[7] != "memory_create"@[7]);
        assert("memory_delete"@[7] != "memory_create"@[7]);
        assert("memory_stats"@[7] != "memory_create"@[7]);
        assert("memory_consolidate"@[8] != "memory_create"@[8]);
        assert("memory_link"@[7] != "memory_retrieve"@[7]);
        assert("memory_get"@[7] != "memory_retrieve"@[7]);
        assert("memory_update"@[7] != "memory_retrieve"@[7]);
        assert("memory_delete"@[7] != "memory_retrieve"@[7]);
        assert("memory_stats"@[7] != "memory_retrieve"@[7]);
        assert("memory_consolidate"@[7] != "memory_retrieve"@[7]);
        assert("memory_get"@[7] != "memory_link"@[7]);
        assert("memory_update"@[7] != "memory_link"@[7]);
        assert("memory_delete"@[7] != "memory_link"@[7]);
        assert("memory_stats"@[7] != "memory_link"@[7]);
        assert("memory_consolidate"@[7] != "memory_link"@[7]);
        assert("memory_update"@[7] != "memory_get"@[7]);
        assert("memory_delete"@[7] != "memory_get"@[7]);
        assert("memory_stats"@[7] != "memory_get"@[7]);
        assert("memory_consolidate"@[7] != "memory_get"@[7]);
        assert("memory_delete"@[7] != "memory_update"@[7]);
        assert("memory_stats"@[7] != "memory_update"@[7]);
        assert("memory_consolidate"@[7] != "memory_update"@[7]);
        assert("memory_stats"@[7] != "memory_delete"@[7]);
        assert("memory_consolidate"@[7] != "memory_delete"@[7]);
        assert("memory_consolidate"@[7] != "memory_stats"@[7]);
    }
}

/// A resource the server offers: where it is, its name, what it holds, and
/// its media type.
#[derive(Debug)]
pub struct ResourceSpec {
    pub uri: String,
    pub name: String,
    pub description: String,
    pub mime_type: String,
}

/// One resource, built from literal parts.
fn resource(uri: &str, name: &str, description: &str) -> (r: ResourceSpec)
    ensures
        r.uri@ == uri@,
        r.name@ == name@,
        r.description@ == description@,
        r.mime_type@ == "application/json"@,
{
    ResourceSpec {
        uri: owned(uri),
        name: owned(name),
        description: owned(description),
        mime_type: owned("application/json"),
    }
}

/// The resources: the statistics, the explicit memories and the implicit
/// memories, each as JSON.
pub fn get_resources() -> (r: Vec<ResourceSpec>)
    ensures
        r@.len() == 3,
        r@[0].uri@ == "memory://stats"@,
        r@[0].name@ == "Memory Statistics"@,
        r@[0].description@ == "Current memory system statistics"@,
        r@[1].uri@ == "memory://explicit"@,
        r@[1].name@ == "Explicit Memories"@,
        r@[1].description@ == "All explicit memories"@,
        r@[2].uri@ == "memory://implicit"@,
        r@[2].name@ == "Implicit Memories"@,
        r@[2].description@ == "All implicit memories"@,
        forall|i: int| 0 <= i < 3 ==> (#[trigger] r@[i]).mime_type@ == "application/json"@,
{
    let mut v: Vec<ResourceSpec> = Vec::new();
    v.push(resource("memory://stats", "Memory Statistics", "Current memory system statistics"));
    v.push(resource("memory://explicit", "Explicit Memories", "All explicit memories"));
    v.push(resource("memory://implicit", "Implicit Memories", "All implicit memories"));
    v
}

/// Law (linking tool): a successful `memory_link` call stores and returns a
/// link from the memory its `source_id` names to the memory its `target_id`
/// names, with the link type its `link_type` names, full strength, the new
/// identifier and the call's time; no memory changes.
pub proof fn lemma_link_tool_direction(
    name: Seq<char>,
    s0: Seq<MemoryView>,
    s1: Seq<MemoryView>,
    l0: Seq<MemoryLink>,
    l1: Seq<MemoryLink>,
    args: McpArgs,
    id: u128,
    now: i64,
    r: Result<McpReply, String>,
)
    requires
        tool_named(name) == Some(McpTool::Link),
        tool_outcome(name, s0, s1, l0, l1, args, id, now, r),
        r is Ok,
    ensures
        r matches Ok(McpReply::Link(l)) && {
            &&& args.source_id matches Some(src) && uuid_parse(src@) == Some(l.source_id)
            &&& args.target_id matches Some(tgt) && uuid_parse(tgt@) == Some(l.target_id)
            &&& args.link_type matches Some(lt) && parse_link(unicode_lowercase(lt@), lt@)
                == Ok::<LinkType, Seq<char>>(l.link_type)
            &&& l.id == id && l.strength == SCALE && l.created_at == now
            &&& l1.contains(l)
            &&& s1 == s0
        },
{
    if let Ok(McpReply::Link(l)) = r {
        if has_link_id(l0, l.id) {
            let p = link_pos_of(l0, l.id);
            assert(l1[p] == l);
        } else {
            assert(l1[l0.len() as int] == l);
        }
    }
}

/// The reply is the error `e`.
pub open spec fn is_error(r: Result<McpReply, String>, e: Seq<char>) -> bool {
    r matches Err(x) && x@ == e
}

/// `memory_create`: the content is required; pool and type default to
/// `explicit` and `fact` and must parse; the new memory, with identifier
/// `id` made at `now`, is stored and answered.
pub open spec fn create_outcome(
    s0: Seq<MemoryView>,
    s1: Seq<MemoryView>,
    args: McpArgs,
    id: u128,
    now: i64,
    r: Result<McpReply, String>,
) -> bool {
    match args.content {
        None => s1 == s0 && is_error(r, "Missing content"@),
        Some(c) => {
            let ps = match args.pool {
                Some(p) => p@,
                None => "explicit"@,
            };
            let ts = match args.type_ {
                Some(t) => t@,
                None => "fact"@,
            };
            match parse_pool(unicode_lowercase(ps), ps) {
                Err(e) => s1 == s0 && is_error(r, e),
                Ok(p) => match parse_type(unicode_lowercase(ts), ts) {
                    Err(e) => s1 == s0 && is_error(r, e),
                    Ok(t) => {
                        let m = fresh_memory(id, now, c@, p, t);
                        s1 == stored(s0, m) && (r matches Ok(McpReply::Memory(x)) && x@ == m)
                    },
                },
            }
        },
    }
}

/// `memory_retrieve`: the query is required; a content search with the
/// given pool and type filters and at most `limit` (default 10) results.
pub open spec fn retrieve_outcome(
    s0: Seq<MemoryView>,
    s1: Seq<MemoryView>,
    args: McpArgs,
    r: Result<McpReply, String>,
) -> bool {
    &&& s1 == s0
    &&& match args.query {
        None => is_error(r, "Missing query"@),
        Some(q) => {
            let limit = match args.limit {
                Some(l) => l,
                None => 10,
            };
            r matches Ok(McpReply::Memories(v)) && views(v@) == search_outcome(
                s0,
                q@,
                opt_view(args.pool),
                opt_view(args.type_),
                0,
                (limit as usize) as int,
            )
        },
    }
}

/// `memory_link`: source, target and link type are required (checked in
/// that order), then the two identifiers and the link type must parse; the
/// new link of full strength, with identifier `id` made at `now`, is stored
/// and answered.
pub open spec fn link_outcome(
    l0: Seq<MemoryLink>,
    l1: Seq<MemoryLink>,
    args: McpArgs,
    id: u128,
    now: i64,
    r: Result<McpReply, String>,
) -> bool {
    match (args.source_id, args.target_id, args.link_type) {
        (None, _, _) => l1 == l0 && is_error(r, "Missing source_id"@),
        (Some(_), None, _) => l1 == l0 && is_error(r, "Missing target_id"@),
        (Some(_), Some(_), None) => l1 == l0 && is_error(r, "Missing link_type"@),
        (Some(src), Some(tgt), Some(lt)) => match (uuid_parse(src@), uuid_parse(tgt@)) {
            (None, _) => l1 == l0 && is_error(r, uuid_error_text(src@)),
            (Some(_), None) => l1 == l0 && is_error(r, uuid_error_text(tgt@)),
            (Some(a), Some(b)) => match parse_link(unicode_lowercase(lt@), lt@) {
                Err(e) => l1 == l0 && is_error(r, e),
                Ok(t) => {
                    let link = MemoryLink {
                        id,
                        source_id: a,
                        target_id: b,
                        link_type: t,
                        strength: SCALE,
                        created_at: now,
                    };
                    l1 == link_stored(l0, link) && r == Ok::<McpReply, String>(McpReply::Link(link))
                },
            },
        },
    }
}

/// The memory identifier a call gives: required, and it must parse.
pub open spec fn id_arg(args: McpArgs) -> Result<u128, Seq<char>> {
    match args.id {
        None => Err("Missing id"@),
        Some(s) => match uuid_parse(s@) {
            None => Err(uuid_error_text(s@)),
            Some(u) => Ok(u),
        },
    }
}

/// A `memory_get` call may run: the memory it names, if stored, can record
/// one more access.
pub open spec fn get_allowed(s: Seq<MemoryView>, args: McpArgs) -> bool {
    id_arg(args) matches Ok(u) ==> (lookup(s, u) matches Some(m) ==> m.access_count < u64::MAX)
}

/// `memory_get`: the memory, with an access recorded at `now`, or
/// `Memory not found`.
pub open spec fn get_outcome(
    s0: Seq<MemoryView>,
    s1: Seq<MemoryView>,
    args: McpArgs,
    now: i64,
    r: Result<McpReply, String>,
) -> bool {
    match id_arg(args) {
        Err(e) => s1 == s0 && is_error(r, e),
        Ok(u) => match lookup(s0, u) {
            None => s1 == s0 && is_error(r, "Memory not found"@),
            Some(m) => s1 == s0.update(pos_of(s0, u), touched(m, now)) && (r matches Ok(
                McpReply::Memory(x),
            ) && x@ == touched(m, now)),
        },
    }
}

/// The update request a call gives: content, pool, type, scores and tags;
/// never metadata.
pub open spec fn update_request_of(args: McpArgs, u: UpdateMemoryRequest) -> bool {
    &&& opt_view(u.content) == opt_view(args.content)
    &&& opt_view(u.pool) == opt_view(args.pool)
    &&& opt_view(u.type_) == opt_view(args.type_)
    &&& u.confidence == args.confidence
    &&& u.importance == args.importance
    &&& u.decay_rate == args.decay_rate
    &&& u.tags == args.tags
    &&& u.metadata is None
}

/// `memory_update`: the memory after the update at `now`, or the update's
/// error, or `Memory not found`.
pub open spec fn update_outcome(
    s0: Seq<MemoryView>,
    s1: Seq<MemoryView>,
    args: McpArgs,
    now: i64,
    r: Result<McpReply, String>,
) -> bool {
    match id_arg(args) {
        Err(e) => s1 == s0 && is_error(r, e),
        Ok(u) => match lookup(s0, u) {
            None => s1 == s0 && is_error(r, "Memory not found"@),
            Some(m) => exists|req: UpdateMemoryRequest|
                #![trigger updated(m, req, now)]
                {
                    let (m2, outcome) = updated(m, req, now);
                    &&& update_request_of(args, req)
                    &&& s1 == s0.update(pos_of(s0, u), m2)
                    &&& match outcome {
                        Ok(()) => r matches Ok(McpReply::Memory(x)) && x@ == m2,
                        Err(e) => is_error(r, e),
                    }
                },
        },
    }
}

/// `memory_delete`: the memory is removed and `{"deleted": true}`
/// answered, or `Memory not found`.
pub open spec fn delete_outcome(
    s0: Seq<MemoryView>,
    s1: Seq<MemoryView>,
    args: McpArgs,
    r: Result<McpReply, String>,
) -> bool {
    match id_arg(args) {
        Err(e) => s1 == s0 && is_error(r, e),
        Ok(u) => if has_id(s0, u) {
            s1 == s0.remove(pos_of(s0, u)) && r matches Ok(McpReply::Deleted)
        } else {
            s1 == s0 && is_error(r, "Memory not found"@)
        },
    }
}

/// `memory_consolidate`: every memory decays at `now`, then every memory
/// weaker than 0.1 is removed, exactly as `MemoryConsolidator::consolidate_at`
/// does; the reply reports how many decayed and how many were removed.
pub open spec fn consolidate_outcome(
    s0: Seq<MemoryView>,
    s1: Seq<MemoryView>,
    l0: Seq<MemoryLink>,
    l1: Seq<MemoryLink>,
    now: i64,
    r: Result<McpReply, String>,
) -> bool {
    &&& l1 == l0
    &&& s1 == strong_only(decayed_store(s0, now), spec_decay_threshold())
    &&& r matches Ok(McpReply::Consolidated(rep)) && rep.success && rep.decayed_count == decaying_ids(
        s0,
        now,
    ).len() && rep.removed_count == weak_ids(decayed_store(s0, now), spec_decay_threshold()).len()
        && rep.similar_pairs_found == 0
}

/// What a call of the tool named `name` does: the memories and links before
/// (`s0`, `l0`) and after (`s1`, `l1`), and the reply. A new memory or link
/// gets the identifier `id`; times are `now`. An unknown name changes
/// nothing and answers `Unknown tool: <name>`.
pub open spec fn tool_outcome(
    name: Seq<char>,
    s0: Seq<MemoryView>,
    s1: Seq<MemoryView>,
    l0: Seq<MemoryLink>,
    l1: Seq<MemoryLink>,
    args: McpArgs,
    id: u128,
    now: i64,
    r: Result<McpReply, String>,
) -> bool {
    match tool_named(name) {
        None => s1 == s0 && l1 == l0 && is_error(r, "Unknown tool: "@ + name),
        Some(McpTool::Create) => l1 == l0 && create_outcome(s0, s1, args, id, now, r),
        Some(McpTool::Retrieve) => l1 == l0 && retrieve_outcome(s0, s1, args, r),
        Some(McpTool::Link) => s1 == s0 && link_outcome(l0, l1, args, id, now, r),
        Some(McpTool::Get) => l1 == l0 && get_outcome(s0, s1, args, now, r),
        Some(McpTool::Update) => l1 == l0 && update_outcome(s0, s1, args, now, r),
        Some(McpTool::Delete) => l1 == l0 && delete_outcome(s0, s1, args, r),
        Some(McpTool::Stats) => s1 == s0 && l1 == l0 && (r matches Ok(McpReply::Stats(st)) && describes(st, s0, l0)),
        Some(McpTool::Consolidate) => consolidate_outcome(s0, s1, l0, l1, now, r),
    }
}

/// The MCP server over one store.
pub struct McpServer {
    store: InMemoryStore,
}

impl McpServer {
    /// The memories of the store.
    pub closed spec fn memories_view(&self) -> Seq<MemoryView> {
        self.store.memories_view()
    }

    /// The links of the store.
    pub closed spec fn links_view(&self) -> Seq<MemoryLink> {
        self.store.links_view()
    }

    /// The store is well formed.
    pub closed spec fn wf(&self) -> bool {
        self.store.wf()
    }

    /// A server over `store`.
    pub fn new(store: InMemoryStore) -> (r: McpServer)
        requires
            store.wf(),
        ensures
            r.wf(),
            r.memories_view() == store.memories_view(),
            r.links_view() == store.links_view(),
    {
        McpServer { store }
    }

    /// The store, given back.
    pub fn into_store(self) -> (r: InMemoryStore)
        requires
            self.wf(),
        ensures
            r.wf(),
            r.memories_view() == self.memories_view(),
            r.links_view() == self.links_view(),
    {
        self.store
    }

    /// The store, to read.
    pub fn store(&self) -> (r: &InMemoryStore)
        ensures
            r.memories_view() == self.memories_view(),
            r.links_view() == self.links_view(),
            self.wf() ==> r.wf(),
    {
        &self.store
    }

    /// The memory identifier a call gives.
    fn id_of(args: &McpArgs) -> (r: Result<u128, String>)
        ensures
            match (r, id_arg(*args)) {
                (Ok(a), Ok(b)) => a == b,
                (Err(e), Err(e2)) => e@ == e2,
                _ => false,
            },
    {
        match &args.id {
            None => Err(owned("Missing id")),
            Some(s) => parse_uuid(s.as_str()),
        }
    }

    fn memory_create(&mut self, args: McpArgs, id: u128, now: i64) -> (r: Result<McpReply, String>)
        requires
            old(self).wf(),
        ensures
            final(self).wf(),
            final(self).links_view() == old(self).links_view(),
            create_outcome(old(self).memories_view(), final(self).memories_view(), args, id, now, r),
    {
        let ghost a = args;
        let McpArgs { content, pool, type_, .. } = args;
        let content = match content {
            Some(c) => c,
            None => {
                return Err(owned("Missing content"));
            },
        };
        let pool_str = match pool {
            Some(p) => p,
            None => owned("explicit"),
        };
        let type_str = match type_ {
            Some(t) => t,
            None => owned("fact"),
        };
        let pool = match MemoryPool::from_str(pool_str.as_str()) {
            Ok(p) => p,
            Err(e) => {
                return Err(e);
            },
        };
        let type_ = match MemoryType::from_str(type_str.as_str()) {
            Ok(t) => t,
            Err(e) => {
                return Err(e);
            },
        };
        let memory = Memory::with_identity(id, now, content, pool, type_);
        match self.store.create(memory) {
            Ok(m) => Ok(McpReply::Memory(m)),
            Err(e) => Err(e),
        }
    }

    fn memory_retrieve(&self, args: McpArgs) -> (r: Result<McpReply, String>)
        ensures
            retrieve_outcome(self.memories_view(), self.memories_view(), args, r),
    {
        let McpArgs { query, limit, type_, pool, .. } = args;
        let query = match query {
            Some(q) => q,
            None => {
                return Err(owned("Missing query"));
            },
        };
        let limit: u64 = match limit {
            Some(l) => l,
            None => 10,
        };
        let q = SearchQuery {
            query,
            pool,
            type_,
            tags: None,
            limit: limit as usize,
            min_confidence: 0,
            include_links: false,
        };
        match self.store.search(q) {
            Ok(v) => Ok(McpReply::Memories(v)),
            Err(e) => Err(e),
        }
    }

    fn memory_link(&mut self, args: McpArgs, id: u128, now: i64) -> (r: Result<McpReply, String>)
        requires
            old(self).wf(),
        ensures
            final(self).wf(),
            final(self).memories_view() == old(self).memories_view(),
            link_outcome(old(self).links_view(), final(self).links_view(), args, id, now, r),
    {
        let McpArgs { source_id, target_id, link_type, .. } = args;
        let source_id = match source_id {
            Some(s) => s,
            None => {
                return Err(owned("Missing source_id"));
            },
        };
        let target_id = match target_id {
            Some(s) => s,
            None => {
                return Err(owned("Missing target_id"));
            },
        };
        let link_type = match link_type {
            Some(s) => s,
            None => {
                return Err(owned("Missing link_type"));
            },
        };
        let source = match parse_uuid(source_id.as_str()) {
            Ok(u) => u,
            Err(e) => {
                return Err(e);
            },
        };
        let target = match parse_uuid(target_id.as_str()) {
            Ok(u) => u,
            Err(e) => {
                return Err(e);
            },
        };
        let lt = match LinkType::from_str(link_type.as_str()) {
            Ok(t) => t,
            Err(e) => {
                return Err(e);
            },
        };
        let link = MemoryLink::with_identity(id, now, source, target, lt);
        match self.store.create_link(link) {
            Ok(l) => Ok(McpReply::Link(l)),
            Err(e) => Err(e),
        }
    }

    fn memory_get(&mut self, args: McpArgs, now: i64) -> (r: Result<McpReply, String>)
        requires
            old(self).wf(),
            get_allowed(old(self).memories_view(), args),
        ensures
            final(self).wf(),
            final(self).links_view() == old(self).links_view(),
            get_outcome(old(self).memories_view(), final(self).memories_view(), args, now, r),
    {
        let uuid = match Self::id_of(&args) {
            Ok(u) => u,
            Err(e) => {
                return Err(e);
            },
        };
        match self.store.get_at(uuid, now) {
            Ok(Some(m)) => Ok(McpReply::Memory(m)),
            Ok(None) => Err(owned("Memory not found")),
            Err(e) => Err(e),
        }
    }

    fn memory_update(&mut self, args: McpArgs, now: i64) -> (r: Result<McpReply, String>)
        requires
            old(self).wf(),
        ensures
            final(self).wf(),
            final(self).links_view() == old(self).links_view(),
            update_outcome(old(self).memories_view(), final(self).memories_view(), args, now, r),
    {
        let ghost a = args;
        let uuid = match Self::id_of(&args) {
            Ok(u) => u,
            Err(e) => {
                return Err(e);
            },
        };
        let McpArgs { content, pool, type_, confidence, importance, decay_rate, tags, .. } = args;
        let update = UpdateMemoryRequest {
            content,
            pool,
            type_,
            confidence,
            importance,
            decay_rate,
            tags,
            metadata: None,
        };
        let ghost req = update;
        assert(update_request_of(a, req));
        let result = self.store.update_at(uuid, update, now);
        proof {
            if lookup(old(self).memories_view(), uuid) is Some {
                let _ = updated(lookup(old(self).memories_view(), uuid)->0, req, now);
            }
        }
        match result {
            Ok(Some(m)) => Ok(McpReply::Memory(m)),
            Ok(None) => Err(owned("Memory not found")),
            Err(e) => Err(e),
        }
    }

    fn memory_delete(&mut self, args: McpArgs) -> (r: Result<McpReply, String>)
        requires
            old(self).wf(),
        ensures
            final(self).wf(),
            final(self).links_view() == old(self).links_view(),
            delete_outcome(old(self).memories_view(), final(self).memories_view(), args, r),
    {
        let uuid = match Self::id_of(&args) {
            Ok(u) => u,
            Err(e) => {
                return Err(e);
            },
        };
        match self.store.delete(uuid) {
            Ok(true) => Ok(McpReply::Deleted),
            Ok(false) => Err(owned("Memory not found")),
            Err(e) => Err(e),
        }
    }

    fn memory_consolidate(&mut self, now: i64) -> (r: Result<McpReply, String>)
        requires
            old(self).wf(),
        ensures
            final(self).wf(),
            consolidate_outcome(
                old(self).memories_view(),
                final(self).memories_view(),
                old(self).links_view(),
                final(self).links_view(),
                now,
                r,
            ),
    {
        let mut store = InMemoryStore::new();
        std::mem::swap(&mut store, &mut self.store);
        let mut consolidator = MemoryConsolidator::new(store);
        let result = consolidator.consolidate_at(now);
        self.store = consolidator.into_store();
        match result {
            Ok(rep) => Ok(McpReply::Consolidated(rep)),
            Err(e) => Err(e),
        }
    }

    /// Runs the tool that `tool_name` names with the given arguments. A new
    /// memory or link gets the identifier `id`; times are `now`.
    pub fn handle_tool_call_at(
        &mut self,
        tool_name: &str,
        args: McpArgs,
        id: u128,
        now: i64,
    ) -> (r: Result<McpReply, String>)
        requires
            old(self).wf(),
            tool_named(tool_name@) == Some(McpTool::Get) ==> get_allowed(old(self).memories_view(), args),
        ensures
            final(self).wf(),
            tool_outcome(
                tool_name@,
                old(self).memories_view(),
                final(self).memories_view(),
                old(self).links_view(),
                final(self).links_view(),
                args,
                id,
                now,
                r,
            ),
            tool_named(tool_name@) == Some(McpTool::Link) ==> (r matches Ok(McpReply::Link(l)) ==> {
                &&& args.source_id matches Some(src) && uuid_parse(src@) == Some(l.source_id)
                &&& args.target_id matches Some(tgt) && uuid_parse(tgt@) == Some(l.target_id)
                &&& final(self).links_view().contains(l)
            }),
    {
        let ghost a = args;
        let r = match tool_from_name(tool_name) {
            None => Err(joined("Unknown tool: ", tool_name)),
            Some(McpTool::Create) => self.memory_create(args, id, now),
            Some(McpTool::Retrieve) => self.memory_retrieve(args),
            Some(McpTool::Link) => self.memory_link(args, id, now),
            Some(McpTool::Get) => self.memory_get(args, now),
            Some(McpTool::Update) => self.memory_update(args, now),
            Some(McpTool::Delete) => self.memory_delete(args),
            Some(McpTool::Stats) => match self.store.stats() {
                Ok(st) => Ok(McpReply::Stats(st)),
                Err(e) => Err(e),
            },
            Some(McpTool::Consolidate) => self.memory_consolidate(now),
        };
        proof {
            if tool_named(tool_name@) == Some(McpTool::Link) && r is Ok {
                lemma_link_tool_direction(
                    tool_name@,
                    old(self).memories_view(),
                    self.memories_view(),
                    old(self).links_view(),
                    self.links_view(),
                    a,
                    id,
                    now,
                    r,
                );
            }
        }
        r
    }

    /// Runs the named tool now, with a random identifier for anything new.
    pub fn handle_tool_call(&mut self, tool_name: &str, args: McpArgs) -> (r: Result<McpReply, String>)
        requires
            old(self).wf(),
            tool_named(tool_name@) == Some(McpTool::Get) ==> get_allowed(old(self).memories_view(), args),
        ensures
            final(self).wf(),
            exists|id: u128, now: i64|
                #[trigger] tool_outcome(
                    tool_name@,
                    old(self).memories_view(),
                    final(self).memories_view(),
                    old(self).links_view(),
                    final(self).links_view(),
                    args,
                    id,
                    now,
                    r,
                ),
    {
        let id = new_uuid();
        let now = now_millis();
        let r = self.handle_tool_call_at(tool_name, args, id, now);
        r
    }
}

} // verus!
