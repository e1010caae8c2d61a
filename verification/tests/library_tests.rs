//! Scenarios and edge cases of the library, one concrete case per law.

use self_evolving_memory::consolidation::MemoryConsolidator;
use self_evolving_memory::embedding::{generate_values, LocalEmbedding, OpenAIEmbedding};
use self_evolving_memory::extractor::{classify_extension, limit_content, normalize_extension, FileKind};
use self_evolving_memory::kinds::{LinkType, MemoryPool, MemoryType};
use self_evolving_memory::mcp::{get_resources, get_tools, McpArgs, McpReply, McpServer};
use self_evolving_memory::pool::PoolManager;
use self_evolving_memory::spreading::SpreadingActivation;
use self_evolving_memory::sql::{
    like_pattern, link_type_or_related, pool_or_implicit, postgres_list_sql, postgres_search_sql,
    search_pattern, sqlite_list_sql, sqlite_search_sql, type_or_fact, uuid_or_nil,
};
use self_evolving_memory::store::InMemoryStore;
use self_evolving_memory::types::{
    apply_update, default_confidence, default_importance, default_limit, CreateMemoryRequest,
    ListParams, Memory, MemoryLink, SearchQuery, UpdateMemoryRequest,
};
use self_evolving_memory::vision::{
    get_image_format, image_data_url, is_image_format, select_api_key, vision_endpoint,
    vision_reply_content,
};

use std::collections::hash_map::DefaultHasher;
use std::hash::{Hash, Hasher};

const DAY: i64 = 86_400_000;

fn mem(id: u128, content: &str) -> Memory {
    Memory::with_identity(id, 1_000, content.to_string(), MemoryPool::Explicit, MemoryType::Fact)
}

fn query(q: &str, limit: usize) -> SearchQuery {
    SearchQuery {
        query: q.to_string(),
        pool: None,
        type_: None,
        tags: None,
        limit,
        min_confidence: 0,
        include_links: false,
    }
}

fn no_args() -> McpArgs {
    McpArgs {
        content: None,
        pool: None,
        type_: None,
        query: None,
        limit: None,
        source_id: None,
        target_id: None,
        link_type: None,
        id: None,
        confidence: None,
        importance: None,
        decay_rate: None,
        tags: None,
    }
}

#[test]
fn names_round_trip_through_parsing() {
    for p in [MemoryPool::Explicit, MemoryPool::Implicit] {
        assert_eq!(MemoryPool::from_str(p.as_str()).unwrap(), p);
    }
    let types = [
        MemoryType::Fact,
        MemoryType::Event,
        MemoryType::Procedure,
        MemoryType::Concept,
        MemoryType::Preference,
        MemoryType::Context,
        MemoryType::Document,
        MemoryType::Image,
    ];
    for t in types {
        assert_eq!(MemoryType::from_str(t.as_str()).unwrap(), t);
    }
    let links = [
        LinkType::Causes,
        LinkType::Related,
        LinkType::Contradicts,
        LinkType::Specializes,
        LinkType::DerivedFrom,
        LinkType::Similar,
        LinkType::Follows,
        LinkType::Alternative,
    ];
    for l in links {
        assert_eq!(LinkType::from_str(l.as_str()).unwrap(), l);
    }
    assert_eq!(LinkType::DerivedFrom.as_str(), "derived_from");
}

#[test]
fn parsing_ignores_case_and_names_the_bad_text() {
    assert_eq!(MemoryPool::from_str("EXPLICIT").unwrap(), MemoryPool::Explicit);
    assert_eq!(MemoryType::from_str("PreFerence").unwrap(), MemoryType::Preference);
    assert_eq!(LinkType::from_str("Derived_From").unwrap(), LinkType::DerivedFrom);
    assert_eq!(MemoryPool::from_str("Nope").unwrap_err(), "Invalid pool: Nope");
    assert_eq!(MemoryType::from_str("Nope").unwrap_err(), "Invalid type: Nope");
    assert_eq!(LinkType::from_str("Nope").unwrap_err(), "Invalid link type: Nope");
    assert!(MemoryType::from_str("fact ").is_err());
}

#[test]
fn new_memory_has_defaults() {
    let m = Memory::with_identity(7, 42, "x".to_string(), MemoryPool::Implicit, MemoryType::Event);
    assert_eq!(m.id, 7);
    assert_eq!(m.confidence, 800_000);
    assert_eq!(m.importance, 500_000);
    assert_eq!(m.decay_rate, 10_000);
    assert_eq!(m.source, None);
    assert!(m.tags.is_empty());
    assert_eq!(m.metadata, "{}");
    assert_eq!((m.created_at, m.updated_at, m.last_accessed), (42, 42, 42));
    assert_eq!(m.access_count, 0);
    assert_eq!(default_confidence(), 800_000);
    assert_eq!(default_importance(), 500_000);
    assert_eq!(default_limit(), 10);
    let fresh = Memory::new("y".to_string(), MemoryPool::Explicit, MemoryType::Fact);
    assert_eq!(fresh.created_at, fresh.last_accessed);
}

#[test]
fn strength_grows_a_tenth_per_access() {
    let mut m = mem(1, "a");
    assert_eq!(m.current_strength(), 500_000);
    for i in 0..5 {
        m.touch_at(100 + i);
    }
    assert_eq!(m.access_count, 5);
    assert_eq!(m.last_accessed, 104);
    assert_eq!(m.current_strength(), 750_000);
    m.importance = -15;
    assert_eq!(m.current_strength(), -22);
}

#[test]
fn create_request_defaults_and_errors() {
    let req = CreateMemoryRequest {
        content: "c".to_string(),
        pool: None,
        type_: None,
        confidence: 100,
        importance: 200,
        source: Some("s".to_string()),
        tags: vec!["t".to_string()],
        metadata: "{\"k\":1}".to_string(),
    };
    let m = req.into_memory_at(9, 5).unwrap();
    assert_eq!((m.pool, m.type_), (MemoryPool::Explicit, MemoryType::Fact));
    assert_eq!((m.confidence, m.importance, m.decay_rate), (100, 200, 10_000));
    assert_eq!(m.source.as_deref(), Some("s"));
    assert_eq!(m.tags, vec!["t".to_string()]);
    assert_eq!(m.metadata, "{\"k\":1}");
    let bad = CreateMemoryRequest {
        content: "c".to_string(),
        pool: Some("deep".to_string()),
        type_: Some("also bad".to_string()),
        confidence: 0,
        importance: 0,
        source: None,
        tags: vec![],
        metadata: "{}".to_string(),
    };
    assert_eq!(bad.into_memory().unwrap_err(), "Invalid pool: deep");
}

#[test]
fn update_stops_at_a_bad_pool_keeping_earlier_fields() {
    let mut m = mem(1, "old");
    let u = UpdateMemoryRequest {
        content: Some("new".to_string()),
        pool: Some("bogus".to_string()),
        importance: Some(1),
        ..UpdateMemoryRequest::default()
    };
    assert_eq!(apply_update(&mut m, u, 99).unwrap_err(), "Invalid pool: bogus");
    assert_eq!(m.content, "new");
    assert_eq!(m.importance, 500_000);
    assert_eq!(m.updated_at, 1_000);

    let mut store = InMemoryStore::new();
    store.create(mem(1, "old")).unwrap();
    let u = UpdateMemoryRequest {
        content: Some("changed".to_string()),
        type_: Some("bogus".to_string()),
        ..UpdateMemoryRequest::default()
    };
    assert_eq!(store.update_at(1, u, 5).unwrap_err(), "Invalid type: bogus");
    assert_eq!(store.get_at(1, 6).unwrap().unwrap().content, "changed");
    assert!(store.update_at(2, UpdateMemoryRequest::default(), 5).unwrap().is_none());
}

#[test]
fn update_sets_every_field_and_time() {
    let mut store = InMemoryStore::new();
    store.create(mem(1, "old")).unwrap();
    let u = UpdateMemoryRequest {
        content: Some("c".to_string()),
        pool: Some("implicit".to_string()),
        type_: Some("image".to_string()),
        confidence: Some(1),
        importance: Some(2),
        decay_rate: Some(3),
        tags: Some(vec!["a".to_string(), "b".to_string()]),
        metadata: Some("{\"x\":true}".to_string()),
    };
    let m = store.update_at(1, u, 77).unwrap().unwrap();
    assert_eq!(m.pool, MemoryPool::Implicit);
    assert_eq!(m.type_, MemoryType::Image);
    assert_eq!((m.confidence, m.importance, m.decay_rate), (1, 2, 3));
    assert_eq!(m.tags.len(), 2);
    assert_eq!(m.metadata, "{\"x\":true}");
    assert_eq!(m.updated_at, 77);
    assert_eq!(m.access_count, 0);
}

#[test]
fn read_after_write_and_replace_in_place() {
    let mut store = InMemoryStore::new();
    store.create(mem(1, "a")).unwrap();
    store.create(mem(2, "b")).unwrap();
    store.create(mem(1, "a2")).unwrap();
    assert_eq!(store.memory_count(), 2);
    let all = store.list(None, None, 10).unwrap();
    assert_eq!(all[0].content, "a2");
    assert_eq!(all[1].content, "b");
    let got = store.get_at(1, 555).unwrap().unwrap();
    assert_eq!(got.access_count, 1);
    assert_eq!(got.last_accessed, 555);
    assert!(store.get_at(3, 1).unwrap().is_none());
    assert!(!store.delete(3).unwrap());
    assert!(store.delete(1).unwrap());
    assert!(store.get_at(1, 1).unwrap().is_none());
    assert_eq!(store.get_at(2, 1).unwrap().unwrap().content, "b");
}

#[test]
fn list_filters_by_exact_names_and_limits() {
    let mut store = InMemoryStore::new();
    for i in 0..4u128 {
        let pool = if i % 2 == 0 { MemoryPool::Explicit } else { MemoryPool::Implicit };
        let m = Memory::with_identity(i, 0, format!("m{}", i), pool, MemoryType::Fact);
        store.create(m).unwrap();
    }
    let ex = store.list(Some("explicit".to_string()), None, 10).unwrap();
    assert_eq!(ex.iter().map(|m| m.id).collect::<Vec<_>>(), vec![0, 2]);
    let limited = store.list(None, None, 3).unwrap();
    assert_eq!(limited.iter().map(|m| m.id).collect::<Vec<_>>(), vec![0, 1, 2]);
    assert!(store.list(Some("Explicit".to_string()), None, 10).unwrap().is_empty());
    assert!(store.list(None, Some("event".to_string()), 10).unwrap().is_empty());
    assert_eq!(store.list(None, Some("fact".to_string()), 0).unwrap().len(), 0);
    let params = ListParams { pool: None, type_: None, limit: None };
    assert_eq!(params.limit_or_default(), 100);
}

#[test]
fn search_ranks_by_confidence_plus_importance_keeping_ties() {
    let mut store = InMemoryStore::new();
    let mut a = mem(1, "Alpha note");
    a.importance = 100_000;
    let mut b = mem(2, "beta NOTE");
    b.importance = 900_000;
    let mut c = mem(3, "gamma note");
    c.importance = 100_000;
    let mut d = mem(4, "unrelated");
    d.importance = 999_000;
    let mut e = mem(5, "low note");
    e.confidence = 10;
    for m in [a, b, c, d, e] {
        store.create(m).unwrap();
    }
    let r = store.search(query("Note", 10)).unwrap();
    assert_eq!(r.iter().map(|m| m.id).collect::<Vec<_>>(), vec![2, 1, 3, 5]);
    let r = store.search(query("note", 2)).unwrap();
    assert_eq!(r.iter().map(|m| m.id).collect::<Vec<_>>(), vec![2, 1]);
    let mut q = query("NOTE", 10);
    q.min_confidence = 100;
    let r = store.search(q).unwrap();
    assert_eq!(r.iter().map(|m| m.id).collect::<Vec<_>>(), vec![2, 1, 3]);
    let r = store.search(query("", 10)).unwrap();
    assert_eq!(r.len(), 5);
    assert_eq!(r[0].id, 4);
}

#[test]
fn stats_count_pools_types_and_round_down_means() {
    let mut store = InMemoryStore::new();
    let s = store.stats().unwrap();
    assert_eq!((s.total_memories, s.avg_confidence, s.avg_importance), (0, 0, 0));
    let mut a = Memory::with_identity(1, 0, "a".to_string(), MemoryPool::Explicit, MemoryType::Event);
    a.confidence = -1;
    a.importance = 3;
    let mut b = Memory::with_identity(2, 0, "b".to_string(), MemoryPool::Implicit, MemoryType::Fact);
    b.confidence = 0;
    b.importance = 4;
    let c = Memory::with_identity(3, 0, "c".to_string(), MemoryPool::Implicit, MemoryType::Event);
    store.create(a).unwrap();
    store.create(b).unwrap();
    store.create(c).unwrap();
    store.create_link(MemoryLink::with_identity(10, 0, 1, 2, LinkType::Causes)).unwrap();
    let s = store.stats().unwrap();
    assert_eq!(s.total_memories, 3);
    assert_eq!(s.explicit_count, 1);
    assert_eq!(s.implicit_count, 2);
    assert_eq!(s.explicit_count + s.implicit_count, s.total_memories);
    assert_eq!(s.total_links, 1);
    assert_eq!(s.memory_types, vec![(MemoryType::Fact, 1), (MemoryType::Event, 2)]);
    assert_eq!(s.memory_types.iter().map(|(_, c)| c).sum::<usize>(), s.total_memories);
    assert_eq!(s.avg_confidence, (800_000 - 1) / 3);
    assert_eq!(s.avg_importance, (500_000 + 7) / 3);

    let mut neg = InMemoryStore::new();
    let mut x = mem(1, "x");
    x.confidence = -1;
    let mut y = mem(2, "y");
    y.confidence = 0;
    neg.create(x).unwrap();
    neg.create(y).unwrap();
    assert_eq!(neg.stats().unwrap().avg_confidence, -1);
}

#[test]
fn links_touch_either_end_and_are_deleted_by_id() {
    let mut store = InMemoryStore::new();
    store.create_link(MemoryLink::with_identity(10, 0, 1, 2, LinkType::Related)).unwrap();
    store.create_link(MemoryLink::with_identity(11, 0, 3, 1, LinkType::Causes)).unwrap();
    store.create_link(MemoryLink::with_identity(12, 0, 2, 3, LinkType::Similar)).unwrap();
    let l = store.get_links(1).unwrap();
    assert_eq!(l.iter().map(|l| l.id).collect::<Vec<_>>(), vec![10, 11]);
    assert!(store.delete_link(10).unwrap());
    assert!(!store.delete_link(10).unwrap());
    assert_eq!(store.get_links(1).unwrap().len(), 1);
    assert_eq!(store.link_count(), 2);
}

fn chain_store() -> InMemoryStore {
    let mut store = InMemoryStore::new();
    for i in 1..=5u128 {
        store.create(mem(i, &format!("node {}", i))).unwrap();
    }
    for i in 1..5u128 {
        store
            .create_link(MemoryLink::with_identity(100 + i, 0, i, i + 1, LinkType::Follows))
            .unwrap();
    }
    store
}

#[test]
fn activation_decays_along_a_chain_and_stops_at_depth_three() {
    let mut sa = SpreadingActivation::new(chain_store());
    let r = sa.spread_at(&[1], 50).unwrap();
    let got: Vec<(u128, i64)> = r.iter().map(|(m, s)| (m.id, *s)).collect();
    assert_eq!(got, vec![(1, 1_000_000), (2, 700_000), (3, 490_000), (4, 343_000)]);
    assert!(r.iter().all(|(m, _)| m.access_count == 1 && m.last_accessed == 50));
    let store = sa.into_store();
    assert_eq!(store.list(None, None, 10).unwrap()[4].access_count, 0);
}

#[test]
fn a_seed_reached_first_by_a_link_keeps_the_weaker_activation() {
    let mut store = InMemoryStore::new();
    store.create(mem(1, "a")).unwrap();
    store.create(mem(2, "b")).unwrap();
    store.create_link(MemoryLink::with_identity(9, 0, 1, 2, LinkType::Related)).unwrap();
    let mut sa = SpreadingActivation::new(store);
    let r = sa.spread_at(&[1, 2], 0).unwrap();
    let got: Vec<(u128, i64)> = r.iter().map(|(m, s)| (m.id, *s)).collect();
    assert_eq!(got, vec![(2, 1_000_000), (1, 700_000)]);
    assert!(sa.spread_at(&[], 0).unwrap().is_empty());
    assert!(sa.spread_at(&[77], 0).unwrap().is_empty());
}

#[test]
fn weak_links_stop_activation() {
    let mut store = chain_store();
    store.create_link(MemoryLink { id: 101, source_id: 1, target_id: 2, link_type: LinkType::Follows, strength: 100_000, created_at: 0 }).unwrap();
    let mut sa = SpreadingActivation::new(store);
    let r = sa.spread_at(&[1], 0).unwrap();
    assert_eq!(r.len(), 1);
}

#[test]
fn progressive_search_puts_hits_first_then_spread() {
    let mut store = chain_store();
    store.create(mem(6, "special")).unwrap();
    let mut sa = SpreadingActivation::new(store);
    let r = sa.progressive_search_at("NODE 2", 5, 10).unwrap();
    let got: Vec<(u128, i64)> = r.iter().map(|(m, s)| (m.id, *s)).collect();
    // Equal activations keep the order in which the walk reached them: node 3 before node 1.
    assert_eq!(got, vec![(2, 1_000_000), (3, 700_000), (1, 700_000), (4, 490_000), (5, 343_000)]);
    assert_eq!(r[0].0.access_count, 0);
    let mut ids: Vec<u128> = r.iter().map(|(m, _)| m.id).collect();
    ids.sort();
    ids.dedup();
    assert_eq!(ids.len(), r.len());
    assert!(sa.progressive_search_at("absent", 5, 10).unwrap().is_empty());
    assert!(sa.progressive_search_at("node", 0, 10).unwrap().is_empty());
}

#[test]
fn consolidation_decays_then_removes_weak_memories() {
    let mut store = InMemoryStore::new();
    let mut old = mem(1, "old");
    old.last_accessed = 0;
    let mut weak = mem(2, "weak");
    weak.importance = 50_000;
    weak.last_accessed = 10 * DAY;
    let mut recent = mem(3, "recent");
    recent.last_accessed = 10 * DAY - 1;
    let mut tiny = mem(4, "tiny decay");
    tiny.decay_rate = 100;
    tiny.last_accessed = 0;
    for m in [old, weak, recent, tiny] {
        store.create(m).unwrap();
    }
    let mut c = MemoryConsolidator::new(store);
    let stats = c.get_consolidation_stats().unwrap();
    assert_eq!((stats.total_memories, stats.weak_memories, stats.strong_memories), (4, 1, 3));
    assert_eq!(stats.avg_strength, (500_000 * 3 + 50_000) / 4);
    let report = c.consolidate_at(10 * DAY).unwrap();
    assert!(report.success);
    assert_eq!(report.decayed_count, 1);
    assert_eq!(report.removed_count, 1);
    assert_eq!(report.similar_pairs_found, 0);
    let store = c.into_store();
    let left = store.list(None, None, 10).unwrap();
    assert_eq!(left.iter().map(|m| m.id).collect::<Vec<_>>(), vec![1, 3, 4]);
    assert_eq!(left[0].importance, 400_000);
    assert_eq!(left[0].updated_at, 10 * DAY);
    assert_eq!(left[2].importance, 500_000);
}

#[test]
fn decay_never_goes_below_zero() {
    let mut store = InMemoryStore::new();
    let mut m = mem(1, "x");
    m.importance = 2_000_000;
    m.access_count = 0;
    m.decay_rate = 1_000_000;
    m.last_accessed = 0;
    store.create(m).unwrap();
    let mut c = MemoryConsolidator::new(store);
    let report = c.consolidate_at(3 * DAY).unwrap();
    assert_eq!((report.decayed_count, report.removed_count), (1, 1));
    assert_eq!(c.into_store().memory_count(), 0);
}

#[test]
fn pools_create_list_and_search_their_own_memories() {
    let mut pm = PoolManager::new(InMemoryStore::new());
    let a = pm.create_explicit("likes tea".to_string(), MemoryType::Preference).unwrap();
    let b = pm.create_implicit("likes coffee".to_string(), MemoryType::Preference).unwrap();
    assert_eq!(a.pool, MemoryPool::Explicit);
    assert_eq!(b.pool, MemoryPool::Implicit);
    assert_eq!(pm.get_explicit(10).unwrap().len(), 1);
    assert_eq!(pm.get_implicit(10).unwrap()[0].id, b.id);
    assert_eq!(pm.search_explicit("LIKES".to_string(), 10).unwrap()[0].id, a.id);
    assert_eq!(pm.search_implicit("tea".to_string(), 10).unwrap().len(), 0);
}

#[test]
fn mcp_tools_validate_arguments_and_answer() {
    let mut server = McpServer::new(InMemoryStore::new());
    assert_eq!(
        server.handle_tool_call_at("nope", no_args(), 1, 0).err().unwrap(),
        "Unknown tool: nope"
    );
    assert_eq!(
        server.handle_tool_call_at("memory_create", no_args(), 1, 0).err().unwrap(),
        "Missing content"
    );
    let mut args = no_args();
    args.content = Some("hello".to_string());
    args.type_ = Some("weird".to_string());
    assert_eq!(
        server.handle_tool_call_at("memory_create", args, 1, 0).err().unwrap(),
        "Invalid type: weird"
    );
    let mut args = no_args();
    args.content = Some("hello world".to_string());
    match server.handle_tool_call_at("memory_create", args, 0x1234, 7).unwrap() {
        McpReply::Memory(m) => {
            assert_eq!(m.id, 0x1234);
            assert_eq!((m.pool, m.type_), (MemoryPool::Explicit, MemoryType::Fact));
        },
        _ => panic!("expected a memory"),
    }
    let mut args = no_args();
    args.query = Some("WORLD".to_string());
    match server.handle_tool_call_at("memory_retrieve", args, 0, 0).unwrap() {
        McpReply::Memories(v) => assert_eq!(v.len(), 1),
        _ => panic!("expected memories"),
    }
    let id_text = "00000000-0000-0000-0000-000000001234".to_string();
    let mut args = no_args();
    args.id = Some(id_text.clone());
    match server.handle_tool_call_at("memory_get", args, 0, 99).unwrap() {
        McpReply::Memory(m) => assert_eq!((m.access_count, m.last_accessed), (1, 99)),
        _ => panic!("expected a memory"),
    }
    let mut args = no_args();
    args.id = Some("not a uuid".to_string());
    assert!(server.handle_tool_call_at("memory_get", args, 0, 0).is_err());
    let mut args = no_args();
    args.id = Some(id_text.clone());
    args.importance = Some(123);
    args.tags = Some(vec!["t".to_string()]);
    match server.handle_tool_call_at("memory_update", args, 0, 5).unwrap() {
        McpReply::Memory(m) => assert_eq!((m.importance, m.tags.len(), m.updated_at), (123, 1, 5)),
        _ => panic!("expected a memory"),
    }
    let mut args = no_args();
    args.source_id = Some(id_text.clone());
    assert_eq!(
        server.handle_tool_call_at("memory_link", args, 0, 0).err().unwrap(),
        "Missing target_id"
    );
    let mut args = no_args();
    args.source_id = Some(id_text.clone());
    args.target_id = Some(id_text.clone());
    args.link_type = Some("Causes".to_string());
    match server.handle_tool_call_at("memory_link", args, 77, 3).unwrap() {
        McpReply::Link(l) => {
            assert_eq!((l.id, l.source_id, l.link_type, l.strength), (77, 0x1234, LinkType::Causes, 1_000_000))
        },
        _ => panic!("expected a link"),
    }
    match server.handle_tool_call_at("memory_stats", no_args(), 0, 0).unwrap() {
        McpReply::Stats(s) => assert_eq!((s.total_memories, s.total_links), (1, 1)),
        _ => panic!("expected stats"),
    }
    let mut args = no_args();
    args.id = Some(id_text.clone());
    assert!(matches!(server.handle_tool_call_at("memory_delete", args, 0, 0).unwrap(), McpReply::Deleted));
    let mut args = no_args();
    args.id = Some(id_text);
    assert_eq!(
        server.handle_tool_call_at("memory_delete", args, 0, 0).err().unwrap(),
        "Memory not found"
    );
    assert_eq!(server.handle_tool_call("memory_get", no_args()).err().unwrap(), "Missing id");
    match server.handle_tool_call_at("memory_consolidate", no_args(), 0, 0).unwrap() {
        McpReply::Consolidated(rep) => {
            assert!(rep.success);
            assert_eq!((rep.decayed_count, rep.removed_count), (0, 0));
        }
        _ => panic!("expected a consolidation report"),
    }
}

#[test]
fn uuids_parse_and_new_ones_are_version_four() {
    assert_eq!(uuid_or_nil("a1a2a3a4-b1b2-c1c2-d1d2-d3d4d5d6d7d8"), 0xa1a2a3a4b1b2c1c2d1d2d3d4d5d6d7d8);
    let u = Memory::new("x".to_string(), MemoryPool::Explicit, MemoryType::Fact).id;
    assert_eq!(u & 0xF000_C000_0000_0000_0000, 0x4000_8000_0000_0000_0000);
    let l = MemoryLink::new(1, 2, LinkType::Related).id;
    assert_eq!(l & 0xF000_C000_0000_0000_0000, 0x4000_8000_0000_0000_0000);
    assert_eq!(uuid_or_nil("junk"), 0);
}

#[test]
fn image_helpers() {
    assert!(is_image_format("image/png"));
    assert!(!is_image_format("text/plain"));
    assert!(!is_image_format("image"));
    assert_eq!(get_image_format("image/png"), "png");
    assert_eq!(get_image_format("a/b/c"), "b");
    assert_eq!(get_image_format("image/"), "");
    assert_eq!(get_image_format("plain"), "unknown");
    assert_eq!(image_data_url(b"Man"), "data:image/jpeg;base64,TWFu");
    assert_eq!(image_data_url(b"M"), "data:image/jpeg;base64,TQ==");
    assert_eq!(image_data_url(b"hello world"), "data:image/jpeg;base64,aGVsbG8gd29ybGQ=");
    assert_eq!(select_api_key(None, Some("g".to_string()), Some("o".to_string())).unwrap(), "g");
    assert_eq!(select_api_key(Some("p".to_string()), None, Some("o".to_string())).unwrap(), "p");
    assert_eq!(
        select_api_key(None, None, None).unwrap_err(),
        "No API key configured for vision model"
    );
    assert_eq!(vision_reply_content(vec!["a".to_string(), "b".to_string()]).unwrap(), "a");
    assert_eq!(vision_reply_content(vec![]).unwrap_err(), "No content in vision response");
}

#[test]
fn embedding_dimensions_and_local_values() {
    assert_eq!(OpenAIEmbedding::new("k".to_string()).dimension(), 1536);
    let large = OpenAIEmbedding::new("k".to_string()).with_model("text-embedding-3-large");
    assert_eq!(large.model, "text-embedding-3-large");
    assert_eq!(large.dimension(), 3072);
    assert_eq!(generate_values(0, 3), vec![335903614, 436792849, -1695123422]);
    let local = LocalEmbedding::new(16);
    assert_eq!(local.dimension(), 16);
    let a = local.raw_embedding("hello");
    assert_eq!(a.len(), 16);
    assert_eq!(a, local.raw_embedding("hello"));
    assert_ne!(a, local.raw_embedding("hellp"));
}

#[test]
fn extraction_kinds_and_limit() {
    assert_eq!(normalize_extension("PDF"), "pdf");
    assert_eq!(classify_extension("md").unwrap(), FileKind::Text);
    assert_eq!(classify_extension("doc").unwrap(), FileKind::Docx);
    assert_eq!(classify_extension("rtf").unwrap(), FileKind::Rtf);
    assert_eq!(classify_extension("exe").unwrap_err(), "Unsupported file type: exe");
    let short = "x".repeat(10_000);
    assert_eq!(limit_content(short.clone()), short);
    let long = "y".repeat(10_001);
    let cut = limit_content(long);
    assert!(cut.starts_with(&"y".repeat(10_000)));
    assert!(cut.ends_with("\n\n... [content truncated]"));
    assert_eq!(cut.len(), 10_000 + "\n\n... [content truncated]".len());
}

#[test]
fn sql_text_and_read_back() {
    assert_eq!(
        sqlite_list_sql(true, false),
        "SELECT * FROM memories WHERE 1=1 AND pool = ? ORDER BY created_at DESC LIMIT ?"
    );
    assert_eq!(
        sqlite_search_sql(false, true),
        "SELECT * FROM memories WHERE content LIKE ? AND type = ? AND confidence >= ? ORDER BY importance DESC, created_at DESC LIMIT ?"
    );
    assert_eq!(
        postgres_list_sql(false, true, 25),
        "SELECT * FROM memories WHERE type = $2 ORDER BY created_at DESC LIMIT 25"
    );
    assert_eq!(
        postgres_search_sql(true, true, 7),
        "SELECT * FROM memories WHERE LOWER(content) LIKE $1 AND pool = $2 AND type = $3 AND confidence >= $4 ORDER BY confidence + importance DESC LIMIT 7"
    );
    assert_eq!(like_pattern("ab"), "%ab%");
    assert_eq!(search_pattern("Rust TIPS"), "%rust tips%");
    assert_eq!(
        postgres_list_sql(false, false, 1234567890),
        "SELECT * FROM memories ORDER BY created_at DESC LIMIT 1234567890"
    );
    assert_eq!(
        postgres_list_sql(true, false, 0),
        "SELECT * FROM memories WHERE pool = $1 ORDER BY created_at DESC LIMIT 0"
    );
    assert_eq!(pool_or_implicit("EXPLICIT"), MemoryPool::Explicit);
    assert_eq!(pool_or_implicit("bogus"), MemoryPool::Implicit);
    assert_eq!(type_or_fact("bogus"), MemoryType::Fact);
    assert_eq!(link_type_or_related("bogus"), LinkType::Related);
}

#[test]
fn tool_catalogue_names_the_tools_the_server_dispatches() {
    let tools = get_tools();
    let names: Vec<&str> = tools.iter().map(|t| t.name.as_str()).collect();
    assert_eq!(
        names,
        vec![
            "memory_create",
            "memory_retrieve",
            "memory_link",
            "memory_get",
            "memory_update",
            "memory_delete",
            "memory_stats",
            "memory_consolidate"
        ]
    );
    assert_eq!(tools[0].description, "Create a new memory entry");
    assert_eq!(tools[7].description, "Run memory consolidation (decay + cleanup)");
    for t in &tools {
        let schema: serde_json::Value = serde_json::from_str(&t.input_schema).unwrap();
        assert_eq!(schema["type"], "object");
        let mut server = McpServer::new(InMemoryStore::new());
        let r = server.handle_tool_call_at(&t.name, no_args(), 1, 0);
        if let Err(e) = r {
            assert!(!e.starts_with("Unknown tool"));
        }
    }
    let create: serde_json::Value = serde_json::from_str(&tools[0].input_schema).unwrap();
    assert_eq!(create["required"][0], "content");
    assert_eq!(create["properties"]["pool"]["default"], "explicit");
    let link: serde_json::Value = serde_json::from_str(&tools[2].input_schema).unwrap();
    assert_eq!(link["properties"]["link_type"]["enum"].as_array().unwrap().len(), 8);
}

#[test]
fn resources_cover_stats_and_both_pools() {
    let r = get_resources();
    let uris: Vec<&str> = r.iter().map(|x| x.uri.as_str()).collect();
    assert_eq!(uris, vec!["memory://stats", "memory://explicit", "memory://implicit"]);
    assert_eq!(r[1].name, "Explicit Memories");
    assert!(r.iter().all(|x| x.mime_type == "application/json"));
}

#[test]
fn peek_reads_without_recording_an_access() {
    let mut store = InMemoryStore::new();
    store.create(mem(5, "quiet")).unwrap();
    assert_eq!(store.peek(5).unwrap().access_count, 0);
    assert_eq!(store.peek(5).unwrap().access_count, 0);
    assert!(store.peek(6).is_none());
    store.get_at(5, 9).unwrap();
    assert_eq!(store.peek(5).unwrap().access_count, 1);
    assert_eq!(store.peek(5).unwrap().last_accessed, 9);
}

#[test]
fn mcp_stats_describe_the_store() {
    let mut store = InMemoryStore::new();
    store.create(mem(1, "a")).unwrap();
    let mut m = mem(2, "b");
    m.pool = MemoryPool::Implicit;
    m.type_ = MemoryType::Event;
    store.create(m).unwrap();
    let mut server = McpServer::new(store);
    match server.handle_tool_call_at("memory_stats", no_args(), 0, 0).unwrap() {
        McpReply::Stats(st) => {
            assert_eq!(st.total_memories, 2);
            assert_eq!(st.explicit_count, 1);
            assert_eq!(st.implicit_count, 1);
            assert_eq!(st.memory_types, vec![(MemoryType::Fact, 1), (MemoryType::Event, 1)]);
        }
        other => panic!("unexpected reply {:?}", other),
    }
    assert_eq!(server.store().memory_count(), 2);
}

#[test]
fn vision_endpoint_defaults_to_dashscope() {
    assert_eq!(
        vision_endpoint(None),
        "https://dashscope.aliyuncs.com/compatible-mode/v1/chat/completions"
    );
    assert_eq!(vision_endpoint(Some("http://local/v1".to_string())), "http://local/v1");
}

#[test]
fn a_link_stronger_than_full_lets_spreading_outrank_the_hits() {
    let mut store = InMemoryStore::new();
    store.create(mem(1, "seed")).unwrap();
    store.create(mem(2, "other")).unwrap();
    store
        .create_link(MemoryLink {
            id: 9,
            source_id: 1,
            target_id: 2,
            link_type: LinkType::Related,
            strength: 2_000_000,
            created_at: 0,
        })
        .unwrap();
    let mut sa = SpreadingActivation::new(store);
    let r = sa.progressive_search_at("seed", 5, 0).unwrap();
    let got: Vec<(u128, i64)> = r.iter().map(|(m, s)| (m.id, *s)).collect();
    assert_eq!(got, vec![(2, 1_400_000), (1, 1_000_000)]);
}

#[test]
fn pool_listings_hold_only_their_pool() {
    let mut pm = PoolManager::new(InMemoryStore::new());
    pm.create_explicit("e1".to_string(), MemoryType::Fact).unwrap();
    pm.create_implicit("i1".to_string(), MemoryType::Preference).unwrap();
    pm.create_explicit("e2".to_string(), MemoryType::Event).unwrap();
    let ex = pm.get_explicit(10).unwrap();
    assert_eq!(ex.len(), 2);
    assert!(ex.iter().all(|m| m.pool == MemoryPool::Explicit));
    let im = pm.get_implicit(10).unwrap();
    assert_eq!(im.len(), 1);
    assert_eq!(im[0].content, "i1");
}

#[test]
fn local_embedding_is_seeded_by_the_std_hash_of_the_text() {
    let mut hasher = DefaultHasher::new();
    "hello".hash(&mut hasher);
    let seed = hasher.finish();
    let local = LocalEmbedding::new(5);
    assert_eq!(local.raw_embedding("hello"), generate_values(seed, 5));
    assert_eq!(LocalEmbedding::new(0).raw_embedding("hello"), Vec::<i32>::new());
}

#[test]
fn mcp_consolidate_decays_and_removes_weak_memories() {
    let mut store = InMemoryStore::new();
    let mut weak = mem(1, "weak");
    weak.importance = 0;
    store.create(weak).unwrap();
    let mut fading = mem(2, "fading");
    fading.importance = 200_000;
    fading.decay_rate = 50_000;
    fading.last_accessed = 0;
    store.create(fading).unwrap();
    store.create(mem(3, "strong")).unwrap();
    let mut server = McpServer::new(store);
    match server.handle_tool_call_at("memory_consolidate", no_args(), 0, 3 * DAY).unwrap() {
        McpReply::Consolidated(rep) => {
            assert!(rep.success);
            assert_eq!(rep.decayed_count, 2);
            assert_eq!(rep.removed_count, 2);
        }
        _ => panic!("expected a consolidation report"),
    }
    let left = server.store().list(None, None, 10).unwrap();
    assert_eq!(left.len(), 1);
    assert_eq!(left[0].id, 3);
}

#[test]
fn progressive_entries_beyond_the_hits_are_those_a_spread_gives() {
    let mut progressive = SpreadingActivation::new(chain_store());
    let p = progressive.progressive_search_at("NODE 3", 5, 10).unwrap();
    let mut spreading = SpreadingActivation::new(chain_store());
    let s = spreading.spread_at(&[3], 10).unwrap();
    assert_eq!((p[0].0.id, p[0].1), (3, 1_000_000));
    let rest: Vec<(u128, i64)> = p[1..].iter().map(|(m, a)| (m.id, *a)).collect();
    let spread_rest: Vec<(u128, i64)> = s.iter().filter(|(m, _)| m.id != 3).map(|(m, a)| (m.id, *a)).collect();
    assert_eq!(rest, spread_rest);
    assert_eq!(rest, vec![(4, 700_000), (2, 700_000), (5, 490_000), (1, 490_000)]);
}
