use memkeeper_store::capture::{
    are_ends_written, capture_entity_request, capture_relationship_request,
    captured_edge_metadata_json, captured_entity_metadata_json, resolve_graph_capture_keys,
    validate_graph_capture, CaptureKeyFacts, ExistingEntity, GraphCapture, GraphCaptureEntity,
    GraphCaptureRelationship,
};
use memkeeper_store::context::{
    graph_context, graph_context_memory_ids, graph_full, edges_are_countable, ActiveEntity,
    ContextFacts, GraphContextRequest, EntityEdge,
};
use memkeeper_store::entities::{
    normalize_entity_aliases, upsert_entity, EntityFacts, EntityUpsertRequest,
};
use memkeeper_store::error::Error;
use memkeeper_store::merging::{
    merge_alias_candidates, merge_entity, relink_active_relationships, Edge, EdgeWrite,
    EntityMergeRequest, EntityRecord, MergeFacts,
};
use memkeeper_store::neighbors::{
    entity_depths, entity_search_query, graph_neighbors, graph_seed_query, graph_walk_query,
    prepare_entity_search_request, prepare_graph_neighbors_request, search_entities, EntityRow,
    EntitySearchRequest, GraphNeighborsRequest, GraphRelationshipRecord, RelationshipRecord,
};
use memkeeper_store::ranking::{Score, UNIT_SCORE_KEY};
use memkeeper_store::relationships::{
    upsert_relationship, RelationshipFacts, RelationshipUpsertRequest,
};
use memkeeper_store::records::ImportJson;
use memkeeper_store::remember::{JsonDocument, RememberRequest};
use memkeeper_store::requests::{ScoreBreakdown, SearchResult};
use memkeeper_store::sql::SqlValue;

fn texts(list: &[&str]) -> Vec<String> {
    list.iter().map(|t| t.to_string()).collect()
}

fn unit() -> Score {
    Score { key: UNIT_SCORE_KEY }
}

fn message<T>(r: Result<T, Error>) -> String {
    match r {
        Ok(_) => panic!("accepted"),
        Err(e) => e.message(),
    }
}

fn entity_request(key: &str) -> EntityUpsertRequest {
    EntityUpsertRequest {
        space: None,
        entity_key: key.to_string(),
        entity_type: None,
        canonical_name: " Kernel ".to_string(),
        aliases: texts(&["kernel", "The  KERNEL", "linux"]),
        status: None,
        confidence: unit(),
        source_episode_id: None,
        metadata_json: None,
        include_source: false,
    }
}

fn entity_facts(existing: Option<&str>) -> EntityFacts {
    EntityFacts {
        space_exists: true,
        source_episode_exists: false,
        existing_id: existing.map(|s| s.to_string()),
        existing_source: existing.map(|_| "ep_old".to_string()),
        existing_metadata: existing.map(|_| "{\"old\":1}".to_string()),
        new_id: "ent_new".to_string(),
    }
}

#[test]
fn entities_are_created_or_updated() {
    let (prepared, plan) = upsert_entity(&entity_request("k"), &entity_facts(None)).unwrap();
    assert_eq!(prepared.canonical_name, "Kernel");
    assert_eq!(prepared.entity_type, "Entity");
    assert_eq!(prepared.space, "workspace-memory");
    assert!(plan.created);
    assert_eq!(plan.entity_id, "ent_new");
    let forms: Vec<&str> = plan.aliases.iter().map(|a| a.normalized_alias.as_str()).collect();
    assert_eq!(forms.iter().filter(|f| **f == "kernel").count(), 1);
    assert!(forms.contains(&"linux") && forms.contains(&"the kernel"));
    let (_, plan) = upsert_entity(&entity_request("k"), &entity_facts(Some("ent_old"))).unwrap();
    assert!(!plan.created);
    assert_eq!(plan.entity_id, "ent_old");
    assert_eq!(plan.source_episode_id, Some("ep_old".to_string()));
    assert_eq!(plan.metadata_json, Some("{\"old\":1}".to_string()));
}

#[test]
fn entities_are_refused() {
    assert_eq!(
        message(upsert_entity(&entity_request(" "), &entity_facts(None))),
        "entity_key must be non-empty and at most 256 characters"
    );
    let mut r = entity_request("k");
    r.status = Some("asleep".to_string());
    assert_eq!(message(upsert_entity(&r, &entity_facts(None))), "unsupported entity status: asleep");
    let mut r = entity_request("k");
    r.metadata_json = Some(JsonDocument { text: "[]".to_string(), parsed: Some(ImportJson::Array(vec![])) });
    assert_eq!(
        message(upsert_entity(&r, &entity_facts(None))),
        "metadata_json must be a valid JSON object"
    );
    let mut f = entity_facts(None);
    f.space_exists = false;
    assert_eq!(message(upsert_entity(&entity_request("k"), &f)), "space not found: workspace-memory");
    assert!(normalize_entity_aliases(&vec!["x".to_string(); 65]).is_err());
}

fn edge_request() -> RelationshipUpsertRequest {
    RelationshipUpsertRequest {
        space: None,
        subject_entity_id: None,
        subject_entity_key: Some("a".to_string()),
        relation_type: "uses".to_string(),
        object_entity_id: None,
        object_entity_key: Some("b".to_string()),
        memory_id: None,
        source_episode_id: None,
        status: None,
        confidence: unit(),
        observed_at: None,
        valid_from: None,
        valid_to: None,
        metadata_json: None,
        include_source: false,
    }
}

fn edge_facts() -> RelationshipFacts {
    RelationshipFacts {
        space_exists: true,
        subject: Some("ent_a".to_string()),
        object: Some("ent_b".to_string()),
        memory_exists: true,
        source_episode_exists: true,
        existing_id: None,
        existing_observed_at: None,
        existing_valid_from: None,
        existing_valid_to: None,
        existing_metadata: None,
        new_id: "rel_new".to_string(),
    }
}

#[test]
fn relationships_join_two_entities() {
    let (prepared, plan) = upsert_relationship(&edge_request(), &edge_facts()).unwrap();
    assert_eq!(prepared.status, "active");
    assert!(plan.created);
    assert_eq!((plan.subject_entity_id.as_str(), plan.object_entity_id.as_str()), ("ent_a", "ent_b"));
    let mut again = edge_facts();
    again.existing_id = Some(plan.relationship_id.clone());
    again.existing_metadata = Some("{\"old\":1}".to_string());
    let (_, second) = upsert_relationship(&edge_request(), &again).unwrap();
    assert!(!second.created);
    assert_eq!(second.relationship_id, plan.relationship_id);
    assert_eq!(second.metadata_json, Some("{\"old\":1}".to_string()));
    let mut both = edge_request();
    both.subject_entity_id = Some("x".to_string());
    assert!(upsert_relationship(&both, &edge_facts()).is_err());
    let mut f = edge_facts();
    f.object = None;
    assert!(matches!(upsert_relationship(&edge_request(), &f), Err(Error::NotFound { .. })));
    let mut r = edge_request();
    r.confidence = Score { key: -1 };
    assert_eq!(message(upsert_relationship(&r, &edge_facts())), "confidence must be between 0.0 and 1.0");
}

fn link(id: &str, subject: &str, object: &str) -> Edge {
    Edge {
        id: id.to_string(),
        subject: subject.to_string(),
        relation: "uses".to_string(),
        object: object.to_string(),
    }
}

#[test]
fn merging_moves_edges() {
    let edges = vec![link("1", "from", "x"), link("2", "into", "x"), link("3", "from", "into"), link("4", "y", "from")];
    let moved = relink_active_relationships(&edges, "from", "into");
    assert_eq!(
        (moved.repointed, moved.tombstoned_duplicate, moved.tombstoned_self_loop),
        (1, 1, 1)
    );
    assert!(matches!(&moved.writes[0], EdgeWrite::Tombstone { id } if id == "1"));
    assert!(matches!(&moved.writes[1], EdgeWrite::Tombstone { id } if id == "3"));
    assert!(matches!(&moved.writes[2], EdgeWrite::Repoint { id, object, .. } if id == "4" && object == "into"));
}

fn record(id: &str, key: &str) -> EntityRecord {
    EntityRecord {
        id: id.to_string(),
        space: "workspace-memory".to_string(),
        entity_key: key.to_string(),
        entity_type: None,
        canonical_name: key.to_string(),
        status: "active".to_string(),
        confidence: unit(),
        aliases: texts(&["Nick"]),
        source_episode_id: None,
        created_at: "t".to_string(),
        updated_at: "t".to_string(),
    }
}

fn merge_request() -> EntityMergeRequest {
    EntityMergeRequest {
        space: None,
        from_entity_id: None,
        from_entity_key: Some("a".to_string()),
        into_entity_id: None,
        into_entity_key: Some("b".to_string()),
        dry_run: false,
        include_source: false,
    }
}

#[test]
fn merging_carries_names_over() {
    let facts = MergeFacts {
        space_exists: true,
        from: Some(record("ent_a", "a")),
        into: Some(record("ent_b", "b")),
        into_forms: texts(&["nick"]),
        edges: vec![link("1", "ent_a", "x")],
    };
    let plan = merge_entity(&merge_request(), &facts).unwrap();
    assert_eq!(plan.relinking.repointed, 1);
    assert_eq!(plan.aliases_added, 1);
    assert_eq!((plan.from_entity_key.as_str(), plan.into_entity_key.as_str()), ("a", "b"));
    let same = MergeFacts {
        space_exists: true,
        from: Some(record("ent_a", "a")),
        into: Some(record("ent_a", "a")),
        into_forms: vec![],
        edges: vec![],
    };
    assert!(merge_entity(&merge_request(), &same).is_err());
    let names = merge_alias_candidates(&texts(&["A  b", "a B", "c"]));
    assert_eq!(names.len(), 2);
}

fn search() -> EntitySearchRequest {
    EntitySearchRequest {
        space: None,
        query: Some(" Linux  Kernel ".to_string()),
        entity_key: None,
        entity_types: vec![],
        statuses: vec![],
        limit: 1,
        offset: 2,
        include_source: false,
    }
}

#[test]
fn entities_are_searched() {
    let p = prepare_entity_search_request(&search()).unwrap();
    assert_eq!(p.query, Some("Linux  Kernel".to_string()));
    assert_eq!(p.normalized_query, Some("linux kernel".to_string()));
    let q = entity_search_query(&p);
    assert!(q.sql.contains("e.space_name = ? AND e.status IN (?) AND (instr("));
    assert_eq!(q.values.len(), 7);
    assert!(matches!(&q.values[5], SqlValue::Integer(2)));
    let rows = vec![
        EntityRow { entity: record("1", "a"), matched_aliases: vec![] },
        EntityRow { entity: record("2", "b"), matched_aliases: vec![] },
    ];
    let report = search_entities(&search(), true, rows).unwrap();
    assert_eq!(report.results.len(), 1);
    assert_eq!(report.results[0].rank, 3);
    assert!(report.truncated);
    assert_eq!(report.total_estimate, 4);
    assert_eq!(message(search_entities(&search(), false, vec![])), "space not found: workspace-memory");
    let mut bad = search();
    bad.limit = 0;
    assert_eq!(message(search_entities(&bad, true, vec![])), "limit must be between 1 and 50");
    let mut bad = search();
    bad.statuses = texts(&["odd"]);
    assert_eq!(message(search_entities(&bad, true, vec![])), "unsupported entity status: odd");
}

fn walk() -> GraphNeighborsRequest {
    GraphNeighborsRequest {
        space: None,
        entity_id: None,
        entity_key: Some("seed".to_string()),
        depth: 2,
        relation_types: vec![],
        statuses: vec![],
        max_edges: 2,
        include_tombstoned: false,
        include_source: false,
    }
}

fn row(id: &str, subject: &str, sd: usize, object: &str, od: usize, memory: Option<&str>) -> GraphRelationshipRecord {
    GraphRelationshipRecord {
        subject_depth: sd,
        object_depth: od,
        relationship: RelationshipRecord {
            id: id.to_string(),
            space: "workspace-memory".to_string(),
            subject_entity_id: subject.to_string(),
            relation_type: "uses".to_string(),
            object_entity_id: object.to_string(),
            memory_id: memory.map(|m| m.to_string()),
            source_episode_id: None,
            status: "active".to_string(),
            confidence: unit(),
            observed_at: None,
            valid_from: None,
            valid_to: None,
            created_at: "t".to_string(),
            updated_at: "t".to_string(),
        },
    }
}

fn rows() -> Vec<GraphRelationshipRecord> {
    vec![
        row("r1", "seed", 0, "z", 1, Some("m1")),
        row("r2", "a", 1, "seed", 0, Some("m1")),
        row("r3", "a", 1, "b", 2, None),
    ]
}

fn loaded() -> Vec<EntityRecord> {
    entity_depths("seed", &rows(), 2)
        .into_iter()
        .map(|d| record(&d.id, &format!("key/{}", d.id)))
        .collect()
}

#[test]
fn walks_list_each_entity_once() {
    let depths: Vec<(String, usize)> = entity_depths("seed", &rows(), 3).into_iter().map(|d| (d.id, d.depth)).collect();
    assert_eq!(
        depths,
        vec![
            ("seed".to_string(), 0),
            ("z".to_string(), 1),
            ("a".to_string(), 1),
            ("b".to_string(), 2)
        ]
    );
    let report = graph_neighbors(&walk(), true, Some(record("seed", "key/seed")), rows(), &loaded()).unwrap();
    let ids: Vec<&str> = report.entities.iter().map(|e| e.entity.id.as_str()).collect();
    assert_eq!(ids, vec!["seed", "a", "z"]);
    assert!(report.truncated);
    assert_eq!(report.relationships.len(), 2);
    assert_eq!(report.strategy, "deterministic_graph_neighbors_v0");
}

#[test]
fn walks_are_refused() {
    assert_eq!(message(graph_neighbors(&walk(), true, None, vec![], &vec![])), "entity not found: seed");
    assert_eq!(
        message(graph_neighbors(&walk(), true, Some(record("seed", "k")), vec![], &vec![])),
        "entity not found: seed"
    );
    let mut r = walk();
    r.entity_id = Some("x".to_string());
    assert_eq!(
        message(prepare_graph_neighbors_request(&r)),
        "exactly one of entity_id or entity_key is required"
    );
    let mut r = walk();
    r.depth = 5;
    assert_eq!(message(prepare_graph_neighbors_request(&r)), "depth must be between 1 and 4");
    let mut r = walk();
    r.statuses = texts(&["tombstoned"]);
    assert_eq!(
        message(prepare_graph_neighbors_request(&r)),
        "include_tombstoned=true is required for tombstoned relationships"
    );
    r.include_tombstoned = true;
    let p = prepare_graph_neighbors_request(&r).unwrap();
    assert!(!graph_seed_query(&p).sql.contains("tombstoned"));
    let p = prepare_graph_neighbors_request(&walk()).unwrap();
    let q = graph_seed_query(&p);
    assert_eq!(
        q.sql,
        "SELECT id FROM entities WHERE space_name = ? AND entity_key = ? AND status != 'tombstoned' ORDER BY id ASC LIMIT 1"
    );
    let q = graph_walk_query("e", &p);
    assert!(q.sql.contains("walk.depth < 2 AND r.status IN (?)"));
    assert!(q.sql.ends_with("LIMIT 3"));
    assert_eq!(q.sql.matches('?').count(), q.values.len());
}

fn result(id: &str) -> SearchResult {
    let zero = Score { key: 0 };
    SearchResult {
        rank: 0,
        memory_id: id.to_string(),
        version_id: "v".to_string(),
        score: zero,
        scores: ScoreBreakdown {
            fts: zero,
            metadata: zero,
            recency: zero,
            scope: zero,
            status: zero,
            pin: zero,
            source_tier: zero,
        },
        space: "s".to_string(),
        silo: "durable".to_string(),
        scope: "workspace".to_string(),
        project_key: None,
        kind: "fact".to_string(),
        status: "active".to_string(),
        summary: None,
        snippet: "text".to_string(),
        content: None,
        tags: vec![],
        entity_key: None,
        claim_key: None,
        observed_at: "t".to_string(),
        source_ref_json: None,
        metadata_json: None,
    }
}

#[test]
fn context_packs_gather_memories() {
    assert_eq!(
        graph_context_memory_ids(&texts(&["a", "b"]), &texts(&["b", "c", "c"])),
        texts(&["a", "b", "c"])
    );
    let request = GraphContextRequest { walk: walk(), max_memories: 1, max_chars: 500 };
    let report = graph_context(
        &request,
        true,
        Some(record("seed", "key/seed")),
        rows(),
        &loaded(),
        ContextFacts {
            entity_memories: vec![texts(&["m2"]), texts(&["m2", "m3"]), vec![]],
            memories: vec![Some(result("m1")), None, Some(result("m3"))],
            last_synth: None,
        },
    )
    .unwrap();
    assert_eq!(report.evidence_memory_ids, texts(&["m1"]));
    assert_eq!(report.entity_memory_ids, texts(&["m2", "m3"]));
    assert_eq!(report.pack.title, "graph context: key/seed");
    assert_eq!(report.pack.memory_ids, texts(&["m1"]));
    assert!(report.pack.truncated);
    let bad = GraphContextRequest { walk: walk(), max_memories: 51, max_chars: 500 };
    let none = ContextFacts { entity_memories: vec![], memories: vec![], last_synth: None };
    assert_eq!(
        message(graph_context(&bad, true, None, vec![], &vec![], none)),
        "max_memories must be between 1 and 50"
    );
}

fn full_edge(subject: &str, object: &str, weight: i64) -> EntityEdge {
    EntityEdge { subject_id: subject.to_string(), object_id: object.to_string(), weight }
}

fn active(id: &str, key: &str) -> ActiveEntity {
    ActiveEntity {
        id: id.to_string(),
        entity_key: key.to_string(),
        canonical_name: key.to_string(),
        entity_type: None,
    }
}

#[test]
fn the_full_graph_leaves_loose_entities_out() {
    let edges = vec![full_edge("1", "2", 2), full_edge("2", "2", 3), full_edge("1", "gone", 9)];
    assert!(edges_are_countable(&edges));
    let report = graph_full(&edges, &vec![active("1", "a"), active("2", "b"), active("3", "c")]);
    let degrees: Vec<(&str, i64)> = report.nodes.iter().map(|n| (n.entity_key.as_str(), n.degree)).collect();
    assert_eq!(degrees, vec![("a", 2), ("b", 8)]);
    assert_eq!(report.links.len(), 2);
    assert!(!edges_are_countable(&vec![full_edge("1", "2", i64::MAX)]));
    assert!(!edges_are_countable(&vec![full_edge("1", "2", -1)]));
}

#[test]
fn the_full_graph_tells_entities_of_one_key_apart() {
    let edges = vec![full_edge("1", "2", 2), full_edge("4", "5", 3)];
    let entities = vec![
        active("1", "a"),
        active("2", "b"),
        active("3", "a"),
        active("4", "a"),
        active("5", "b"),
    ];
    let report = graph_full(&edges, &entities);
    let degrees: Vec<(&str, i64)> = report.nodes.iter().map(|n| (n.entity_key.as_str(), n.degree)).collect();
    assert_eq!(degrees, vec![("a", 2), ("b", 2), ("a", 3), ("b", 3)]);
    assert_eq!(report.links.len(), 1);
    assert_eq!(report.links[0].weight, 5);
}

fn captured(key: &str) -> GraphCaptureEntity {
    GraphCaptureEntity {
        entity_key: key.to_string(),
        entity_type: "tool".to_string(),
        canonical_name: key.to_uppercase(),
        aliases: vec![],
    }
}

fn captured_edge(subject: &str, object: &str) -> GraphCaptureRelationship {
    GraphCaptureRelationship {
        subject_entity_key: subject.to_string(),
        relation_type: "uses".to_string(),
        object_entity_key: object.to_string(),
        confidence: unit(),
    }
}

fn capture() -> GraphCapture {
    GraphCapture {
        extractor: "llm".to_string(),
        extractor_version: None,
        entities: vec![captured("a"), captured("b")],
        relationships: vec![captured_edge("a", "b")],
    }
}

fn refused(change: fn(&mut GraphCapture)) -> String {
    let mut graph = capture();
    change(&mut graph);
    message(validate_graph_capture(&Some(graph)))
}

#[test]
fn captures_are_typed_graphs() {
    validate_graph_capture(&None).unwrap();
    validate_graph_capture(&Some(capture())).unwrap();
    assert_eq!(
        refused(|g| g.entities.push(captured(" a "))),
        "graph.entities contains duplicate entity_key:  a "
    );
    assert_eq!(
        refused(|g| g.relationships[0].relation_type = "related_to".to_string()),
        "graph relationships must use a typed predicate, not related_to"
    );
    assert_eq!(
        refused(|g| g.relationships[0].object_entity_key = "a".to_string()),
        "graph relationship endpoints must be different entities"
    );
    assert_eq!(
        refused(|g| g.relationships[0].object_entity_key = "c".to_string()),
        "graph relationship endpoints must be declared in graph.entities"
    );
    assert_eq!(
        refused(|g| g.relationships[0].confidence = Score { key: -5 }),
        "graph relationship confidence must be between 0.0 and 1.0"
    );
    assert_eq!(
        refused(|g| g.relationships.push(captured_edge("a ", " b"))),
        "graph.relationships contains a duplicate typed edge"
    );
    assert_eq!(
        refused(|g| g.extractor = " ".to_string()),
        "graph.extractor must be non-empty and at most 256 characters"
    );
}

fn key_facts(exact: Option<&str>, matches: &[&str]) -> CaptureKeyFacts {
    CaptureKeyFacts { exact_key: exact.map(|k| k.to_string()), matches: texts(matches) }
}

#[test]
fn captured_entities_resolve_to_stored_ones() {
    let graph = capture();
    let keys = resolve_graph_capture_keys(&graph, &vec![key_facts(Some("a"), &["x", "y"]), key_facts(None, &["z", "z"])]).unwrap();
    assert_eq!(keys, texts(&["a", "z"]));
    let keys = resolve_graph_capture_keys(&graph, &vec![key_facts(None, &[]), key_facts(None, &[])]).unwrap();
    assert_eq!(keys, texts(&["a", "b"]));
    assert_eq!(
        message(resolve_graph_capture_keys(&graph, &vec![key_facts(None, &["x", "y"]), key_facts(None, &[])])),
        "graph entity a matches multiple canonical entities"
    );
    assert_eq!(
        message(resolve_graph_capture_keys(&graph, &vec![key_facts(None, &["x"]), key_facts(None, &["x"])])),
        "multiple graph entities resolve to canonical entity x"
    );
}

fn remember() -> RememberRequest {
    RememberRequest {
        content: "x".to_string(),
        summary: None,
        space: None,
        silo: None,
        scope: None,
        project_key: None,
        kind: None,
        entity_key: None,
        claim_key: None,
        confidence: Score { key: 7 },
        pinned: false,
        tags: vec![],
        source_episode_id: Some("ep".to_string()),
        source_ref_json: None,
        metadata_json: None,
        valid_from: None,
        valid_to: Some("2027-01-01T00:00:00Z".to_string()),
        observed_at: None,
        expires_at: None,
        supersedes: vec![],
        contradicts: vec![],
        mode: "auto".to_string(),
        retrieval_representation: None,
        token_embedding: false,
        graph: None,
        dry_run: false,
    }
}

#[test]
fn captured_graphs_become_requests() {
    let graph = capture();
    let new = capture_entity_request(&graph, 0, "a", &None, "s", &remember());
    assert_eq!(new.canonical_name, "A");
    assert_eq!(new.confidence, Score { key: 7 });
    let old = Some(ExistingEntity { entity_type: None, canonical_name: "Known".to_string() });
    let merged = capture_entity_request(&graph, 0, "k", &old, "s", &remember());
    assert_eq!(merged.canonical_name, "Known");
    assert_eq!(merged.entity_type, Some("tool".to_string()));
    assert_eq!(merged.aliases, texts(&["A"]));
    assert!(are_ends_written(&graph, 0));
    let edge = capture_relationship_request(&graph, 0, &texts(&["k", "b"]), "s", "mem", &remember()).unwrap();
    assert_eq!(edge.subject_entity_key, Some("k".to_string()));
    assert_eq!(edge.memory_id, Some("mem".to_string()));
    assert_eq!(edge.valid_to, Some("2027-01-01T00:00:00Z".to_string()));
    assert_eq!(
        message(capture_relationship_request(&graph, 0, &texts(&["k", "k"]), "s", "mem", &remember())),
        "graph relationship endpoints resolve to the same canonical entity"
    );
    assert_eq!(
        captured_entity_metadata_json(&graph),
        "{\"extractor\":\"llm\",\"extractor_version\":null,\"origin\":\"automatic_capture\"}"
    );
    assert_eq!(
        captured_edge_metadata_json(&graph),
        "{\"extractor\":\"llm\",\"extractor_version\":null,\"origin\":\"automatic_capture\",\"routing\":true,\"routing_contract\":\"evidence_join_v2\",\"routing_contract_version\":2}"
    );
}
