use memkeeper_store::chunks::{
    bound_limit, document_fts_query, document_rrf_merge, get_document, logged_query,
    mark_source_episodes_extracted, merge_document_hits, plan_document_search,
    promotion_candidates, prune_documents, search_documents, DocumentChunkHit, DocumentGetRequest,
    ChunkStatus, DocumentPruneRequest, DocumentSearchRequest, MarkExtractedRequest,
    PromotionCandidatesRequest,
};
use memkeeper_store::consolidation::{
    dream_budget_json, dream_duplicate_proposal, dream_expire_memories, dream_store,
    dream_summary_json, dream_tag_link_candidates, expiry_writes, link_metadata_json,
    relationship_confidence_from_evidence, tombstone_graph_rows, DreamDuplicateGroup,
    dream_tag_link, DreamExpireCandidate, DreamGraphRows, DreamRows, DreamRun, LinkedPair, TagLinkRow,
};
use memkeeper_store::documents::{ingest_source, IngestRequest, KnownChunk};
use memkeeper_store::dream::{
    normalize_dream_tasks, prepare_dream_request, promote_query, DreamFacts, DreamRequest,
};
use memkeeper_store::digest::sha256_text;
use memkeeper_store::error::Error;
use memkeeper_store::paths::{
    normalize_path_lexically, percent_encode_path, reject_source_sidecar_output, sidecar_path,
    sqlite_immutable_uri, validate_import_input_path_shape, validate_store_path, PathFacts,
    Sidecars,
};
use memkeeper_store::ranking::{sort_order, Score, SortKey, SortText};
use memkeeper_store::schema::{
    ensure_wal, inspect_opened_store, open_initialized_read_fast, open_initialized_write,
    parse_small_number, preflight_init_path, semantic_table_for_dims, transactional_schema_sql,
    validate_initialized, ExistingStoreInspection, OpenStep, SchemaFacts, PROTOCOL_VERSION,
    REQUIRED_FTS_TABLES, REQUIRED_TABLES,
};
use memkeeper_store::spaces::{
    create_space, list_silos, list_spaces, normalize_space_name, seed_standard_silos,
    SpaceCreatePlan, SpaceCreateRequest,
};
use memkeeper_store::sql::{one_of_clause, SqlValue};
use memkeeper_store::stats::{
    last_synthesis_run, status_totals, store_stats, IndexStats, RunRecord, StatusCount,
    StoreFacts,
};

fn texts(list: &[&str]) -> Vec<String> {
    list.iter().map(|t| t.to_string()).collect()
}

fn message<T>(r: Result<T, Error>) -> String {
    match r {
        Ok(_) => panic!("accepted"),
        Err(e) => e.message(),
    }
}

fn space(name: &str) -> SpaceCreateRequest {
    SpaceCreateRequest {
        name: name.to_string(),
        display_name: None,
        description: None,
        default_silo: None,
        ontology: None,
        config_json: None,
        if_not_exists: false,
    }
}

#[test]
fn spaces_are_created_once() {
    match create_space(&space("notes"), false).unwrap() {
        SpaceCreatePlan::Create(s) => {
            assert_eq!(s.name, "notes");
            assert_eq!(s.default_silo, "durable");
        }
        SpaceCreatePlan::Existing(_) => panic!("exists"),
    }
    assert!(matches!(create_space(&space("notes"), true), Err(Error::Conflict { .. })));
    let mut again = space("notes");
    again.if_not_exists = true;
    assert!(matches!(create_space(&again, true).unwrap(), SpaceCreatePlan::Existing(_)));
    assert!(create_space(&space("*"), false).is_err());
    assert!(create_space(&space(" "), false).is_err());
    assert_eq!(normalize_space_name(None).unwrap(), None);
    assert_eq!(normalize_space_name(Some("s")).unwrap(), Some("s".to_string()));
    assert!(normalize_space_name(Some(" ")).is_err());
    let names: Vec<String> = seed_standard_silos("custom").into_iter().map(|s| s.name).collect();
    assert_eq!(names, texts(&["short-term", "durable", "custom"]));
    assert_eq!(seed_standard_silos("durable").len(), 2);
    assert!(!list_spaces(vec![]).truncated);
    assert!(matches!(list_silos("gone", None), Err(Error::NotFound { entity: "space", .. })));
}

fn no_sidecars() -> Sidecars {
    Sidecars { wal: false, shm: false, journal: false }
}

#[test]
fn paths_are_read_as_text() {
    assert_eq!(normalize_path_lexically("/a/./b/../c"), "/a/c");
    assert_eq!(normalize_path_lexically("/../a"), "/a");
    assert_eq!(percent_encode_path("/a b?"), "/a%20b%3F");
    assert_eq!(sqlite_immutable_uri("/a b"), "file:/a%20b?mode=ro&immutable=1");
    assert_eq!(sidecar_path("/s.db", "-wal"), "/s.db-wal");
    assert!(reject_source_sidecar_output("/d/s.db", "/d/x/../s.db-wal").is_err());
    assert!(reject_source_sidecar_output("/d/s.db", "/D/S.DB-SHM/inside").is_err());
    assert!(reject_source_sidecar_output("/d/s.db", "/d/other").is_ok());
    assert!(validate_import_input_path_shape("").is_err());
    assert!(validate_import_input_path_shape("/in.jsonl").is_ok());
    let plain = PathFacts { symlink: false, directory: false, sidecar_symlinks: no_sidecars() };
    assert!(validate_store_path("/s.db", plain).is_ok());
    assert!(validate_store_path("", plain).is_err());
    let link = PathFacts { symlink: true, directory: false, sidecar_symlinks: no_sidecars() };
    assert!(matches!(validate_store_path("/s.db", link), Err(Error::InvalidPath { .. })));
    let directory = PathFacts { symlink: false, directory: true, sidecar_symlinks: no_sidecars() };
    assert!(validate_store_path("/s.db", directory).is_err());
    let wal = Sidecars { wal: true, shm: false, journal: false };
    let beside = PathFacts { symlink: false, directory: false, sidecar_symlinks: wal };
    assert!(validate_store_path("/s.db", beside).is_err());
}

fn schema() -> SchemaFacts {
    let mut tables: Vec<String> = REQUIRED_TABLES.iter().map(|t| t.to_string()).collect();
    tables.extend(REQUIRED_FTS_TABLES.iter().map(|t| t.to_string()));
    SchemaFacts {
        user_version: 6,
        tables,
        migration_recorded: true,
        schema_version: Some("6".to_string()),
        protocol_version: Some(PROTOCOL_VERSION.to_string()),
        default_space: Some("workspace-memory".to_string()),
        seeded_space: true,
    }
}

#[test]
fn stores_are_recognized() {
    assert!(validate_initialized("/s", &schema()).is_ok());
    assert_eq!(inspect_opened_store("/s", &schema()), ExistingStoreInspection::Compatible);
    let mut old = schema();
    old.user_version = 5;
    old.schema_version = Some("5".to_string());
    old.tables.retain(|t| t != "memory_representations");
    assert_eq!(inspect_opened_store("/s", &old), ExistingStoreInspection::OlderSchema(5));
    assert!(matches!(validate_initialized("/s", &old), Err(Error::SchemaMismatch { expected: 6, actual: 5 })));
    let mut future = schema();
    future.user_version = 7;
    assert_eq!(inspect_opened_store("/s", &future), ExistingStoreInspection::FutureSchema(7));
    let mut other = schema();
    other.tables.clear();
    assert_eq!(inspect_opened_store("/s", &other), ExistingStoreInspection::Unrecognized);
    assert_eq!(message(validate_initialized("/s", &other)), "store is not initialized: /s");
    assert_eq!(parse_small_number("-12"), -12);
    assert_eq!(parse_small_number("x"), 0);
    assert_eq!(parse_small_number("99999999999"), 0);
}

#[test]
fn stores_are_opened_with_care() {
    let old = ExistingStoreInspection::OlderSchema(5);
    let odd = ExistingStoreInspection::Unrecognized;
    let good = ExistingStoreInspection::Compatible;
    assert_eq!(open_initialized_read_fast("/s", true, good, None).unwrap(), OpenStep::Open);
    assert_eq!(open_initialized_read_fast("/s", true, odd, None).unwrap(), OpenStep::InspectCopy);
    assert!(open_initialized_read_fast("/s", true, odd, Some(odd)).is_err());
    assert!(matches!(open_initialized_read_fast("/s", true, old, None), Err(Error::SchemaMismatch { .. })));
    assert_eq!(open_initialized_write("/s", true, old, None).unwrap(), OpenStep::Migrate);
    assert!(matches!(open_initialized_write("/s", false, good, None), Err(Error::NotInitialized { .. })));
    assert!(preflight_init_path("/s", true, odd).is_ok());
    assert!(matches!(preflight_init_path("/s", false, odd), Err(Error::UnsafeExistingDatabase { .. })));
    assert!(ensure_wal("/s", "wal").is_ok());
    assert!(matches!(ensure_wal("/s", "delete"), Err(Error::WalUnavailable { .. })));
    assert_eq!(semantic_table_for_dims(384).unwrap(), "memory_vec_384");
    assert!(semantic_table_for_dims(0).is_err());
    assert!(semantic_table_for_dims(8193).is_err());
    assert_eq!(
        transactional_schema_sql("PRAGMA foreign_keys = ON;\nCREATE TABLE x(y);\n  PRAGMA journal_mode = WAL;"),
        "CREATE TABLE x(y);\n"
    );
}

fn facts() -> StoreFacts {
    StoreFacts {
        path: "/s".to_string(),
        database_bytes: 1,
        schema_version: 6,
        protocol_version: Some(PROTOCOL_VERSION.to_string()),
        sqlite_version: "3".to_string(),
        journal_mode: "wal".to_string(),
        space_count: 1,
        silo_count: 2,
        memory_count: 3,
        active_count: 2,
        source_episode_count: 0,
        spaces: vec![],
        indexes: IndexStats {
            fts_memory_rows: 1,
            fts_source_episode_rows: 0,
            document_duplicate_clusters: 0,
            pending_jobs: 0,
        },
    }
}

#[test]
fn statistics_show_indexes_where_asked_for() {
    assert!(store_stats(facts(), false).unwrap().indexes.is_none());
    assert_eq!(store_stats(facts(), true).unwrap().indexes.unwrap().fts_memory_rows, 1);
    let totals = status_totals(&vec![
        StatusCount { status: "active".to_string(), total: 4 },
        StatusCount { status: "expired".to_string(), total: 2 },
        StatusCount { status: "odd".to_string(), total: 9 },
    ]);
    assert_eq!((totals.active, totals.superseded, totals.expired), (4, 0, 2));
    let run = |at: &str, status: &str| RunRecord { started_at: at.to_string(), status: status.to_string() };
    assert_eq!(
        last_synthesis_run(&vec![run("1", "succeeded"), run("3", "failed"), run("2", "succeeded")]),
        Some("2".to_string())
    );
    assert_eq!(last_synthesis_run(&vec![run("3", "failed")]), None);
}

fn ingest(chunks: &[&str]) -> IngestRequest {
    IngestRequest {
        space: None,
        source_type: None,
        source_path: Some("doc.md".to_string()),
        source_uri: None,
        source_description: None,
        metadata_json: None,
        chunks: texts(chunks),
        embeddings: None,
        embedding_model_id: None,
        dry_run: false,
    }
}

#[test]
fn ingesting_stores_new_chunks_only() {
    let known = vec![KnownChunk { content_sha256: sha256_text("old"), id: "k".to_string() }];
    let plan = ingest_source(&ingest(&["new", "old", "new"]), false, &texts(&["i1", "i2", "i3"]), known).unwrap();
    let seen: Vec<(&str, bool)> = plan.actions.iter().map(|a| (a.id.as_str(), a.insert)).collect();
    assert_eq!(seen, vec![("i1", true), ("k", false), ("i1", false)]);
    assert_eq!(plan.report.created, texts(&["i1"]));
    assert_eq!(plan.report.skipped, 2);
    assert!(plan.create_space);
    for space in ["*", " * "] {
        let mut r = ingest(&["x"]);
        r.space = Some(space.to_string());
        assert_eq!(
            message(ingest_source(&r, true, &texts(&["1"]), vec![])),
            "space must not be the reserved all-spaces sentinel \"*\""
        );
    }
    assert_eq!(
        message(ingest_source(&ingest(&["a", " "]), true, &texts(&["1", "2"]), vec![])),
        "ingest chunk 1 must not be empty"
    );
    let mut r = ingest(&["a"]);
    r.embeddings = Some(vec![3, 3]);
    assert_eq!(
        message(ingest_source(&r, true, &texts(&["1"]), vec![])),
        "ingest embeddings length must match chunks length"
    );
}

fn hit(id: &str) -> DocumentChunkHit {
    DocumentChunkHit {
        source_episode_id: id.to_string(),
        space: "documents".to_string(),
        source_type: "document".to_string(),
        source_path: None,
        source_uri: None,
        chunk_index: 0,
        chunk_count: 1,
        snippet: "s".to_string(),
        content: None,
    }
}

fn document_search() -> DocumentSearchRequest {
    DocumentSearchRequest {
        query: "alpha beta".to_string(),
        space: None,
        limit: 0,
        include_content: false,
        snippet_chars: 100,
        embedding: None,
        skip_recall_log: false,
    }
}

#[test]
fn document_hits_merge() {
    let semantic = vec![hit("a"), hit("b")];
    let lexical = vec![hit("b"), hit("c")];
    let merged = merge_document_hits(&semantic, &lexical);
    let seen: Vec<(&str, bool, bool, usize)> = merged
        .iter()
        .map(|m| (m.hit.source_episode_id.as_str(), m.semantic, m.lexical, m.ranks.len()))
        .collect();
    assert_eq!(seen, vec![("a", true, false, 1), ("b", true, true, 2), ("c", false, true, 1)]);
    let scores = vec![Score { key: 1 }, Score { key: 5 }, Score { key: 2 }];
    let results = document_rrf_merge(&merged, &scores, 2);
    let ids: Vec<(usize, &str, &str)> =
        results.iter().map(|r| (r.rank, r.source_episode_id.as_str(), r.match_type)).collect();
    assert_eq!(ids[0].1, "b");
    assert_eq!(ids[1].1, "c");
    assert_eq!(ids[0].0, 1);
    assert_ne!(ids[0].2, ids[1].2);
    let report = search_documents(&document_search(), &merged, &scores);
    assert_eq!(report.strategy, "lexical_only_v0");
    assert_eq!(report.space, "documents");
    assert_eq!(report.results.len(), 3);
    assert!(!report.semantic_attempted);
}

#[test]
fn document_requests_are_planned() {
    assert_eq!(bound_limit(0, 10, 50), 10);
    assert_eq!(bound_limit(99, 10, 50), 50);
    assert_eq!(document_fts_query(&texts(&["alpha", "beta"])).matches("alpha").count(), 1);
    let plan = plan_document_search(&document_search());
    assert_eq!(plan.space, "documents");
    assert_eq!(plan.limit, 10);
    assert!(!plan.semantic_attempted);
    assert_eq!(logged_query(""), None);
    assert_eq!(logged_query("q"), Some(("q".to_string(), sha256_text("q"))));
    assert!(get_document(&DocumentGetRequest::default()).is_err());
    let by_path = DocumentGetRequest { source_path: Some("doc.md".to_string()), ..DocumentGetRequest::default() };
    assert_eq!(get_document(&by_path).unwrap().selector_value, "doc.md");
    let plan = promotion_candidates(&PromotionCandidatesRequest::default());
    assert_eq!(plan.space, "documents");
    assert!(mark_source_episodes_extracted(&MarkExtractedRequest::default(), &vec![]).is_err());
    let mark = MarkExtractedRequest { space: None, source_episode_ids: texts(&["a", "b", "a", "gone"]) };
    let chunk = |id: &str, status: &str| ChunkStatus { id: id.to_string(), ingest_status: status.to_string() };
    let before = vec![chunk("a", "ingested"), chunk("b", "extracted"), chunk("c", "ingested")];
    assert_eq!(mark_source_episodes_extracted(&mark, &before).unwrap().updated, 1);
    let after = vec![chunk("a", "extracted"), chunk("b", "extracted"), chunk("c", "ingested")];
    assert_eq!(mark_source_episodes_extracted(&mark, &after).unwrap().updated, 0);
}

#[test]
fn pruning_deletes_what_is_named() {
    let request = DocumentPruneRequest { space: None, source_episode_ids: texts(&["a", "gone"]), dry_run: true };
    let report = prune_documents(&request, &texts(&["a", "b"])).unwrap();
    assert_eq!(report.deleted, texts(&["a"]));
    assert_eq!(report.requested, 2);
    assert!(report.dry_run);
    assert!(prune_documents(&DocumentPruneRequest::default(), &vec![]).is_err());
}

fn dream(tasks: &[&str]) -> DreamRequest {
    DreamRequest {
        space: Some("s".to_string()),
        silos: vec![],
        tasks: texts(tasks),
        max_memories: 1,
        dry_run: false,
        include_pinned: false,
        promote_threshold: 2,
        promote_score_floor: Score { key: 0 },
        promote_rank_cap: 3,
    }
}

fn dream_facts() -> DreamFacts {
    DreamFacts { space_exists: true, silos: texts(&["durable"]) }
}

#[test]
fn dream_tasks_have_an_order() {
    assert_eq!(normalize_dream_tasks(&texts(&["graph", " expire ", "graph"])).unwrap(), texts(&["expire", "graph"]));
    let all = normalize_dream_tasks(&vec![]).unwrap();
    assert_eq!(all, texts(&["promote", "expire", "reindex", "dedupe", "link", "graph"]));
    assert_eq!(normalize_dream_tasks(&texts(&["all"])).unwrap(), all);
    assert_eq!(normalize_dream_tasks(&all).unwrap(), all);
    assert_eq!(message(normalize_dream_tasks(&texts(&["sleep"]))), "unsupported dream task: sleep");
    let mut r = dream(&[]);
    r.max_memories = 0;
    assert_eq!(
        message(prepare_dream_request(&r, &dream_facts())),
        "dream max_memories must be between 1 and 10000"
    );
    let mut r = dream(&[]);
    r.silos = texts(&["gone"]);
    assert_eq!(message(prepare_dream_request(&r, &dream_facts())), "silo not found: s/gone");
    let p = prepare_dream_request(&dream(&["promote"]), &dream_facts()).unwrap();
    let q = promote_query(&p).unwrap();
    assert_eq!(q.sql.matches('?').count(), q.values.len());
}

fn candidate(id: &str, pinned: bool) -> DreamExpireCandidate {
    DreamExpireCandidate { id: id.to_string(), pinned }
}

fn no_graph() -> DreamGraphRows {
    DreamGraphRows { missing: vec![], orphans: texts(&["e"]), dangling: texts(&["r"]), inactive: vec![], proposals: vec![] }
}

#[test]
fn expiry_skips_pinned_memories() {
    let p = prepare_dream_request(
        &DreamRequest { max_memories: 3, ..dream(&["expire"]) },
        &dream_facts(),
    )
    .unwrap();
    let report = dream_expire_memories(&p, &vec![candidate("a", false), candidate("b", true), candidate("c", false)]);
    assert_eq!(report.memory_ids, texts(&["a", "c"]));
    assert_eq!(report.skipped_pinned_ids, texts(&["b"]));
    assert_eq!(report.scanned, 3);
    let writes = expiry_writes(&p, &report, "run");
    assert_eq!(writes.len(), 2);
    assert_eq!(writes[0].new_status, "expired");
}

#[test]
fn a_dream_run_reports_its_tasks() {
    let rows = DreamRows {
        promote: vec![],
        expire: vec![candidate("a", false), candidate("b", false)],
        reindex: (7, 8),
        duplicates: vec![],
        links: vec![],
        linked: vec![],
        graph: no_graph(),
    };
    let run = DreamRun { run_id: "run".to_string(), started_at: "1".to_string(), finished_at: "2".to_string() };
    let report = dream_store(&dream(&["expire", "graph"]), &dream_facts(), rows, &run).unwrap();
    assert!(report.expire.attempted && report.expire.truncated);
    assert_eq!(report.expire.memory_ids, texts(&["a"]));
    assert!(!report.reindex.attempted);
    assert_eq!(report.graph.orphan_entity_ids, texts(&["e"]));
    let summary: serde_json::Value = serde_json::from_str(&dream_summary_json(&report)).unwrap();
    assert_eq!(summary["expired"], 1);
    assert_eq!(summary["graph_orphan_entities"], 1);
    let p = prepare_dream_request(&dream(&["graph"]), &dream_facts()).unwrap();
    assert_eq!(tombstone_graph_rows(&p, &report.graph).len(), 2);
    let budget: serde_json::Value = serde_json::from_str(&dream_budget_json(&p)).unwrap();
    assert_eq!(budget["space"], "s");
    assert_eq!(budget["max_memories"], 1);
}

#[test]
fn duplicates_are_proposed_to_the_first() {
    let group = DreamDuplicateGroup {
        space: "s".to_string(),
        content_sha256: "sha".to_string(),
        total_count: 3,
        pinned_count: 0,
        ids: texts(&["a", "b", "c"]),
    };
    let proposal = dream_duplicate_proposal(&group);
    assert_eq!(proposal.canonical_memory_id, "a");
    assert_eq!(proposal.duplicate_memory_ids, texts(&["b", "c"]));
    assert!(!proposal.duplicate_ids_truncated);
}

#[test]
fn shared_tags_make_links() {
    assert_eq!(relationship_confidence_from_evidence(0), (1, 2));
    assert_eq!(relationship_confidence_from_evidence(3), (3, 4));
    assert_eq!(
        link_metadata_json(&texts(&["x", "y"])),
        "{\"shared_tag_count\":2,\"shared_tags\":[\"x\",\"y\"],\"source\":\"dream_tag_link\"}"
    );
    let p = prepare_dream_request(&dream(&["link"]), &dream_facts()).unwrap();
    let row = |json: &str| TagLinkRow {
        src: "a".to_string(),
        dst: "b".to_string(),
        shared_tag_count: 2,
        shared_tags_json: json.to_string(),
    };
    let (found, truncated) = dream_tag_link_candidates(&p, &vec![row("[\"x\",\"y\"]")], &vec![]).unwrap();
    assert_eq!(found[0].shared_tags, texts(&["x", "y"]));
    assert!(!truncated);
    assert!(dream_tag_link_candidates(&p, &vec![row("oops")], &vec![]).is_err());
    for (src, dst) in [("a", "b"), ("b", "a")] {
        let linked = vec![LinkedPair { src: src.to_string(), dst: dst.to_string() }];
        let report = dream_tag_link(&p, &vec![row("[\"x\",\"y\"]")], &linked).unwrap();
        assert_eq!((report.candidates, report.links_written, report.truncated), (0, 0, false));
    }
}

#[test]
fn conditions_list_their_values() {
    let clause = one_of_clause("m.kind", &texts(&["a", "b"]));
    assert_eq!(clause.text, "m.kind IN (?, ?)");
    assert!(matches!(&clause.values[1], SqlValue::Text(t) if t == "b"));
}

#[test]
fn sorting_is_stable() {
    let key = |n: i128, t: &str| SortKey {
        numbers: vec![n],
        texts: vec![SortText { text: t.to_string(), descending: true }],
    };
    assert_eq!(sort_order(&[key(1, "a"), key(0, "a"), key(1, "b"), key(1, "a")]), vec![1, 2, 0, 3]);
}
