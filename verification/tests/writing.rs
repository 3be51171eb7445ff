use memkeeper_store::candidates::{
    adjudication_guard, approve_candidate, approved_candidate, candidate_source_ref_json,
    candidate_string_array_from_column, candidate_string_array_to_column, list_candidates,
    quarantine_candidate, reject_candidate, remember_request_from_candidate, report_candidates,
    requires_adjudication, submit_candidate, AdjudicationGuard, CandidateApproveRequest,
    CandidateListRequest, CandidateQuarantineRequest, CandidateRejectRequest, CandidateSubmitRequest,
};
use memkeeper_store::capture::{GraphCapture, GraphCaptureEntity};
use memkeeper_store::error::{DatabaseFailure, Error};
use memkeeper_store::memory::{
    correction_event_data_json, forget_event_data_json, forget_memory, get_memory, memory_history,
    metadata_member,
    verify_memory, ForgetFacts, ForgetRequest, GetOptions, HistoryOptions, MemoryRecord,
    MemoryVersionRecord, StoredHistory, StoredMemory, VerifyRequest,
};
use memkeeper_store::ranking::{Score, UNIT_SCORE_KEY};
use memkeeper_store::recall::{plan_recall, record_recall, RecallEvent, RecallLogRequest};
use memkeeper_store::records::ImportJson;
use memkeeper_store::remember::{validate_remember_request, JsonDocument, RememberRequest};
use memkeeper_store::representation::{
    insert_representation, representation_document, retrieval_companion,
    validate_retrieval_representation, RetrievalRepresentationInput, CONTEXTUAL_CARD_V1,
};
use memkeeper_store::similar::{
    detect_remember_candidates, jaccard_similarity, lexical_candidate_query,
    relationship_priority, RelatedRows, RememberCandidateRow,
};
use memkeeper_store::supersession::{
    ensure_memories_in_space, supersede_memories, supersede_memory, MemoryState,
};
use memkeeper_store::validate::{
    is_sqlite_current_timestamp_like, is_utc_rfc3339_like, limit_i64, normalize_utc_timestamp,
    normalized_tags, reject_all_spaces_sentinel, validate_memory_link_ids,
    validate_optional_metadata_value, validate_optional_timestamp,
};
use memkeeper_store::writing::{
    event_data_json, remember_memory, RememberFacts, SameClaimCandidate,
};

fn texts(list: &[&str]) -> Vec<String> {
    list.iter().map(|t| t.to_string()).collect()
}

fn unit() -> Score {
    Score { key: UNIT_SCORE_KEY }
}

fn request(content: &str) -> RememberRequest {
    RememberRequest {
        content: content.to_string(),
        summary: None,
        space: None,
        silo: None,
        scope: None,
        project_key: None,
        kind: None,
        entity_key: None,
        claim_key: None,
        confidence: unit(),
        pinned: false,
        tags: vec![],
        source_episode_id: None,
        source_ref_json: None,
        metadata_json: None,
        valid_from: None,
        valid_to: None,
        observed_at: None,
        expires_at: None,
        supersedes: vec![],
        contradicts: vec![],
        mode: "auto".to_string(),
        retrieval_representation: None,
        token_embedding: false,
        graph: None,
        dry_run: false,
    }
}

fn no_rows() -> RelatedRows {
    RelatedRows { exact: vec![], claim: vec![], entity: vec![], lexical: vec![] }
}

fn facts() -> RememberFacts {
    RememberFacts {
        now: "2026-01-02T03:04:05.678Z".to_string(),
        memory_id: "mem_new".to_string(),
        default_silo: None,
        space_exists: true,
        silo_exists: true,
        source_episode_exists: false,
        inferred_kind: None,
        related: no_rows(),
        same_claim: vec![],
        states: vec![],
    }
}

fn state(id: &str, status: &str, pinned: bool) -> MemoryState {
    MemoryState {
        id: id.to_string(),
        space: "workspace-memory".to_string(),
        status: status.to_string(),
        pinned,
    }
}

fn object_of(key: &str) -> Option<ImportJson> {
    Some(ImportJson::Object(vec![(key.to_string(), ImportJson::Integer(1))]))
}

fn same_claim(id: &str, observed_at: &str, pinned: bool) -> SameClaimCandidate {
    SameClaimCandidate {
        memory_id: id.to_string(),
        kind: "fact".to_string(),
        observed_at: observed_at.to_string(),
        content: "older".to_string(),
        pinned,
    }
}

fn message<T>(r: Result<T, Error>) -> String {
    match r {
        Ok(_) => panic!("accepted"),
        Err(e) => e.message(),
    }
}

#[test]
fn remembering_fills_in_defaults() {
    let plan = remember_memory(&request("Uses Rust."), &facts()).unwrap();
    assert_eq!(plan.space, "workspace-memory");
    assert_eq!(plan.silo, "durable");
    assert_eq!(plan.scope, "workspace");
    assert_eq!(plan.kind, "fact");
    assert_eq!(plan.observed_at, "2026-01-02T03:04:05.678Z");
    assert_eq!(plan.processing_status, "indexed");
    assert_eq!(
        plan.event_data_json,
        "{\"dry_run\":false,\"supersedes\":[],\"contradicts\":[],\"auto_superseded\":[],\"conflict_candidates\":[]}"
    );
    assert!(plan.graph_capture.is_none());
}

#[test]
fn remembering_refuses_bad_requests() {
    assert_eq!(message(validate_remember_request(&request("  "))), "content must not be empty");
    let mut r = request("x");
    r.space = Some("*".to_string());
    assert_eq!(
        message(validate_remember_request(&r)),
        "space must not be the reserved all-spaces sentinel \"*\""
    );
    let mut r = request("x");
    r.kind = Some("rumour".to_string());
    assert_eq!(message(validate_remember_request(&r)), "unsupported kind: rumour");
    let mut r = request("x");
    r.scope = Some("galaxy".to_string());
    assert_eq!(message(validate_remember_request(&r)), "unsupported scope: galaxy");
    let mut r = request("x");
    r.mode = "replace".to_string();
    assert_eq!(message(validate_remember_request(&r)), "unsupported mode: replace");
    let mut r = request("x");
    r.confidence = Score { key: UNIT_SCORE_KEY + 1 };
    assert_eq!(message(validate_remember_request(&r)), "confidence must be between 0.0 and 1.0");
    let mut r = request("x");
    r.metadata_json = Some(JsonDocument { text: "[]".to_string(), parsed: Some(ImportJson::Array(vec![])) });
    assert_eq!(message(validate_remember_request(&r)), "metadata JSON must be a valid JSON object");
    let mut r = request("x");
    r.tags = texts(&["a", " a "]);
    assert_eq!(message(validate_remember_request(&r)), "duplicate tag: a");
}

#[test]
fn remembering_checks_the_graph_that_comes_along() {
    let mut r = request("x");
    r.graph = Some(GraphCapture {
        extractor: "llm".to_string(),
        extractor_version: None,
        entities: vec![],
        relationships: vec![],
    });
    assert_eq!(
        message(validate_remember_request(&r)),
        "graph.entities must contain 1..=32 values"
    );
    r.graph = Some(GraphCapture {
        extractor: "llm".to_string(),
        extractor_version: None,
        entities: vec![GraphCaptureEntity {
            entity_key: "tool/x".to_string(),
            entity_type: "tool".to_string(),
            canonical_name: "X".to_string(),
            aliases: vec![],
        }],
        relationships: vec![],
    });
    let plan = remember_memory(&r, &facts()).unwrap();
    let status = plan.graph_capture.unwrap();
    assert_eq!(status.routing_contract, "evidence_join_v2");
    assert_eq!((status.entities, status.relationships), (1, 0));
}

#[test]
fn newer_facts_replace_older_ones_of_a_claim() {
    let mut r = request("new");
    r.entity_key = Some("entity".to_string());
    r.claim_key = Some("claim".to_string());
    let mut f = facts();
    f.same_claim = vec![
        same_claim("old", "2025-01-01T00:00:00.000Z", false),
        same_claim("pinned", "2025-01-01T00:00:00.000Z", true),
        same_claim("newer", "2027-01-01T00:00:00.000Z", false),
    ];
    f.states = vec![state("old", "active", false), state("pinned", "active", true), state("newer", "active", false)];
    let plan = remember_memory(&r, &f).unwrap();
    assert_eq!(plan.auto_superseded, texts(&["old"]));
    assert_eq!(plan.superseded, texts(&["old"]));
    let links: Vec<(String, String, &str)> = plan
        .links
        .iter()
        .map(|l| (l.src_memory_id.clone(), l.dst_memory_id.clone(), l.link_type))
        .collect();
    assert_eq!(
        links,
        vec![
            ("mem_new".to_string(), "old".to_string(), "supersedes"),
            ("old".to_string(), "mem_new".to_string(), "superseded_by"),
        ]
    );
}

#[test]
fn superseding_writes_replace_a_whole_claim() {
    let ids = ["a", "b", "c", "d", "e", "f", "g"];
    let mut f = facts();
    f.same_claim = ids.iter().map(|id| same_claim(id, "2025-01-01T00:00:00.000Z", *id == "d")).collect();
    f.states = ids.iter().map(|id| state(id, "active", *id == "d")).collect();
    let mut r = request("new");
    r.entity_key = Some("entity".to_string());
    r.claim_key = Some("claim".to_string());
    r.mode = "supersede".to_string();
    let plan = remember_memory(&r, &f).unwrap();
    assert_eq!(plan.auto_superseded, texts(&["a", "b", "c", "e", "f", "g"]));
    r.mode = "conflict".to_string();
    let plan = remember_memory(&r, &f).unwrap();
    assert_eq!(plan.open_conflicts.len(), 7);
    assert_eq!(plan.conflict_candidates.len(), 5);
}

#[test]
fn modes_decide_about_a_claim() {
    let mut f = facts();
    f.same_claim = vec![same_claim("old", "2027-01-01T00:00:00.000Z", false)];
    f.states = vec![state("old", "active", false)];
    let mut r = request("new");
    r.entity_key = Some("entity".to_string());
    r.claim_key = Some("claim".to_string());
    r.mode = "append".to_string();
    assert!(remember_memory(&r, &f).unwrap().superseded.is_empty());
    r.mode = "supersede".to_string();
    assert_eq!(remember_memory(&r, &f).unwrap().superseded, texts(&["old"]));
    r.mode = "suggest".to_string();
    let plan = remember_memory(&r, &f).unwrap();
    assert_eq!(plan.supersede_suggestions, texts(&["old"]));
    assert!(plan.superseded.is_empty());
    r.mode = "conflict".to_string();
    let plan = remember_memory(&r, &f).unwrap();
    assert_eq!(plan.open_conflicts, texts(&["old"]));
    assert_eq!(plan.conflict_candidates.len(), 1);
    r.mode = "auto".to_string();
    r.kind = Some("continuity".to_string());
    let plan = remember_memory(&r, &f).unwrap();
    assert!(plan.superseded.is_empty());
    assert_eq!(plan.conflict_candidates.len(), 1);
}

#[test]
fn remembering_needs_what_it_names() {
    let mut f = facts();
    f.silo_exists = false;
    assert_eq!(
        message(remember_memory(&request("x"), &f)),
        "silo not found: workspace-memory/durable"
    );
    f.space_exists = false;
    assert_eq!(message(remember_memory(&request("x"), &f)), "space not found: workspace-memory");
    let mut r = request("x");
    r.source_episode_id = Some("ep".to_string());
    assert_eq!(message(remember_memory(&r, &facts())), "source_episode not found: ep");
    let mut r = request("x");
    r.contradicts = texts(&["gone"]);
    assert_eq!(message(remember_memory(&r, &facts())), "memory not found: gone");
}

#[test]
fn superseding_keeps_pinned_memories() {
    let mut table = vec![state("a", "active", false), state("b", "active", true), state("c", "tombstoned", false)];
    supersede_memory(&mut table, "workspace-memory", "a").unwrap();
    assert_eq!(table[0].status, "superseded");
    assert!(matches!(
        supersede_memory(&mut table, "workspace-memory", "b"),
        Err(Error::Conflict { .. })
    ));
    assert_eq!(table[1].status, "active");
    assert!(supersede_memory(&mut table, "workspace-memory", "c").is_err());
    assert!(matches!(
        supersede_memory(&mut table, "elsewhere", "a"),
        Err(Error::NotFound { entity: "memory", .. })
    ));
    let mut more = vec![state("x", "active", false), state("y", "active", false)];
    supersede_memories(&mut more, "workspace-memory", &texts(&["x", "y"])).unwrap();
    assert!(more.iter().all(|s| s.status == "superseded"));
    assert!(ensure_memories_in_space(&more, "workspace-memory", &texts(&["x"])).is_ok());
    assert!(ensure_memories_in_space(&more, "workspace-memory", &texts(&["z"])).is_err());
}

fn row(id: &str, content: &str) -> RememberCandidateRow {
    RememberCandidateRow {
        memory_id: id.to_string(),
        space: "s".to_string(),
        silo: "durable".to_string(),
        kind: "fact".to_string(),
        status: "active".to_string(),
        entity_key: None,
        claim_key: None,
        content: content.to_string(),
        summary: None,
        content_sha256: "sha".to_string(),
    }
}

#[test]
fn related_memories_are_ranked_by_relationship() {
    let content = "warehouse shelf inventory robot";
    let rows = RelatedRows {
        exact: vec![row("dup", content)],
        claim: vec![row("claim", "other")],
        entity: vec![row("entity", "other"), row("claim", "other")],
        lexical: vec![row("alike", "warehouse shelf inventory forklift"), row("far", "something else entirely different")],
    };
    let (found, truncated) = detect_remember_candidates(&rows, &vec![], true, true, content);
    let ids: Vec<&str> = found.iter().map(|c| c.memory_id.as_str()).collect();
    assert_eq!(ids, vec!["dup", "claim", "entity", "alike"]);
    assert!(!truncated);
    assert_eq!(found[0].relationship, "duplicate");
    assert_eq!(found[1].matched_on, texts(&["claim_key", "entity_key_kind"]));
    assert_eq!((found[3].score.part, found[3].score.whole), (3, 5));
    let (found, _) = detect_remember_candidates(&rows, &texts(&["dup"]), false, false, content);
    let ids: Vec<&str> = found.iter().map(|c| c.memory_id.as_str()).collect();
    assert_eq!(ids, vec!["alike"]);
}

#[test]
fn likeness_is_shared_terms_out_of_all() {
    let r = jaccard_similarity(&texts(&["a", "b", "c"]), &texts(&["b", "c", "d"]));
    assert_eq!((r.part, r.whole), (2, 4));
    let r = jaccard_similarity(&texts(&[]), &texts(&["b"]));
    assert_eq!(r.part, 0);
    assert_eq!(relationship_priority("duplicate"), 0);
    assert_eq!(relationship_priority("update_candidate"), 1);
    assert_eq!(relationship_priority("related_candidate"), 2);
    assert_eq!(lexical_candidate_query("short text"), None);
    assert!(lexical_candidate_query("warehouse shelf inventory").unwrap().contains("warehouse"));
}

#[test]
fn event_data_escapes_texts() {
    assert_eq!(
        event_data_json(true, &texts(&["a\"b"]), &vec![], &vec![], &vec![]),
        "{\"dry_run\":true,\"supersedes\":[\"a\\\"b\"],\"contradicts\":[],\"auto_superseded\":[],\"conflict_candidates\":[]}"
    );
}

#[test]
fn timestamps_have_one_of_two_shapes() {
    assert!(is_utc_rfc3339_like("2026-01-02T03:04:05Z"));
    assert!(is_utc_rfc3339_like("2026-01-02T03:04:05.678Z"));
    assert!(!is_utc_rfc3339_like("2026-13-02T03:04:05Z"));
    assert!(!is_utc_rfc3339_like("2026-01-02 03:04:05"));
    assert!(is_sqlite_current_timestamp_like("2026-01-02 03:04:05"));
    assert_eq!(normalize_utc_timestamp("2026-01-02T03:04:05Z"), "2026-01-02T03:04:05.000Z");
    assert_eq!(normalize_utc_timestamp("2026-01-02T03:04:05.6Z"), "2026-01-02T03:04:05.600Z");
    assert!(validate_optional_timestamp("observed_at", Some("yesterday")).is_err());
    assert!(validate_optional_timestamp("observed_at", None).is_ok());
}

#[test]
fn values_are_bounded() {
    assert!(validate_optional_metadata_value("silo", Some("x")).is_ok());
    assert_eq!(
        message(validate_optional_metadata_value("silo", Some(" "))),
        "silo must be non-empty and at most 256 characters"
    );
    assert!(validate_optional_metadata_value("silo", Some(&"x".repeat(257))).is_err());
    assert!(reject_all_spaces_sentinel(Some("*")).is_err());
    assert!(reject_all_spaces_sentinel(Some("space")).is_ok());
    assert!(validate_memory_link_ids("supersedes", &texts(&["a"])).is_ok());
    assert!(validate_memory_link_ids("supersedes", &texts(&[" "])).is_err());
    assert!(validate_memory_link_ids("supersedes", &vec!["x".to_string(); 129]).is_err());
    assert_eq!(limit_i64(7).unwrap(), 7);
    assert_eq!(normalized_tags(&texts(&[" a ", "b"])).unwrap(), texts(&["a", "b"]));
    assert!(normalized_tags(&vec!["x".to_string(); 65]).is_err());
}

#[test]
fn representations_are_cards() {
    let card = RetrievalRepresentationInput {
        kind: CONTEXTUAL_CARD_V1.to_string(),
        text: "card".to_string(),
    };
    assert!(validate_retrieval_representation(&card).is_ok());
    let stored = insert_representation("v1", &card, "now").unwrap();
    assert_eq!(stored.text_sha256.len(), 64);
    let some = Some(card);
    assert_eq!(retrieval_companion(Some("summary"), &some), Some("card"));
    assert_eq!(retrieval_companion(Some("summary"), &None), Some("summary"));
    assert_eq!(representation_document("content", None), "content");
    assert!(representation_document("content", Some("card")).contains("card"));
    let other = RetrievalRepresentationInput { kind: "x".to_string(), text: "t".to_string() };
    assert_eq!(
        message(validate_retrieval_representation(&other)),
        "unsupported retrieval representation kind: x"
    );
    let blank = RetrievalRepresentationInput {
        kind: CONTEXTUAL_CARD_V1.to_string(),
        text: " ".to_string(),
    };
    assert_eq!(
        message(validate_retrieval_representation(&blank)),
        "retrieval representation text must not be blank"
    );
}

fn forget(mode: &str) -> ForgetRequest {
    ForgetRequest {
        id: "m".to_string(),
        reason: None,
        mode: mode.to_string(),
        corrected_by: None,
        dry_run: false,
    }
}

fn forget_facts(status: Option<&str>) -> ForgetFacts {
    ForgetFacts {
        now: "2026-01-01T00:00:00.000Z".to_string(),
        event_id: "evt".to_string(),
        status: status.map(|s| s.to_string()),
        tags: texts(&["session:abc", "synthesis-derived"]),
        corrected_by_exists: false,
    }
}

#[test]
fn forgetting_tombstones_once() {
    let plan = forget_memory(&forget("soft"), &forget_facts(Some("active"))).unwrap();
    assert_eq!(plan.event_type, "forget");
    assert_eq!(plan.report.old_status, "active");
    assert_eq!(plan.report.new_status, "tombstoned");
    assert_eq!(plan.deleted_at, "2026-01-01T00:00:00.000Z");
    assert!(matches!(
        forget_memory(&forget("soft"), &forget_facts(Some("tombstoned"))),
        Err(Error::Conflict { .. })
    ));
    assert!(matches!(
        forget_memory(&forget("soft"), &forget_facts(None)),
        Err(Error::NotFound { .. })
    ));
    let mut r = forget("correct");
    r.corrected_by = Some("n".to_string());
    assert_eq!(message(forget_memory(&r, &forget_facts(Some("active")))), "memory not found: n");
    let mut f = forget_facts(Some("active"));
    f.corrected_by_exists = true;
    let plan = forget_memory(&r, &f).unwrap();
    assert_eq!(plan.event_type, "correct");
    assert_eq!(plan.contradicted_by, Some("n".to_string()));
    assert_eq!(forget_event_data_json(false, "soft"), forget_memory(&forget("soft"), &forget_facts(Some("active"))).unwrap().data_json);
}

#[test]
fn corrections_say_what_they_correct() {
    let value: serde_json::Value = serde_json::from_str(&correction_event_data_json(
        true,
        "correct",
        Some("n"),
        &texts(&["session:abc", "synthesis-derived"]),
    ))
    .unwrap();
    assert_eq!(value["corrected_by"], "n");
    assert_eq!(value["dry_run"], true);
    assert_eq!(value["mode"], "correct");
    assert_eq!(value["synthesis_derived"], true);
}

#[test]
fn verification_joins_the_metadata() {
    let r = VerifyRequest {
        memory_id: "m".to_string(),
        verified_against: Some("main.rs".to_string()),
        now: Some("2026-01-02T03:04:05Z".to_string()),
    };
    let plan = verify_memory(&r, "unused", &Some(Some("{\"a\":1}".to_string()))).unwrap();
    assert_eq!(
        plan.metadata_json,
        "{\"a\":1,\"verified_against\":\"main.rs\",\"verified_at\":\"2026-01-02T03:04:05.000Z\"}"
    );
    assert_eq!(plan.report.verified_at, "2026-01-02T03:04:05.000Z");
    let rich = "{\"list\":[1, \"v1.2\"], \"inner\":{\"b\":true, \"a\":-7}, \"note\":\"x\"}";
    let kept = Some(verify_memory(&r, "unused", &Some(Some(rich.to_string()))).unwrap().metadata_json);
    assert_eq!(metadata_member(&kept, "list"), Some("[1,\"v1.2\"]".to_string()));
    assert_eq!(metadata_member(&kept, "inner"), Some("{\"a\":-7,\"b\":true}".to_string()));
    assert_eq!(metadata_member(&kept, "note"), Some("\"x\"".to_string()));
    assert_eq!(metadata_member(&kept, "verified_against"), Some("\"main.rs\"".to_string()));
    assert_eq!(metadata_member(&kept, "other"), None);
    assert_eq!(metadata_member(&None, "list"), None);
    let fresh = verify_memory(&r, "unused", &Some(None)).unwrap();
    assert_eq!(
        fresh.metadata_json,
        "{\"verified_against\":\"main.rs\",\"verified_at\":\"2026-01-02T03:04:05.000Z\"}"
    );
    assert!(matches!(
        verify_memory(&r, "unused", &Some(Some("oops".to_string()))),
        Err(Error::Conflict { .. })
    ));
    assert!(matches!(verify_memory(&r, "unused", &None), Err(Error::NotFound { .. })));
}

fn version(id: &str) -> MemoryVersionRecord {
    MemoryVersionRecord {
        id: id.to_string(),
        version_num: 1,
        content: "c".to_string(),
        summary: None,
        retrieval_representation: None,
        content_sha256: "sha".to_string(),
        created_at: "t".to_string(),
        source_ref_json: Some("{}".to_string()),
    }
}

fn stored() -> StoredMemory {
    StoredMemory {
        record: MemoryRecord {
            id: "m".to_string(),
            version_id: "v".to_string(),
            space: "s".to_string(),
            silo: "durable".to_string(),
            scope: "workspace".to_string(),
            project_key: None,
            kind: "fact".to_string(),
            entity_key: None,
            claim_key: None,
            status: "active".to_string(),
            confidence: unit(),
            pinned: false,
            source_episode_id: None,
            observed_at: "t".to_string(),
            created_at: "t".to_string(),
            updated_at: "t".to_string(),
            valid_from: None,
            valid_to: None,
            expires_at: None,
            deleted_at: None,
            content: "c".to_string(),
            summary: None,
            retrieval_representation: None,
            content_sha256: "sha".to_string(),
            source_ref_json: Some("{}".to_string()),
            metadata_json: None,
            tags: vec![],
            versions: None,
            events: None,
            links: None,
        },
        versions: vec![version("v")],
        events: vec![],
        links: vec![],
    }
}

#[test]
fn sources_come_back_only_where_asked_for() {
    let none = GetOptions { include_history: false, include_links: false, include_source: false };
    let memory = get_memory("m", Some(stored()), none).unwrap();
    assert!(memory.source_ref_json.is_none() && memory.versions.is_none() && memory.links.is_none());
    let all = GetOptions { include_history: true, include_links: true, include_source: true };
    let memory = get_memory("m", Some(stored()), all).unwrap();
    assert_eq!(memory.source_ref_json, Some("{}".to_string()));
    assert_eq!(memory.versions.unwrap().len(), 1);
    assert_eq!(message(get_memory(" ", None, none)), "memory id must not be empty");
    assert_eq!(message(get_memory("m", None, none)), "memory not found: m");
}

#[test]
fn history_tells_whether_it_is_cut_off() {
    let found = |total: usize| StoredHistory {
        status: "active".to_string(),
        total_events: 0,
        total_versions: total,
        versions: vec![version("v")],
        events: vec![],
    };
    let options = HistoryOptions { limit: 1, include_source: false };
    let report = memory_history("m", options, Some(found(2))).unwrap();
    assert!(report.truncated);
    assert!(report.versions[0].source_ref_json.is_none());
    assert!(!memory_history("m", options, Some(found(1))).unwrap().truncated);
    let bad = HistoryOptions { limit: 0, include_source: false };
    assert_eq!(message(memory_history("m", bad, None)), "limit must be between 1 and 500");
}

fn recall(kind: &str) -> RecallLogRequest {
    RecallLogRequest {
        source: None,
        session_id: None,
        batch_id: None,
        latency_ms: None,
        latency_source: None,
        events: vec![
            RecallEvent { memory_id: "a".to_string(), kind: kind.to_string(), query: None, rank: Some(1), score: None },
            RecallEvent { memory_id: "b".to_string(), kind: "surfaced".to_string(), query: None, rank: None, score: None },
        ],
        touch_accessed: true,
    }
}

#[test]
fn only_retrieved_memories_are_touched() {
    let r = recall("retrieved");
    assert_eq!(plan_recall(&r).unwrap(), vec![true, false]);
    let report = record_recall(&r, &texts(&["a", "b"]));
    assert_eq!((report.recorded, report.touched), (2, 1));
    assert_eq!(record_recall(&r, &texts(&["b"])).touched, 0);
    let mut twice = recall("retrieved");
    twice.events[1].memory_id = "a".to_string();
    twice.events[1].kind = "retrieved".to_string();
    assert_eq!(record_recall(&twice, &texts(&["a"])).touched, 1);
    assert_eq!(
        message(plan_recall(&recall("seen"))),
        "recall event kind must be 'surfaced' or 'retrieved'"
    );
    let mut empty = recall("retrieved");
    empty.events.clear();
    assert_eq!(message(plan_recall(&empty)), "recall-log requires at least one event");
}

fn submission() -> CandidateSubmitRequest {
    CandidateSubmitRequest {
        space: None,
        silo: None,
        scope: None,
        project: None,
        kind: None,
        content: "proposal".to_string(),
        summary: None,
        rationale: None,
        tags: texts(&["t"]),
        entity_key: None,
        claim_key: None,
        confidence: unit(),
        source_type: Some("capture".to_string()),
        source_json: Some(JsonDocument { text: "{\"k\":1}".to_string(), parsed: object_of("k") }),
        sensitivity: None,
        supersedes: vec![],
        dry_run: false,
    }
}

fn approval() -> CandidateApproveRequest {
    CandidateApproveRequest { id: "cand".to_string(), dry_run: true }
}

#[test]
fn candidates_are_decided_once() {
    let record = submit_candidate(&submission(), "cand", "now").unwrap().candidate;
    assert_eq!(record.status, "pending");
    assert_eq!(record.tags, texts(&["t"]));
    let reject = CandidateRejectRequest { id: "cand".to_string(), reason: Some("no".to_string()), dry_run: false };
    let rejected = reject_candidate(&reject, Some(record), "later").unwrap().candidate;
    assert_eq!(rejected.status, "rejected");
    assert_eq!(rejected.decided_reason, Some("no".to_string()));
    assert_eq!(
        message(reject_candidate(&reject, Some(rejected), "later")),
        "candidate cand is already rejected"
    );
    assert_eq!(message(reject_candidate(&reject, None, "later")), "candidate not found: cand");
    let quarantine = CandidateQuarantineRequest { id: "cand".to_string(), reason: None, dry_run: false };
    let record = submit_candidate(&submission(), "cand", "now").unwrap().candidate;
    assert_eq!(quarantine_candidate(&quarantine, Some(record), "later").unwrap().candidate.status, "quarantined");
}

#[test]
fn captured_candidates_need_adjudication() {
    assert_eq!(adjudication_guard(true, true), AdjudicationGuard::Clear);
    assert_eq!(adjudication_guard(false, true), AdjudicationGuard::Refuse);
    assert_eq!(adjudication_guard(false, false), AdjudicationGuard::Degraded);
    assert!(requires_adjudication(Some("TRUE")));
    assert!(requires_adjudication(Some("1")));
    assert!(!requires_adjudication(Some("yes")));
    assert!(!requires_adjudication(None));
    let record = Some(submit_candidate(&submission(), "cand", "now").unwrap().candidate);
    assert_eq!(approve_candidate(&approval(), &record, false).unwrap(), AdjudicationGuard::Degraded);
    assert!(message(approve_candidate(&approval(), &record, true)).contains("unadjudicated"));
    let mut judged = submission();
    judged.source_json = Some(JsonDocument { text: "{\"adjudication\":{}}".to_string(), parsed: object_of("adjudication") });
    let record = Some(submit_candidate(&judged, "cand", "now").unwrap().candidate);
    assert_eq!(approve_candidate(&approval(), &record, true).unwrap(), AdjudicationGuard::Clear);
    let approved = approved_candidate(&approval(), record.unwrap(), "later", stored().record);
    assert_eq!(approved.candidate.status, "approved");
    assert_eq!(approved.candidate.resulting_memory_id, Some("m".to_string()));
    assert_eq!(approved.memory.id, "m");
    assert!(approved.dry_run);
    let page = report_candidates(vec![approved.candidate], -1);
    assert_eq!((page.candidates.len(), page.total), (1, 0));
}

#[test]
fn approved_candidates_name_their_source() {
    assert_eq!(
        candidate_source_ref_json(Some("{\"k\":1}"), "capture"),
        "{\"k\":1,\"source_type\":\"capture\"}"
    );
    assert_eq!(candidate_source_ref_json(Some("oops"), "manual"), "{\"source_type\":\"manual\"}");
    assert_eq!(candidate_source_ref_json(None, "manual"), "{\"source_type\":\"manual\"}");
    let record = submit_candidate(&submission(), "cand", "now").unwrap().candidate;
    let r = remember_request_from_candidate(
        &record,
        JsonDocument { text: "{}".to_string(), parsed: Some(ImportJson::Object(vec![])) },
        Some("derived/entity".to_string()),
        None,
    );
    assert_eq!(r.content, "proposal");
    assert_eq!(r.entity_key, Some("derived/entity".to_string()));
    assert!(r.graph.is_none());
}

#[test]
fn lists_of_texts_survive_a_column() {
    let list = texts(&["a\"b", "c\\d", "\u{1}ü"]);
    let column = candidate_string_array_to_column(&list);
    assert_eq!(candidate_string_array_from_column(column.as_deref()), list);
    assert_eq!(candidate_string_array_to_column(&vec![]), None);
    assert_eq!(candidate_string_array_from_column(Some("{}")), texts(&[]));
}

#[test]
fn candidate_listings_are_bounded() {
    let plan = list_candidates(&CandidateListRequest {
        status: Some("pending".to_string()),
        space: None,
        limit: 0,
        offset: 3,
    })
    .unwrap();
    assert_eq!((plan.limit, plan.offset), (1, 3));
    assert_eq!(plan.count_sql, "SELECT COUNT(*) FROM memory_candidates WHERE status = :status");
    let plan = list_candidates(&CandidateListRequest { status: None, space: None, limit: 999, offset: 0 }).unwrap();
    assert_eq!(plan.limit, 100);
    let bad = CandidateListRequest { status: Some("odd".to_string()), space: None, limit: 1, offset: 0 };
    assert!(message(list_candidates(&bad)).starts_with("unsupported status filter: odd"));
}

#[test]
fn errors_tell_what_happened() {
    let busy = Error::Database { failure: DatabaseFailure::Busy, message: "busy".to_string() };
    assert!(busy.is_locked() && busy.is_retryable());
    assert_eq!(busy.message(), "SQLite error: busy");
    let io = Error::Io { message: "gone".to_string() };
    assert!(!io.is_locked());
    assert_eq!(io.message(), "filesystem error: gone");
    assert_eq!(
        Error::SchemaMismatch { expected: 6, actual: -1 }.message(),
        "schema mismatch: expected version 6, found version -1"
    );
}
