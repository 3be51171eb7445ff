use memkeeper_store::error::Error;
use memkeeper_store::filters::{
    filters_where_clause, prepare_filters, prepare_recall_filters, resolve_space_filter,
    split_tags, validate_search_filters, SqlArgs,
};
use memkeeper_store::late::{compared_memories, late_choice};
use memkeeper_store::listing::{
    list_memories, memory_list_sql, prepare_memory_list_request, MemoryListCandidate,
    MemoryListRequest,
};
use memkeeper_store::ranking::Score;
use memkeeper_store::requests::{ScoreBreakdown, SearchFilters};
use memkeeper_store::search::{
    batch_search_memories, candidate_signals, lexical_candidates, prepare_search_request,
    search_memories, source_tier_of, wants_fallback, wants_prefix, BatchQuery,
    BatchSearchRequest, QueryEmbedding, SearchCandidate, SearchReads, SearchRequest, SourceTier,
};
use memkeeper_store::statements::{
    late_search_sql, late_selection, matching_ids_sql, search_sql, semantic_search_sql,
    shortlist_width,
};

fn score(key: i64) -> Score {
    Score { key }
}

fn texts(list: &[&str]) -> Vec<String> {
    list.iter().map(|t| t.to_string()).collect()
}

fn message<T>(r: Result<T, Error>) -> String {
    match r {
        Ok(_) => panic!("accepted"),
        Err(e) => e.message(),
    }
}

fn filters() -> SearchFilters {
    SearchFilters {
        spaces: vec![],
        silos: vec![],
        scopes: vec![],
        projects: vec![],
        kinds: vec![],
        statuses: vec![],
        entity_keys: vec![],
        claim_keys: vec![],
        tags: vec![],
        hide_expired: false,
    }
}

fn request(query: &str) -> SearchRequest {
    SearchRequest {
        query: query.to_string(),
        filters: filters(),
        limit: 2,
        offset: 0,
        snippet_chars: 10,
        include_content: false,
        include_source: false,
        semantic_fallback: "fallback".to_string(),
        lexical_fallback: "conservative".to_string(),
        embedding: None,
        query_token_embedding: false,
        token_model_id: None,
        maxsim_shortlist: 0,
    }
}

fn candidate(id: &str, key: i64) -> SearchCandidate {
    let zero = score(0);
    SearchCandidate {
        memory_id: id.to_string(),
        version_id: "v".to_string(),
        space: "s".to_string(),
        silo: "durable".to_string(),
        scope: "workspace".to_string(),
        project_key: None,
        kind: "fact".to_string(),
        status: "active".to_string(),
        summary: None,
        content: Some("the whole content of a memory".to_string()),
        snippet_text: "snippet text".to_string(),
        tags: vec![],
        entity_key: None,
        claim_key: None,
        observed_at: "t".to_string(),
        recency_jd: None,
        source_ref_json: Some("{}".to_string()),
        source_type: None,
        metadata_json: None,
        confidence: zero,
        pinned: false,
        bm25: zero,
        lexical_tier: 0,
        score: score(key),
        scores: ScoreBreakdown {
            fts: zero,
            metadata: zero,
            recency: zero,
            scope: zero,
            status: zero,
            pin: zero,
            source_tier: zero,
        },
    }
}

fn reads(semantic: Vec<SearchCandidate>, lexical: Vec<SearchCandidate>) -> SearchReads {
    SearchReads { semantic_built: true, index_exists: true, semantic, lexical }
}

#[test]
fn spaces_resolve_to_what_they_name() {
    assert_eq!(resolve_space_filter(&vec![]), texts(&["workspace-memory"]));
    assert_eq!(resolve_space_filter(&texts(&["a", " * "])), texts(&[]));
    assert_eq!(resolve_space_filter(&texts(&["a", "b"])), texts(&["a", "b"]));
}

#[test]
fn recall_filters_hide_what_is_stale() {
    let f = prepare_recall_filters(&filters()).unwrap();
    assert!(f.hide_expired);
    assert_eq!(f.statuses, texts(&["active"]));
    assert_eq!(f.spaces, texts(&["workspace-memory"]));
    let mut f = filters();
    f.kinds = texts(&[" fact "]);
    assert_eq!(prepare_filters(&f).unwrap().kinds, texts(&["fact"]));
    assert!(!prepare_filters(&f).unwrap().hide_expired);
    f.kinds = texts(&["rumour"]);
    assert_eq!(message(prepare_filters(&f)), "unsupported kind: rumour");
    f.kinds = texts(&[" "]);
    assert_eq!(
        message(prepare_filters(&f)),
        "filter values must be non-empty and at most 256 characters"
    );
    let mut f = filters();
    f.statuses = texts(&["asleep"]);
    assert_eq!(message(validate_search_filters(&f)), "unsupported status: asleep");
    f.statuses = vec![];
    f.scopes = texts(&["galaxy"]);
    assert_eq!(message(validate_search_filters(&f)), "unsupported scope: galaxy");
    f.scopes = vec![];
    f.tags = texts(&["a", "a"]);
    assert_eq!(message(validate_search_filters(&f)), "duplicate tag: a");
}

#[test]
fn placeholders_count_on_from_the_reserved_ones() {
    let mut args = SqlArgs::with_reserved(1);
    assert_eq!(args.push("x"), "?2");
    assert_eq!(args.placeholder_list(&texts(&["y", "z"])), "?3,?4");
    assert_eq!(args.into_values(), texts(&["x", "y", "z"]));
}

#[test]
fn conditions_follow_the_filters() {
    let mut args = SqlArgs::with_reserved(0);
    assert_eq!(filters_where_clause(&filters(), &mut args), "1=1");
    let mut f = filters();
    f.spaces = texts(&["a", "b"]);
    f.kinds = texts(&["fact"]);
    f.tags = texts(&["t"]);
    f.hide_expired = true;
    let mut args = SqlArgs::with_reserved(1);
    assert_eq!(
        filters_where_clause(&f, &mut args),
        "m.space_name IN (?2,?3) AND m.kind IN (?4) AND EXISTS (SELECT 1 FROM memory_tags mt WHERE mt.memory_id = m.id AND mt.tag IN (?5)) AND (m.valid_to IS NULL OR julianday(m.valid_to) >= julianday('now')) AND (m.expires_at IS NULL OR julianday(m.expires_at) > julianday('now'))"
    );
    assert_eq!(args.into_values(), texts(&["a", "b", "fact", "t"]));
    let (sql, values) = matching_ids_sql(&filters());
    assert_eq!(sql, "SELECT m.id FROM memories m WHERE 1=1");
    assert!(values.is_empty());
    assert_eq!(split_tags(""), texts(&[]));
    assert_eq!(split_tags("a\u{1f}b"), texts(&["a", "b"]));
}

#[test]
fn search_requests_are_prepared() {
    let p = prepare_search_request(&request("Decided policies")).unwrap();
    assert_eq!(p.terms, texts(&["decided", "policies"]));
    assert_eq!(p.candidate_pool_limit, 34);
    assert!(p.fts_query.contains(" AND "));
    assert!(p.fallback_fts_query.as_ref().unwrap().contains(" OR {content"));
    assert!(p.prefix_fts_query.as_ref().unwrap().contains("policies*"));
    assert!(p.query_alias_shingles.contains("decided policies"));
    let mut wide = request("x");
    wide.limit = 50;
    assert_eq!(prepare_search_request(&wide).unwrap().candidate_pool_limit, 200);
    assert!(prepare_search_request(&request("memo")).unwrap().fallback_fts_query.is_none());
}

#[test]
fn search_requests_are_refused() {
    let mut r = request("x");
    r.limit = 0;
    assert_eq!(message(prepare_search_request(&r)), "limit must be between 1 and 50");
    r.limit = 51;
    assert_eq!(message(prepare_search_request(&r)), "limit must be between 1 and 50");
    let mut r = request("x");
    r.offset = 1001;
    assert_eq!(message(prepare_search_request(&r)), "offset must be at most 1000");
    let mut r = request("x");
    r.snippet_chars = 1001;
    assert_eq!(message(prepare_search_request(&r)), "snippet_chars must be at most 1000");
    let mut r = request("x");
    r.semantic_fallback = "maybe".to_string();
    assert_eq!(message(prepare_search_request(&r)), "semantic_fallback must be disabled or fallback");
    let mut r = request("x");
    r.lexical_fallback = "maybe".to_string();
    assert_eq!(message(prepare_search_request(&r)), "lexical_fallback must be disabled or conservative");
    let mut r = request("x");
    r.embedding = Some(QueryEmbedding { dims: 3, finite: false });
    assert_eq!(message(prepare_search_request(&r)), "embedding values must be finite");
    r.embedding = Some(QueryEmbedding { dims: 0, finite: true });
    assert!(prepare_search_request(&r).is_err());
    assert_eq!(
        message(prepare_search_request(&request("---"))),
        "query must contain at least one searchable term"
    );
    assert_eq!(
        message(prepare_search_request(&request(&"x".repeat(4097)))),
        "query must be at most 4096 characters"
    );
    let many: Vec<String> = (0..65).map(|i| format!("w{}", i)).collect();
    assert_eq!(
        message(prepare_search_request(&request(&many.join(" ")))),
        "query must contain at most 64 searchable terms"
    );
}

#[test]
fn looser_searches_fill_up() {
    let p = prepare_search_request(&request("Decided policies")).unwrap();
    assert!(wants_prefix(&p, 1) && !wants_prefix(&p, 2));
    assert!(wants_fallback(&p, 0) && !wants_fallback(&p, 1));
    let list = lexical_candidates(
        &p,
        vec![candidate("a", 1)],
        vec![candidate("a", 9), candidate("b", 9)],
        vec![candidate("c", 9)],
    );
    let found: Vec<(&str, u8)> = list.iter().map(|c| (c.memory_id.as_str(), c.lexical_tier)).collect();
    assert_eq!(found, vec![("a", 0), ("b", 1)]);
    let list = lexical_candidates(&p, vec![], vec![], vec![candidate("c", 9)]);
    assert_eq!(list[0].lexical_tier, 2);
    let mut strict = request("Decided policies");
    strict.lexical_fallback = "disabled".to_string();
    let p = prepare_search_request(&strict).unwrap();
    assert!(lexical_candidates(&p, vec![], vec![candidate("b", 1)], vec![candidate("c", 9)]).is_empty());
}

#[test]
fn results_are_ranked_and_cut_off() {
    let mut late = candidate("late", 5);
    late.lexical_tier = 1;
    let mut new = candidate("new", 5);
    new.observed_at = "u".to_string();
    let lexical = vec![late, candidate("b", 5), candidate("a", 5), new];
    let mut r = request("content");
    r.offset = 3;
    let report = search_memories(&r, &reads(vec![], lexical)).unwrap();
    let ids: Vec<(usize, &str)> = report.results.iter().map(|x| (x.rank, x.memory_id.as_str())).collect();
    assert_eq!(ids, vec![(4, "new"), (5, "a")]);
    assert!(report.truncated);
    assert_eq!(report.total_estimate, 6);
    assert_eq!(report.strategy, "deterministic_fts_v0");
    assert_eq!(report.semantic_reason, "fts_results");
    assert_eq!(report.results[0].snippet, "hole conte");
    assert!(report.results[0].content.is_none());
    assert!(report.results[0].source_ref_json.is_none());
}

#[test]
fn searches_go_by_meaning_first() {
    let mut r = request("content");
    r.embedding = Some(QueryEmbedding { dims: 3, finite: true });
    let report = search_memories(&r, &reads(vec![candidate("s", 1)], vec![candidate("l", 1)])).unwrap();
    assert_eq!((report.strategy.as_str(), report.semantic_reason.as_str()), ("semantic_primary_v0", "semantic_primary"));
    assert_eq!(report.results[0].memory_id, "s");
    let report = search_memories(&r, &reads(vec![], vec![candidate("l", 1)])).unwrap();
    assert_eq!(report.semantic_reason, "fts_results");
    let report = search_memories(&r, &reads(vec![], vec![])).unwrap();
    assert_eq!((report.strategy.as_str(), report.semantic_reason.as_str()), ("semantic_fallback", "fts_empty"));
    let mut missing = reads(vec![], vec![]);
    missing.index_exists = false;
    assert_eq!(search_memories(&r, &missing).unwrap().semantic_reason, "semantic_index_missing");
    missing.semantic_built = false;
    assert_eq!(search_memories(&r, &missing).unwrap().semantic_reason, "semantic_feature_disabled");
    assert_eq!(
        search_memories(&request("content"), &reads(vec![], vec![])).unwrap().semantic_reason,
        "missing_embedding"
    );
    r.semantic_fallback = "disabled".to_string();
    let report = search_memories(&r, &reads(vec![candidate("s", 1)], vec![])).unwrap();
    assert_eq!(report.semantic_reason, "disabled_v0_1");
    assert!(report.results.is_empty());
}

#[test]
fn signals_tell_what_speaks_for_a_candidate() {
    let mut r = request("Point of view");
    r.filters.kinds = texts(&["fact"]);
    r.filters.tags = texts(&["t"]);
    r.filters.entity_keys = texts(&["e"]);
    let p = prepare_search_request(&r).unwrap();
    let mut c = candidate("a", 1);
    c.tags = texts(&["t", "alias::point of view"]);
    c.entity_key = Some("e".to_string());
    c.source_type = Some("mcp".to_string());
    let s = candidate_signals(&c, &p);
    assert!(s.kind && s.entity && s.tag && s.alias && s.active && s.durable);
    assert!(!s.claim && !s.scope && !s.pinned);
    assert!(matches!(s.source, SourceTier::Explicit));
    assert!(matches!(source_tier_of(&None, &vec![]), SourceTier::Unknown));
    assert!(matches!(
        source_tier_of(&Some("mcp".to_string()), &texts(&["synthesis-derived"])),
        SourceTier::Harvested
    ));
}

#[test]
fn batches_run_every_query() {
    let batch = BatchSearchRequest {
        queries: vec![
            BatchQuery { name: Some("one".to_string()), query: "alpha".to_string(), limit: None },
            BatchQuery { name: None, query: "beta".to_string(), limit: Some(1) },
        ],
        common_filters: filters(),
        limit: 5,
        offset: 0,
        snippet_chars: 0,
        include_content: true,
        include_source: false,
        semantic_fallback: "disabled".to_string(),
    };
    let report = batch_search_memories(
        &batch,
        &vec![
            reads(vec![], vec![candidate("a", 1), candidate("b", 2)]),
            reads(vec![], vec![candidate("a", 1), candidate("b", 2)]),
        ],
    )
    .unwrap();
    assert_eq!(report.results.len(), 2);
    assert_eq!(report.results[0].name, Some("one".to_string()));
    assert_eq!(report.results[0].report.results.len(), 2);
    assert_eq!(report.results[1].report.results.len(), 1);
    assert_eq!(report.results[1].report.results[0].memory_id, "b");
    assert!(report.results[1].report.results[0].content.is_some());
    let none = BatchSearchRequest { queries: vec![], ..batch };
    assert_eq!(
        message(batch_search_memories(&none, &vec![])),
        "queries must contain between 1 and 20 items"
    );
}

#[test]
fn search_statements_bind_their_filters() {
    let mut r = request("alpha");
    r.filters.kinds = texts(&["fact"]);
    let p = prepare_search_request(&r).unwrap();
    let (sql, values) = search_sql(&p);
    assert!(sql.contains("FROM memory_fts_public JOIN memories m"));
    assert!(sql.contains("WHERE memory_fts_public MATCH ?1 AND m.space_name IN (?2) AND m.kind IN (?3) AND m.status IN (?4)"));
    assert!(sql.contains("(CASE WHEN m.kind IN (?5) THEN 0.05 ELSE 0.0 END)"));
    assert!(sql.ends_with("LIMIT 34 OFFSET 0"));
    assert_eq!(values, texts(&["workspace-memory", "fact", "active", "fact"]));
    let (sql, values) = semantic_search_sql(&p, "memory_vec_3");
    assert!(sql.contains("memory_vec_3.embedding MATCH ?1 AND k = 34"));
    assert!(sql.contains("m.kind IN (?3)") && sql.contains("m.kind IN (?6)"));
    assert_eq!(values.len(), 6);
    let (sql, values) = late_search_sql(&p, &texts(&["a", "b"]), &texts(&["0.5", "1.5"]));
    assert!(sql.contains("(VALUES (?1, 0.5),(?2, 1.5))"));
    assert_eq!(values, texts(&["a", "b", "workspace-memory", "fact", "active"]));
}

#[test]
fn shortlists_keep_the_selection() {
    let mut r = request("alpha");
    r.offset = 10;
    r.maxsim_shortlist = 5;
    let p = prepare_search_request(&r).unwrap();
    assert_eq!(late_selection(&p), 12);
    assert_eq!(shortlist_width(&p, 100), Some(12));
    assert_eq!(shortlist_width(&p, 5), None);
    r.maxsim_shortlist = 0;
    assert_eq!(shortlist_width(&prepare_search_request(&r).unwrap(), 100), None);
    let many: Vec<String> = (0..100).map(|i| format!("m{}", i)).collect();
    let near: Vec<String> = (0..100).map(|i| format!("m{}", 120 - i)).collect();
    let short = compared_memories(&p, many.clone(), &Some(near));
    assert_eq!(short.len(), 12);
    assert_eq!(short[0], "m99");
    assert_eq!(compared_memories(&p, many.clone(), &None), many);
    let scored = vec![
        ("b".to_string(), Score { key: 5 }),
        ("a".to_string(), Score { key: 5 }),
        ("c".to_string(), Score { key: 9 }),
    ];
    assert_eq!(late_choice(&p, &scored), texts(&["c", "a", "b"]));
    let page: Vec<(String, Score)> =
        (0..20).map(|i| (format!("m{}", i), Score { key: i })).collect();
    assert_eq!(late_choice(&p, &page).len(), 12);
    assert_eq!(late_choice(&p, &page)[11], "m8");
}

fn listing() -> MemoryListRequest {
    MemoryListRequest {
        filters: filters(),
        limit: 1,
        offset: 0,
        snippet_chars: 3,
        include_content: false,
        include_source: true,
        order: "observed_desc".to_string(),
    }
}

fn listed(id: &str) -> MemoryListCandidate {
    MemoryListCandidate {
        memory_id: id.to_string(),
        version_id: "v".to_string(),
        space: "s".to_string(),
        silo: "durable".to_string(),
        scope: "workspace".to_string(),
        project_key: None,
        kind: "fact".to_string(),
        status: "active".to_string(),
        entity_key: None,
        claim_key: None,
        confidence: score(0),
        pinned: true,
        observed_at: "t".to_string(),
        created_at: "t".to_string(),
        updated_at: "t".to_string(),
        snippet_text: "abcdef".to_string(),
        content: Some("content".to_string()),
        tags: texts(&["x"]),
        summary: None,
        source_ref_json: Some("{}".to_string()),
    }
}

#[test]
fn listings_show_a_page() {
    let report = list_memories(&listing(), &vec![listed("a"), listed("b")]).unwrap();
    assert_eq!(report.strategy, "deterministic_list_v0");
    assert_eq!(report.results.len(), 1);
    assert_eq!(report.results[0].snippet, "abc");
    assert_eq!(report.results[0].source_ref_json, Some("{}".to_string()));
    assert!(report.results[0].content.is_none());
    assert!(report.truncated);
    assert_eq!(report.total_estimate, 2);
    assert_eq!(list_memories(&listing(), &vec![]).unwrap().total_estimate, 0);
    let mut r = listing();
    r.order = "random".to_string();
    assert_eq!(
        message(list_memories(&r, &vec![])),
        "order must be updated_desc, observed_desc, or created_desc"
    );
    r.limit = 101;
    assert_eq!(message(list_memories(&r, &vec![])), "limit must be between 1 and 100");
}

#[test]
fn listing_statements_read_one_row_more() {
    let p = prepare_memory_list_request(&listing()).unwrap();
    let (sql, values) = memory_list_sql(&p);
    assert!(sql.contains("substr(COALESCE(v.summary, v.content), 1, 4), NULL,"));
    assert!(sql.contains("v.source_ref_json"));
    assert!(sql.ends_with("ORDER BY m.observed_at DESC, m.updated_at DESC, m.id ASC LIMIT 2 OFFSET 0"));
    assert_eq!(values, texts(&["workspace-memory", "active"]));
}
