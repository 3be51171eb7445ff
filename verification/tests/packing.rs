use memkeeper_store::admissions::{find_activation, replace_graph_admissions};
use memkeeper_store::evidence::{
    allocate_evidence_seeds, evidence_entity_seeds, evidence_entity_stopword,
    evidence_memory_seeds, evidence_query_spans, EntityRef,
};
use memkeeper_store::expansion::{evidence_candidate_order, evidence_graph_expand_pool, EvidenceJoinOptions};
use memkeeper_store::hybrid::{
    build_hybrid_rerank_pool_trace_with_evidence_options,
    build_hybrid_rerank_pool_with_evidence_options, merge_hybrid_pool, validate_trace_options,
    RerankPool, StoredContent,
};
use memkeeper_store::pack::{
    append_with_char_budget, build_pack, empty_pack, freshness_marker, freshness_text,
    truncate_pack_line,
};
use memkeeper_store::pack_queries::{
    pack_query_request, pack_semantic_report, validate_pack_request,
};
use memkeeper_store::pool::{
    build_pack_pool, interleave_pools, merge_rerank_pools, merge_rerank_pools_with_trace,
    AdmissionSource, GraphEvidenceClass, GraphRouteObservation, GraphSeedSource, PackPoolItem,
    QueryHits,
};
use memkeeper_store::ranking::{Score, LOWEST_SCORE_KEY, UNIT_SCORE_KEY};
use memkeeper_store::requests::{
    PackRequest, ScoreBreakdown, SearchFilters, SearchReport, SearchResult,
};
use memkeeper_store::rerank::{
    assemble_reranked_pack, byte_len_within, truncate_pack_entry, RerankCandidate,
};
use memkeeper_store::order::TextSet;
use memkeeper_store::routes::{
    evidence_route_is_better, record_evidence_candidate, EvidenceCandidate, EvidenceCandidateRoute,
};
use memkeeper_store::search::{prepare_search_request, QueryEmbedding};
use memkeeper_store::traversal::{
    qualified_evidence_relationship, EvidenceEdge, EvidenceTraversal,
};

fn score(key: i64) -> Score {
    Score { key }
}

fn texts(list: &[&str]) -> Vec<String> {
    list.iter().map(|t| t.to_string()).collect()
}

fn filters() -> SearchFilters {
    SearchFilters {
        spaces: vec![],
        silos: vec![],
        scopes: vec![],
        projects: vec![],
        kinds: vec![],
        statuses: vec![],
        entity_keys: vec![],
        claim_keys: vec![],
        tags: vec![],
        hide_expired: false,
    }
}

fn pack_request(max_memories: usize, max_chars: usize) -> PackRequest {
    PackRequest {
        title: " Title ".to_string(),
        queries: texts(&["q"]),
        filters: filters(),
        max_memories,
        max_chars,
        format: "markdown".to_string(),
        min_score: score(0),
        rerank_candidates: 0,
        query_embeddings: None,
        query_token_embeddings: None,
        token_model_id: None,
    }
}

fn result(id: &str, key: i64) -> SearchResult {
    let zero = score(0);
    SearchResult {
        rank: 1,
        memory_id: id.to_string(),
        version_id: "v".to_string(),
        score: score(key),
        scores: ScoreBreakdown {
            fts: zero,
            metadata: zero,
            recency: zero,
            scope: zero,
            status: zero,
            pin: zero,
            source_tier: zero,
        },
        space: "s".to_string(),
        silo: "durable".to_string(),
        scope: "workspace".to_string(),
        project_key: None,
        kind: "fact".to_string(),
        status: "active".to_string(),
        summary: None,
        snippet: "some  text".to_string(),
        content: None,
        tags: vec![],
        entity_key: None,
        claim_key: None,
        observed_at: "t".to_string(),
        source_ref_json: None,
        metadata_json: None,
    }
}

fn report(results: Vec<SearchResult>) -> SearchReport {
    SearchReport {
        strategy: "x".to_string(),
        semantic_attempted: false,
        semantic_reason: "x".to_string(),
        total_estimate: results.len(),
        truncated: false,
        results,
    }
}

#[test]
fn packs_render_memories_in_turn() {
    let reports = vec![report(vec![result("a", 3), result("b", 2)]), report(vec![result("b", 2), result("c", 9)])];
    let pack = build_pack(&pack_request(5, 1000), &reports, None).unwrap();
    assert_eq!(pack.memory_ids, texts(&["a", "b", "c"]));
    assert_eq!(pack.top_score, Some(score(9)));
    assert!(!pack.truncated);
    assert!(pack.content.starts_with(
        "## Retrieved Memory: Title\n- [Observed at: t] [fact:a] some text (space=s, silo=durable, scope=workspace, tags=-)\n"
    ));
}

#[test]
fn packs_keep_their_budget() {
    let reports = vec![report(vec![result("a", 3), result("b", 2)])];
    for max in 1..400 {
        let pack = build_pack(&pack_request(5, max), &reports, None).unwrap();
        assert!(pack.content.chars().count() <= max);
    }
    let pack = build_pack(&pack_request(1, 1000), &reports, None).unwrap();
    assert_eq!(pack.memory_ids, texts(&["a"]));
    assert!(pack.truncated);
}

#[test]
fn packs_below_the_floor_are_empty() {
    let mut request = pack_request(5, 1000);
    request.min_score = score(10);
    let pack = build_pack(&request, &vec![report(vec![result("a", 3)])], None).unwrap();
    assert_eq!(pack.content, "");
    assert_eq!(pack.top_score, None);
    assert_eq!(empty_pack(&request).title, " Title ");
    let none = build_pack(&pack_request(5, 1000), &vec![report(vec![])], None).unwrap();
    assert_eq!(none.content, "## Retrieved Memory: Title\n- No matching active memories.\n");
}

#[test]
fn volatile_memories_say_how_fresh_they_are() {
    assert_eq!(freshness_text("durable", Some("x"), Some("t"), Some("t")), "");
    assert_eq!(freshness_text("short-term", Some("x"), Some("t2"), Some("t1")), " [confirmed t2 vs x]");
    assert_eq!(freshness_text("short-term", Some("x"), Some("t1"), Some("t2")), " [VERIFY vs x; last t1]");
    assert_eq!(freshness_text("short-term", Some("x"), None, None), " [VERIFY vs x; last never]");
    assert_eq!(
        freshness_marker("short-term", Some("{\"verified_against\":\"x\",\"verified_at\":\"t2\"}"), Some("t1")),
        " [confirmed t2 vs x]"
    );
    assert_eq!(freshness_marker("short-term", Some("oops"), None), "");
}

#[test]
fn lines_are_cut_with_an_ellipsis() {
    assert_eq!(truncate_pack_line("abcdef\n", 5), Some("abc\u{2026}\n".to_string()));
    assert_eq!(truncate_pack_line("abcdef\n", 2), None);
    let mut text = "ab".to_string();
    assert!(append_with_char_budget(&mut text, "cd", 4));
    assert!(!append_with_char_budget(&mut text, "e", 4));
    assert_eq!(text, "abcd");
}

#[test]
fn pack_requests_are_bounded() {
    assert!(validate_pack_request(&pack_request(50, 10_000)).is_ok());
    let refused = |r: &PackRequest| validate_pack_request(r).unwrap_err().message();
    assert_eq!(refused(&pack_request(0, 1)), "max_memories must be between 1 and 50");
    assert_eq!(refused(&pack_request(51, 1)), "max_memories must be between 1 and 50");
    assert_eq!(refused(&pack_request(1, 0)), "max_chars must be between 1 and 10000");
    assert_eq!(refused(&pack_request(1, 10_001)), "max_chars must be between 1 and 10000");
    let mut request = pack_request(1, 1);
    request.title = "t".repeat(257);
    assert_eq!(refused(&request), "title must be at most 256 characters");
    assert!(build_pack(&request, &vec![], None).is_err());
    assert!(build_pack_pool(&request, &vec![]).is_err());
}

#[test]
fn pack_queries_are_searched_by_meaning_where_indexed() {
    let mut request = pack_request(30, 1000);
    request.queries = texts(&["first", "second"]);
    let vector = Some(QueryEmbedding { dims: 4, finite: true });
    let search = pack_query_request(&request, 1, vector, true);
    assert_eq!((search.query.as_str(), search.limit, search.snippet_chars), ("second", 20, 240));
    assert_eq!(search.semantic_fallback, "fallback");
    assert_eq!(search.lexical_fallback, "conservative");
    assert_eq!(search.embedding.unwrap().dims, 4);
    let words = pack_query_request(&request, 0, vector, false);
    assert_eq!((words.query.as_str(), words.semantic_fallback.as_str()), ("first", "disabled"));
    assert!(words.embedding.is_none());
    assert!(pack_query_request(&request, 0, None, true).embedding.is_none());
    request.max_memories = 3;
    let prepared =
        prepare_search_request(&pack_query_request(&request, 0, None, false)).unwrap();
    assert_eq!(prepared.limit, 3);
    let report = pack_semantic_report(&prepared, &vec![]);
    assert_eq!((report.strategy.as_str(), report.semantic_attempted), ("ann_pack_v0", true));
    assert_eq!(report.semantic_reason, "query_embedding_provided");
    assert!(report.results.is_empty());
}

#[test]
fn pools_interleave_without_repeats() {
    let queries = vec![
        QueryHits { embedded: true, hits: vec![("a".to_string(), score(5)), ("b".to_string(), score(4))] },
        QueryHits { embedded: false, hits: vec![("b".to_string(), score(9)), ("c".to_string(), score(1))] },
    ];
    let pool = build_pack_pool(&pack_request(10, 1000), &queries).unwrap();
    let ids: Vec<&str> = pool.iter().map(|i| i.memory_id.as_str()).collect();
    assert_eq!(ids, vec!["a", "b", "c"]);
    assert_eq!(pool[1].admissions.len(), 2);
    let capped = interleave_pools(&vec![pool.clone(), pool], 2);
    assert_eq!(capped.len(), 2);
}

fn item(id: &str, key: i64, source: AdmissionSource) -> PackPoolItem {
    PackPoolItem::direct_candidate(id.to_string(), score(key), source, 0, 1)
}

#[test]
fn merged_pools_are_traced() {
    let dense = vec![item("a", 5, AdmissionSource::Ann), item("b", 4, AdmissionSource::Ann)];
    let lexical = vec![item("b", 9, AdmissionSource::Bm25), item("c", 1, AdmissionSource::Bm25)];
    let merged = merge_rerank_pools(&dense, &lexical, 2);
    let ids: Vec<&str> = merged.iter().map(|i| i.memory_id.as_str()).collect();
    assert_eq!(ids, vec!["a", "b"]);
    let (kept, trace) = merge_rerank_pools_with_trace(&dense, &lexical, 2);
    assert_eq!(kept.len(), 2);
    assert_eq!(trace.len(), 3);
    assert_eq!(trace.iter().filter(|t| t.admitted).count(), 2);
    assert_eq!(trace[2].memory_id, "c");
    assert!(trace[2].dropped_at.is_some());
}

fn reranked(id: &str, key: i64, consensus: bool) -> RerankCandidate {
    RerankCandidate {
        memory_id: id.to_string(),
        content: "text".to_string(),
        observed_at: "t".to_string(),
        rerank_score: score(key),
        negative_zero: false,
        consensus,
        activation: None,
    }
}

#[test]
fn reranked_packs_are_sorted() {
    let list = vec![reranked("a", 1, false), reranked("b", 5, false), reranked("c", 5, true)];
    let pack = assemble_reranked_pack(&pack_request(2, 1000), &list);
    assert_eq!(pack.memory_ids, texts(&["c", "b"]));
    assert!(pack.truncated);
    assert_eq!(pack.content, "- [Observed at: t] text\n- [Observed at: t] text\n");
    assert_eq!(truncate_pack_entry("abcdef", 9), Some("- abc\u{2026}\n".to_string()));
    assert_eq!(truncate_pack_entry("ää", 9), Some("- ä\u{2026}\n".to_string()));
    assert_eq!(truncate_pack_entry("abc", 6), None);
    assert_eq!(byte_len_within("äb", 3), Some(3));
    assert_eq!(byte_len_within("äb", 2), None);
}

#[test]
fn query_spans_skip_lone_stopwords() {
    assert!(evidence_entity_stopword("work"));
    assert!(!evidence_entity_stopword("kernel"));
    let spans = evidence_query_spans(&texts(&["the Linux kernel"]));
    let normal: Vec<&str> = spans.iter().map(|s| s.normalized.as_str()).collect();
    assert!(normal.contains(&"linux kernel"));
    assert!(normal.contains(&"the linux kernel"));
    assert!(!normal.contains(&"the"));
}

fn entity(id: &str) -> EntityRef {
    EntityRef { id: id.to_string(), entity_key: format!("key/{}", id), space_name: "s".to_string() }
}

#[test]
fn seeds_come_from_memories_and_entities() {
    let pool = vec![item("a", 5, AdmissionSource::Ann), item("b", 4, AdmissionSource::Ann)];
    let memory = evidence_memory_seeds(&pool, &vec![vec![entity("e1")], vec![entity("e1"), entity("e2")]]);
    let ids: Vec<&str> = memory.iter().map(|s| s.entity_id.as_str()).collect();
    assert_eq!(ids, vec!["e1", "e2"]);
    assert_eq!(memory[0].memory_id, Some("a".to_string()));
    let spans = evidence_query_spans(&texts(&["kernel"]));
    let matches = spans.iter().map(|_| vec![entity("e3")]).collect();
    let named = evidence_entity_seeds(&spans, &matches);
    assert_eq!(named.len(), 1);
    assert_eq!(named[0].score, score(UNIT_SCORE_KEY));
    assert_eq!(named[0].matched_query_span, Some("kernel".to_string()));
    let all = allocate_evidence_seeds(&memory, &named, 2);
    assert_eq!(all.len(), 2);
    assert!(allocate_evidence_seeds(&memory, &named, 0).is_empty());
}

fn edge(id: &str, from: &str, to: &str, metadata: Option<&str>) -> EvidenceEdge {
    EvidenceEdge {
        id: id.to_string(),
        subject_entity_id: from.to_string(),
        subject_entity_key: format!("key/{}", from),
        relation_type: "uses".to_string(),
        object_entity_id: to.to_string(),
        object_entity_key: format!("key/{}", to),
        memory_id: Some(format!("mem-{}", id)),
        metadata_json: metadata.map(|m| m.to_string()),
        support_valid: true,
        activation: score(50),
        negative_zero: false,
        neighbor_memory_ids: texts(&["other"]),
    }
}

const ROUTED: &str =
    "{\"routing\":true,\"routing_contract\":\"evidence_join_v2\",\"routing_contract_version\":2}";

#[test]
fn only_routing_relationships_qualify() {
    let q = qualified_evidence_relationship("e1", &edge("r", "e1", "e2", Some(ROUTED))).unwrap().unwrap();
    assert_eq!((q.direction.as_str(), q.neighbor_entity_id.as_str()), ("forward", "e2"));
    assert_eq!(q.target_memory_id, "mem-r");
    let q = qualified_evidence_relationship("e2", &edge("r", "e1", "e2", Some(ROUTED))).unwrap().unwrap();
    assert_eq!(q.direction, "reverse");
    assert!(qualified_evidence_relationship("e1", &edge("r", "e1", "e2", None)).unwrap().is_none());
    assert!(qualified_evidence_relationship("e9", &edge("r", "e1", "e2", Some(ROUTED))).unwrap().is_none());
    let plain = edge("r", "e1", "e2", Some("{\"routing\":false}"));
    assert!(qualified_evidence_relationship("e1", &plain).unwrap().is_none());
    let old = edge("r", "e1", "e2", Some("{\"routing\":true,\"routing_contract\":\"v1\"}"));
    assert_eq!(
        qualified_evidence_relationship("e1", &old).err().unwrap().message(),
        "routing relationship r must use evidence_join_v2 contract version 2"
    );
    let broken = edge("r", "e1", "e2", Some("oops"));
    assert!(qualified_evidence_relationship("e1", &broken)
        .err()
        .unwrap()
        .message()
        .starts_with("routing relationship r has invalid metadata_json: "));
    let mut removed = edge("r", "e1", "e2", None);
    removed.metadata_json = Some(ROUTED.replace("}", ",\"object_memory_id\":null}"));
    assert!(qualified_evidence_relationship("e1", &removed).err().unwrap().message().contains("object_memory_id"));
    let mut missing = edge("r", "e1", "e2", Some(ROUTED));
    missing.memory_id = None;
    assert!(qualified_evidence_relationship("e1", &missing).err().unwrap().message().contains("missing evidence"));
}

#[test]
fn a_walk_records_supports_and_fallbacks() {
    let seeds = evidence_memory_seeds(
        &vec![item("a", 5, AdmissionSource::Ann)],
        &vec![vec![entity("e1")]],
    );
    let mut walk = EvidenceTraversal::new(seeds.into_iter().next().unwrap());
    let state = walk.next_expansion().unwrap();
    assert_eq!((state.entity_id.as_str(), state.depth), ("e1", 0));
    let mut eligible = TextSet::new();
    eligible.insert("mem-r".to_string());
    let mut found: Vec<EvidenceCandidate> = Vec::new();
    walk.traverse_evidence_seed(&state, &vec![edge("r", "e1", "e2", Some(ROUTED))], &eligible, &mut found)
        .unwrap();
    let ids: Vec<&str> = found.iter().map(|c| c.memory_id.as_str()).collect();
    assert_eq!(ids, vec!["mem-r", "other"]);
    assert_eq!(found[0].routes[0].route.evidence_class, GraphEvidenceClass::EndpointSupport);
    assert_eq!(found[0].routes[0].route.hop_depth, 1);
    assert_eq!(found[1].routes[0].route.evidence_class, GraphEvidenceClass::EntityFallback);
    let next = walk.next_expansion().unwrap();
    assert_eq!((next.entity_id.as_str(), next.depth), ("e2", 1));
}

fn route(class: GraphEvidenceClass) -> GraphRouteObservation {
    GraphRouteObservation {
        seed_source: GraphSeedSource::Entity,
        seed_memory_id: None,
        seed_entity_id: "e".to_string(),
        matched_query_index: Some(0),
        matched_query_span: Some("kernel".to_string()),
        hop_depth: 1,
        relationship_ids: texts(&["r"]),
        predicate_names: texts(&["uses"]),
        traversal_directions: texts(&["forward"]),
        evidence_class: class,
        route_outcome: "active".to_string(),
    }
}

fn found() -> Vec<EvidenceCandidate> {
    let mut list: Vec<EvidenceCandidate> = Vec::new();
    record_evidence_candidate(&mut list, "fallback", score(9), false, route(GraphEvidenceClass::EntityFallback));
    record_evidence_candidate(&mut list, "support", score(1), false, route(GraphEvidenceClass::EndpointSupport));
    record_evidence_candidate(&mut list, "a", score(3), false, route(GraphEvidenceClass::EndpointSupport));
    list
}

#[test]
fn joins_append_supports_before_fallbacks() {
    let pool = vec![item("a", 5, AdmissionSource::Ann)];
    let options = EvidenceJoinOptions { max_graph_seeds: 3, max_graph_neighbors: 1 };
    let joined = evidence_graph_expand_pool(&pool, &found(), options, true);
    let ids: Vec<&str> = joined.pool.iter().map(|i| i.memory_id.as_str()).collect();
    assert_eq!(ids, vec!["a", "support"]);
    assert_eq!(joined.outcome, Some("active".to_string()));
    assert_eq!(joined.allocation_ranks, vec![("support".to_string(), 1), ("fallback".to_string(), 2)]);
    assert_eq!(joined.pool[0].admissions.len(), 2);
    let none = EvidenceJoinOptions { max_graph_seeds: 0, max_graph_neighbors: 1 };
    let same = evidence_graph_expand_pool(&pool, &found(), none, true);
    assert_eq!(same.pool.len(), 1);
    assert_eq!(same.outcome, Some("no_eligible_seed_route".to_string()));
}

#[test]
fn a_zero_with_a_minus_sign_ranks_below_the_other() {
    let mut list: Vec<EvidenceCandidate> = Vec::new();
    let class = GraphEvidenceClass::EndpointSupport;
    record_evidence_candidate(&mut list, "b", score(0), true, route(class));
    record_evidence_candidate(&mut list, "c", score(0), false, route(class));
    let order = evidence_candidate_order(&list);
    let ids: Vec<&str> = order.iter().map(|i| list[*i].memory_id.as_str()).collect();
    assert_eq!(ids, vec!["c", "b"]);
    record_evidence_candidate(&mut list, "b", score(0), false, route(class));
    assert!(!list[0].routes[0].negative_zero);
    record_evidence_candidate(&mut list, "b", score(0), true, route(class));
    assert!(!list[0].routes[0].negative_zero);
    assert!(evidence_route_is_better(&list[1].routes[0], &EvidenceCandidateRoute {
        activation: score(0),
        negative_zero: true,
        route: route(class),
    }));
}

#[test]
fn memories_without_a_route_are_passed_over() {
    let mut list = found();
    list.insert(0, EvidenceCandidate { memory_id: "bare".to_string(), routes: vec![] });
    let order = evidence_candidate_order(&list);
    let ids: Vec<&str> = order.iter().map(|i| list[*i].memory_id.as_str()).collect();
    assert_eq!(ids, vec!["a", "support", "fallback"]);
    let options = EvidenceJoinOptions { max_graph_seeds: 3, max_graph_neighbors: 9 };
    let joined = evidence_graph_expand_pool(&vec![], &list, options, false);
    assert_eq!(joined.pool.len(), 3);
    assert_eq!(joined.activations[0], ("bare".to_string(), score(LOWEST_SCORE_KEY)));
}

#[test]
fn hybrid_pools_carry_contents() {
    let mut request = pack_request(3, 1000);
    request.query_embeddings = Some(1);
    let dense = vec![item("a", 5, AdmissionSource::Ann)];
    let lexical = vec![item("b", 4, AdmissionSource::Bm25)];
    let hybrid = merge_hybrid_pool(&request, 10, &dense, &lexical, &vec![]);
    assert_eq!(hybrid.cos_top, score(5));
    let bare = merge_hybrid_pool(&request, 10, &vec![], &lexical, &vec![]);
    assert_eq!(bare.cos_top, score(LOWEST_SCORE_KEY));
    assert_eq!(LOWEST_SCORE_KEY, -i64::try_from(f64::MAX.to_bits()).unwrap());
    assert_eq!(hybrid.merged.len(), 2);
    let contents = vec![
        StoredContent { memory_id: "a".to_string(), content: "A".to_string(), observed_at: "t".to_string() },
        StoredContent { memory_id: "support".to_string(), content: "S".to_string(), observed_at: "t".to_string() },
        StoredContent { memory_id: "b".to_string(), content: "".to_string(), observed_at: "t".to_string() },
    ];
    let options = EvidenceJoinOptions { max_graph_seeds: 3, max_graph_neighbors: 5 };
    let pool = build_hybrid_rerank_pool_with_evidence_options(&request, hybrid, 10, &found(), options, &contents).unwrap();
    let ids: Vec<(&str, bool)> = pool.candidates.iter().map(|c| (c.memory_id.as_str(), c.consensus)).collect();
    assert_eq!(ids, vec![("a", true), ("support", false)]);
    assert_eq!(pool.graph_outcome, Some("active".to_string()));
    assert_eq!(pool.pool_width, 10);
}

#[test]
fn traces_admit_the_same() {
    let mut request = pack_request(3, 1000);
    request.query_embeddings = Some(1);
    let dense = vec![item("a", 5, AdmissionSource::Ann)];
    let contents = vec![
        StoredContent { memory_id: "a".to_string(), content: "A".to_string(), observed_at: "t".to_string() },
        StoredContent { memory_id: "support".to_string(), content: "S".to_string(), observed_at: "t".to_string() },
    ];
    let pool = || merge_hybrid_pool(&request, 10, &dense, &vec![], &vec![]);
    let options = EvidenceJoinOptions { max_graph_seeds: 3, max_graph_neighbors: 5 };
    let plain = build_hybrid_rerank_pool_with_evidence_options(&request, pool(), 10, &found(), options, &contents).unwrap();
    let traced =
        build_hybrid_rerank_pool_trace_with_evidence_options(&request, pool(), 10, &found(), options, &contents).unwrap();
    let of = |r: &RerankPool| r.candidates.iter().map(|c| c.memory_id.clone()).collect::<Vec<_>>();
    assert_eq!(of(&plain), of(&traced));
    assert_eq!(plain.graph_outcome, traced.graph_outcome);
    let tight = EvidenceJoinOptions { max_graph_seeds: 3, max_graph_neighbors: 1 };
    let capped =
        build_hybrid_rerank_pool_trace_with_evidence_options(&request, pool(), 10, &found(), tight, &contents)
            .unwrap();
    let left_out = capped.observed.iter().find(|o| o.memory_id == "fallback").unwrap();
    assert!(!left_out.admitted);
    assert_eq!(left_out.dropped_at, Some("graph_cap".to_string()));
    assert_eq!((left_out.graph_allocation_rank, left_out.merged_rank), (Some(2), 3));
    let untraced =
        build_hybrid_rerank_pool_with_evidence_options(&request, pool(), 10, &found(), tight, &contents)
            .unwrap();
    assert_eq!(of(&untraced), of(&capped));
    assert!(untraced.observed.iter().all(|o| o.memory_id != "fallback"));
    let wide = EvidenceJoinOptions { max_graph_seeds: 51, max_graph_neighbors: 1 };
    assert!(build_hybrid_rerank_pool_trace_with_evidence_options(&request, pool(), 10, &found(), wide, &contents).is_err());
}

#[test]
fn trace_options_are_bounded() {
    assert!(validate_trace_options(EvidenceJoinOptions { max_graph_seeds: 50, max_graph_neighbors: 50 }).is_ok());
    assert!(validate_trace_options(EvidenceJoinOptions { max_graph_seeds: 51, max_graph_neighbors: 1 }).is_err());
}

#[test]
fn graph_admissions_are_replaced() {
    let list = vec![("x".to_string(), score(2)), ("y".to_string(), score(3))];
    assert_eq!(find_activation(&list, "y"), Some(score(3)));
    assert_eq!(find_activation(&list, "z"), None);
    let before = item("x", 5, AdmissionSource::Ann);
    let after = replace_graph_admissions(&before, 4, score(2));
    assert_eq!(after.admissions.len(), 2);
    assert_eq!(after.admissions[0].source, AdmissionSource::Ann);
    assert_eq!(after.admissions[1].source, AdmissionSource::Graph);
    assert_eq!(after.admissions[1].source_rank, 4);
}

#[test]
fn a_reranked_pack_of_no_memories_is_empty() {
    let request = PackRequest { max_memories: 0, ..pack_request(5, 1000) };
    let pack = assemble_reranked_pack(&request, &vec![reranked("m", 5, false)]);
    assert!(pack.memory_ids.is_empty());
    assert!(pack.scores.is_empty());
    assert_eq!(pack.content, "");
    assert!(pack.truncated);
}

#[test]
fn a_negative_zero_ranks_below_the_other_zero() {
    let below = RerankCandidate { negative_zero: true, ..reranked("a", 0, true) };
    let request = PackRequest { min_score: score(0), ..pack_request(5, 1000) };
    let pack = assemble_reranked_pack(&request, &vec![below, reranked("b", 0, false)]);
    assert_eq!(pack.memory_ids, vec!["b".to_string(), "a".to_string()]);
}
