//! Searching memories: requests, candidates and ranked reports.

use vstd::prelude::*;

use crate::error::{invalid, invalid2, invalid3, invalid4, verdict, Error, Fault};
use crate::filters::{current_only, prepare_recall_filters, prepared_filters};
use crate::json::{text_of_string};
use crate::neighbors::{
    check_most, check_range, most_fault, page_total, range_fault, shown_rows, total_of_page,
};
use crate::order::TextSet;
use crate::pool::{clone_text, clone_texts};
use crate::ranking::{
    key_models, positions, sort_order, sorting, KeyModel, Score, SortKey, SortText,
};
use crate::requests::{FiltersModel, ScoreBreakdown, SearchFilters, SearchReport, SearchResult};
use crate::terms::{
    fts_query, is_shingle, prefix_terms, query_alias_shingles, query_terms, search_fts_query,
    search_prefix_terms, search_terms, search_variant_terms, variant_terms, words,
};
use crate::text::{
    begins_with, bounded_char_slice, char_window, decimal, decimal_of, list_contains, make_snippet,
    snippet, strip_prefix, text_eq, views,
};
use crate::validate::{first_of, refused_if};
use crate::vocabulary::{
    MAX_BATCH_QUERIES, MAX_BATCH_QUERY_LIMIT, MAX_SEARCH_LIMIT, MAX_SEARCH_OFFSET,
    MAX_SEARCH_QUERY_CHARS, MAX_SEARCH_TERMS, MAX_SEMANTIC_EMBEDDING_DIMS, MAX_SNIPPET_CHARS,
    DEFAULT_DURABLE_SILO, STATUS_ACTIVE,
};

verus! {

/// What is known of a query embedding.
#[derive(Clone, Copy)]
pub struct QueryEmbedding {
    /// How many values it has.
    pub dims: usize,
    /// Whether all of them are finite.
    pub finite: bool,
}

/// Request to search memories.
pub struct SearchRequest {
    /// Query.
    pub query: String,
    /// Filters.
    pub filters: SearchFilters,
    /// Results at most.
    pub limit: usize,
    /// Results to skip.
    pub offset: usize,
    /// Characters in a snippet at most.
    pub snippet_chars: usize,
    /// Whether the content comes back.
    pub include_content: bool,
    /// Whether the source comes back, and is searched.
    pub include_source: bool,
    /// Whether a semantic search may stand in.
    pub semantic_fallback: String,
    /// Whether looser lexical searches may stand in.
    pub lexical_fallback: String,
    /// Embedding of the query.
    pub embedding: Option<QueryEmbedding>,
    /// Whether token embeddings of the query come with the request.
    pub query_token_embedding: bool,
    /// Model of the token embeddings.
    pub token_model_id: Option<String>,
    /// Memories that the token embeddings are compared with at most; 0 for all.
    pub maxsim_shortlist: usize,
}

/// The model of [`SearchRequest`].
pub struct SearchModel {
    /// Query.
    pub query: Seq<char>,
    /// Filters.
    pub filters: FiltersModel,
    /// Results at most.
    pub limit: usize,
    /// Results to skip.
    pub offset: usize,
    /// Characters in a snippet at most.
    pub snippet_chars: usize,
    /// Whether the content comes back.
    pub include_content: bool,
    /// Whether the source comes back.
    pub include_source: bool,
    /// Whether a semantic search may stand in.
    pub semantic_fallback: Seq<char>,
    /// Whether looser lexical searches may stand in.
    pub lexical_fallback: Seq<char>,
    /// Embedding of the query.
    pub embedding: Option<QueryEmbedding>,
    /// Whether token embeddings come with the request.
    pub query_token_embedding: bool,
    /// Model of the token embeddings.
    pub token_model_id: Option<Seq<char>>,
    /// Memories that the token embeddings are compared with at most.
    pub maxsim_shortlist: usize,
}

impl View for SearchRequest {
    type V = SearchModel;

    open spec fn view(&self) -> SearchModel {
        SearchModel {
            query: self.query@,
            filters: self.filters@,
            limit: self.limit,
            offset: self.offset,
            snippet_chars: self.snippet_chars,
            include_content: self.include_content,
            include_source: self.include_source,
            semantic_fallback: self.semantic_fallback@,
            lexical_fallback: self.lexical_fallback@,
            embedding: self.embedding,
            query_token_embedding: self.query_token_embedding,
            token_model_id: text_of_string(self.token_model_id),
            maxsim_shortlist: self.maxsim_shortlist,
        }
    }
}

/// The fault of an optional embedding.
pub open spec fn embedding_fault(name: Seq<char>, embedding: Option<QueryEmbedding>) -> Option<
    Fault,
> {
    match embedding {
        None => None,
        Some(e) => first_of(
            refused_if(
                e.dims == 0 || e.dims > MAX_SEMANTIC_EMBEDDING_DIMS,
                name + " must contain between 1 and "@ + decimal(
                    MAX_SEMANTIC_EMBEDDING_DIMS as nat,
                ) + " values"@,
            ),
            refused_if(!e.finite, name + " values must be finite"@),
        ),
    }
}

/// Checks an optional embedding.
pub fn validate_optional_embedding(name: &str, embedding: Option<QueryEmbedding>) -> (r: Result<
    (),
    Error,
>)
    ensures
        verdict(r) == embedding_fault(name@, embedding),
{
    match embedding {
        None => Ok(()),
        Some(e) => {
            if e.dims == 0 || e.dims > MAX_SEMANTIC_EMBEDDING_DIMS {
                let number = decimal_of(MAX_SEMANTIC_EMBEDDING_DIMS as u64);
                return Err(
                    invalid4(name, " must contain between 1 and ", number.as_str(), " values"),
                );
            }
            if !e.finite {
                return Err(invalid2(name, " values must be finite"));
            }
            Ok(())
        },
    }
}

/// The fault of the numbers and choices of a request.
pub open spec fn search_shape_fault(m: SearchModel) -> Option<Fault> {
    first_of(
        range_fault("limit"@, m.limit as nat, MAX_SEARCH_LIMIT as nat),
        first_of(
            most_fault("offset"@, m.offset as nat, MAX_SEARCH_OFFSET as nat),
            first_of(
                most_fault("snippet_chars"@, m.snippet_chars as nat, MAX_SNIPPET_CHARS as nat),
                first_of(
                    refused_if(
                        m.semantic_fallback != "disabled"@ && m.semantic_fallback != "fallback"@,
                        "semantic_fallback must be disabled or fallback"@,
                    ),
                    first_of(
                        refused_if(
                            m.lexical_fallback != "disabled"@ && m.lexical_fallback
                                != "conservative"@,
                            "lexical_fallback must be disabled or conservative"@,
                        ),
                        embedding_fault("embedding"@, m.embedding),
                    ),
                ),
            ),
        ),
    )
}

/// The fault of the query of a request.
pub open spec fn query_fault(query: Seq<char>) -> Option<Fault> {
    first_of(
        refused_if(
            query.len() > MAX_SEARCH_QUERY_CHARS,
            "query must be at most "@ + decimal(MAX_SEARCH_QUERY_CHARS as nat)
                + " characters"@,
        ),
        first_of(
            refused_if(
                query_terms(query).len() > MAX_SEARCH_TERMS,
                "query must contain at most "@ + decimal(MAX_SEARCH_TERMS as nat)
                    + " searchable terms"@,
            ),
            refused_if(
                query_terms(query).len() == 0,
                "query must contain at least one searchable term"@,
            ),
        ),
    )
}

/// The fault of a request to search memories.
pub open spec fn search_fault(m: SearchModel) -> Option<Fault> {
    first_of(
        search_shape_fault(m),
        first_of(
            query_fault(m.query),
            crate::records::fault_of(prepared_filters(current_only(m.filters))),
        ),
    )
}

/// A request that was checked.
pub struct PreparedSearchRequest {
    /// Full-text query for all terms.
    pub fts_query: String,
    /// Full-text query for any term, where it says something else.
    pub fallback_fts_query: Option<String>,
    /// Full-text query for beginnings of words, where it says something else.
    pub prefix_fts_query: Option<String>,
    /// Terms.
    pub terms: Vec<String>,
    /// Runs of words of the query, which aliases are compared with.
    pub query_alias_shingles: TextSet,
    /// Filters.
    pub filters: SearchFilters,
    /// Results at most.
    pub limit: usize,
    /// Candidates that are read at most.
    pub candidate_pool_limit: usize,
    /// Results to skip.
    pub offset: usize,
    /// Characters in a snippet at most.
    pub snippet_chars: usize,
    /// Whether the content comes back.
    pub include_content: bool,
    /// Whether the source comes back.
    pub include_source: bool,
    /// Whether a semantic search may stand in.
    pub semantic_fallback: String,
    /// Whether looser lexical searches may stand in.
    pub lexical_fallback: String,
    /// Embedding of the query.
    pub embedding: Option<QueryEmbedding>,
    /// Whether token embeddings come with the request.
    pub query_token_embedding: bool,
    /// Model of the token embeddings.
    pub token_model_id: Option<String>,
    /// Memories that the token embeddings are compared with at most.
    pub maxsim_shortlist: usize,
}

/// The model of [`PreparedSearchRequest`].
pub struct PreparedModel {
    /// Full-text query for all terms.
    pub fts_query: Seq<char>,
    /// Full-text query for any term.
    pub fallback_fts_query: Option<Seq<char>>,
    /// Full-text query for beginnings of words.
    pub prefix_fts_query: Option<Seq<char>>,
    /// Terms.
    pub terms: Seq<Seq<char>>,
    /// Filters.
    pub filters: FiltersModel,
    /// Results at most.
    pub limit: usize,
    /// Candidates that are read at most.
    pub candidate_pool_limit: usize,
    /// Results to skip.
    pub offset: usize,
    /// Characters in a snippet at most.
    pub snippet_chars: usize,
    /// Whether the content comes back.
    pub include_content: bool,
    /// Whether the source comes back.
    pub include_source: bool,
    /// Whether a semantic search may stand in.
    pub semantic_fallback: Seq<char>,
    /// Whether looser lexical searches may stand in.
    pub lexical_fallback: Seq<char>,
    /// Embedding of the query.
    pub embedding: Option<QueryEmbedding>,
    /// Whether token embeddings come with the request.
    pub query_token_embedding: bool,
    /// Model of the token embeddings.
    pub token_model_id: Option<Seq<char>>,
    /// Memories that the token embeddings are compared with at most.
    pub maxsim_shortlist: usize,
}

impl View for PreparedSearchRequest {
    type V = PreparedModel;

    open spec fn view(&self) -> PreparedModel {
        PreparedModel {
            fts_query: self.fts_query@,
            fallback_fts_query: text_of_string(self.fallback_fts_query),
            prefix_fts_query: text_of_string(self.prefix_fts_query),
            terms: views(self.terms@),
            filters: self.filters@,
            limit: self.limit,
            candidate_pool_limit: self.candidate_pool_limit,
            offset: self.offset,
            snippet_chars: self.snippet_chars,
            include_content: self.include_content,
            include_source: self.include_source,
            semantic_fallback: self.semantic_fallback@,
            lexical_fallback: self.lexical_fallback@,
            embedding: self.embedding,
            query_token_embedding: self.query_token_embedding,
            token_model_id: text_of_string(self.token_model_id),
            maxsim_shortlist: self.maxsim_shortlist,
        }
    }
}

/// A text, unless it is the same as another.
pub open spec fn unless_same(text: Seq<char>, other: Seq<char>) -> Option<Seq<char>> {
    if text == other {
        None
    } else {
        Some(text)
    }
}

fn unless_equal(text: String, other: &str) -> (r: Option<String>)
    ensures
        text_of_string(r) == unless_same(text@, other@),
{
    if text_eq(text.as_str(), other) {
        None
    } else {
        Some(text)
    }
}

/// How many candidates are read at most: four times as many as results, at least
/// thirty-two more than results, and never more than four times the largest limit.
pub open spec fn pool_limit(limit: usize) -> int {
    let wide = if 4 * limit > limit + 32 {
        4 * limit
    } else {
        limit + 32
    };
    if wide > 4 * MAX_SEARCH_LIMIT {
        4 * MAX_SEARCH_LIMIT
    } else {
        wide
    }
}

/// What a request asks for.
pub open spec fn prepared_search(m: SearchModel) -> PreparedModel {
    let terms = query_terms(m.query);
    let exact = fts_query(variant_terms(terms), m.include_source, " AND "@);
    PreparedModel {
        fts_query: exact,
        fallback_fts_query: if terms.len() > 1 {
            unless_same(fts_query(variant_terms(terms), m.include_source, " OR "@), exact)
        } else {
            None
        },
        prefix_fts_query: if prefix_terms(terms).len() == 0 {
            None
        } else {
            unless_same(fts_query(prefix_terms(terms), m.include_source, " AND "@), exact)
        },
        terms,
        filters: prepared_filters(current_only(m.filters))->Ok_0,
        limit: m.limit,
        candidate_pool_limit: pool_limit(m.limit) as usize,
        offset: m.offset,
        snippet_chars: m.snippet_chars,
        include_content: m.include_content,
        include_source: m.include_source,
        semantic_fallback: m.semantic_fallback,
        lexical_fallback: m.lexical_fallback,
        embedding: m.embedding,
        query_token_embedding: m.query_token_embedding,
        token_model_id: m.token_model_id,
        maxsim_shortlist: m.maxsim_shortlist,
    }
}

/// Whether a prepared request holds the runs of words of a query.
pub open spec fn holds_shingles(p: PreparedSearchRequest, query: Seq<char>) -> bool {
    &&& p.query_alias_shingles.wf()
    &&& forall|t: Seq<char>| #[trigger]
        p.query_alias_shingles@.contains(t) <==> is_shingle(words(query), t)
}

fn check_search_shape(request: &SearchRequest) -> (r: Result<(), Error>)
    ensures
        verdict(r) == search_shape_fault(request@),
{
    if let Err(e) = check_range("limit", request.limit, MAX_SEARCH_LIMIT) {
        return Err(e);
    }
    if let Err(e) = check_most("offset", request.offset, MAX_SEARCH_OFFSET) {
        return Err(e);
    }
    if let Err(e) = check_most("snippet_chars", request.snippet_chars, MAX_SNIPPET_CHARS) {
        return Err(e);
    }
    let semantic = request.semantic_fallback.as_str();
    if !text_eq(semantic, "disabled") && !text_eq(semantic, "fallback") {
        return Err(invalid("semantic_fallback must be disabled or fallback"));
    }
    let lexical = request.lexical_fallback.as_str();
    if !text_eq(lexical, "disabled") && !text_eq(lexical, "conservative") {
        return Err(invalid("lexical_fallback must be disabled or conservative"));
    }
    validate_optional_embedding("embedding", request.embedding)
}

/// Checks a request to search memories.
pub fn prepare_search_request(request: &SearchRequest) -> (r: Result<PreparedSearchRequest, Error>)
    ensures
        match r {
            Ok(prepared) => {
                &&& search_fault(request@) is None
                &&& prepared@ == prepared_search(request@)
                &&& holds_shingles(prepared, request.query@)
            },
            Err(e) => search_fault(request@) == Some(e@),
        },
{
    if let Err(e) = check_search_shape(request) {
        return Err(e);
    }
    let query = request.query.as_str();
    if query.unicode_len() > MAX_SEARCH_QUERY_CHARS {
        let number = decimal_of(MAX_SEARCH_QUERY_CHARS as u64);
        return Err(invalid3("query must be at most ", number.as_str(), " characters"));
    }
    let terms = search_terms(query);
    assert(views(terms@).len() == terms@.len());
    if terms.len() > MAX_SEARCH_TERMS {
        let number = decimal_of(MAX_SEARCH_TERMS as u64);
        return Err(
            invalid3("query must contain at most ", number.as_str(), " searchable terms"),
        );
    }
    if terms.len() == 0 {
        return Err(invalid("query must contain at least one searchable term"));
    }
    let filters = match prepare_recall_filters(&request.filters) {
        Ok(filters) => filters,
        Err(e) => {
            return Err(e);
        },
    };
    let fts_terms = search_variant_terms(&terms);
    assert(views(fts_terms@).len() == fts_terms@.len());
    let exact = search_fts_query(&fts_terms, request.include_source, " AND ");
    let fallback_fts_query = if fts_terms.len() > 1 {
        unless_equal(
            search_fts_query(&fts_terms, request.include_source, " OR "),
            exact.as_str(),
        )
    } else {
        None
    };
    let beginnings = search_prefix_terms(&terms);
    assert(views(beginnings@).len() == beginnings@.len());
    let prefix_fts_query = if beginnings.len() == 0 {
        None
    } else {
        unless_equal(
            search_fts_query(&beginnings, request.include_source, " AND "),
            exact.as_str(),
        )
    };
    let wide: usize = if 4 * request.limit > request.limit + 32 {
        4 * request.limit
    } else {
        request.limit + 32
    };
    let candidate_pool_limit: usize = if wide > 4 * MAX_SEARCH_LIMIT {
        4 * MAX_SEARCH_LIMIT
    } else {
        wide
    };
    Ok(
        PreparedSearchRequest {
            fts_query: exact,
            fallback_fts_query,
            prefix_fts_query,
            terms,
            query_alias_shingles: query_alias_shingles(query),
            filters,
            limit: request.limit,
            candidate_pool_limit,
            offset: request.offset,
            snippet_chars: request.snippet_chars,
            include_content: request.include_content,
            include_source: request.include_source,
            semantic_fallback: request.semantic_fallback.clone(),
            lexical_fallback: request.lexical_fallback.clone(),
            embedding: request.embedding,
            query_token_embedding: request.query_token_embedding,
            token_model_id: clone_text(&request.token_model_id),
            maxsim_shortlist: request.maxsim_shortlist,
        },
    )
}

/// More candidates are read than results are asked for.
pub proof fn law_pool_is_wider_than_page(limit: usize)
    requires
        1 <= limit <= MAX_SEARCH_LIMIT,
    ensures
        limit < pool_limit(limit) <= 4 * MAX_SEARCH_LIMIT,
{
}

/// A memory that may be a result.
pub struct SearchCandidate {
    /// Memory id.
    pub memory_id: String,
    /// Active version id.
    pub version_id: String,
    /// Space.
    pub space: String,
    /// Silo.
    pub silo: String,
    /// Scope.
    pub scope: String,
    /// Project key.
    pub project_key: Option<String>,
    /// Kind.
    pub kind: String,
    /// Status.
    pub status: String,
    /// Summary.
    pub summary: Option<String>,
    /// Content, where it was read.
    pub content: Option<String>,
    /// Text that the snippet is cut from where the content was not read.
    pub snippet_text: String,
    /// Tags.
    pub tags: Vec<String>,
    /// Entity key.
    pub entity_key: Option<String>,
    /// Claim key.
    pub claim_key: Option<String>,
    /// Observation time.
    pub observed_at: String,
    /// When it was last current, as a day number.
    pub recency_jd: Option<Score>,
    /// Source reference.
    pub source_ref_json: Option<String>,
    /// Type of the source.
    pub source_type: Option<String>,
    /// Metadata.
    pub metadata_json: Option<String>,
    /// Confidence.
    pub confidence: Score,
    /// Whether it is pinned.
    pub pinned: bool,
    /// Relevance in the search that found it.
    pub bm25: Score,
    /// How loose the search was that found it.
    pub lexical_tier: u8,
    /// Score.
    pub score: Score,
    /// Parts of the score.
    pub scores: ScoreBreakdown,
}

/// The ids of candidates.
pub open spec fn candidate_ids(list: Seq<SearchCandidate>) -> Seq<Seq<char>> {
    list.map_values(|c: SearchCandidate| c.memory_id@)
}

/// Candidates with those of a looser search that are not among them.
pub open spec fn filled(list: Seq<SearchCandidate>, more: Seq<SearchCandidate>, tier: u8) -> Seq<
    SearchCandidate,
>
    decreases more.len(),
{
    if more.len() == 0 {
        list
    } else {
        let before = filled(list, more.drop_last(), tier);
        if candidate_ids(before).contains(more.last().memory_id@) {
            before
        } else {
            before.push(SearchCandidate { lexical_tier: tier, ..more.last() })
        }
    }
}

fn has_candidate(list: &Vec<SearchCandidate>, id: &str) -> (r: bool)
    ensures
        r == candidate_ids(list@).contains(id@),
{
    let ghost ids = candidate_ids(list@);
    for i in 0..list.len()
        invariant
            ids == candidate_ids(list@),
            forall|k: int| 0 <= k < i ==> #[trigger] ids[k] != id@,
    {
        assert(ids[i as int] == list@[i as int].memory_id@);
        if text_eq(list[i].memory_id.as_str(), id) {
            assert(ids.contains(id@));
            return true;
        }
    }
    assert(ids.len() == list@.len());
    false
}

/// Adds the candidates of a looser search that are not among the found ones.
pub fn fill_lexical_candidates(
    candidates: &mut Vec<SearchCandidate>,
    more: Vec<SearchCandidate>,
    lexical_tier: u8,
)
    ensures
        final(candidates)@ == filled(old(candidates)@, more@, lexical_tier),
{
    let ghost start = candidates@;
    let ghost all = more@;
    let n: usize = more.len();
    let mut rest = more;
    let mut i: usize = 0;
    assert(filled(start, all.take(0), lexical_tier) =~= start);
    while i < n
        invariant
            i <= n,
            n == all.len(),
            rest@ == all.skip(i as int),
            candidates@ == filled(start, all.take(i as int), lexical_tier),
        decreases n - i,
    {
        let candidate = rest.remove(0);
        proof {
            assert(candidate == all[i as int]);
            assert(rest@ =~= all.skip(i + 1));
            assert(all.take(i + 1).drop_last() =~= all.take(i as int));
            assert(all.take(i + 1).last() == candidate);
        }
        if !has_candidate(candidates, candidate.memory_id.as_str()) {
            let mut placed = candidate;
            placed.lexical_tier = lexical_tier;
            candidates.push(placed);
        }
        i = i + 1;
    }
    assert(all.take(n as int) =~= all);
}

/// Whether the search for beginnings of words is run, after a number of
/// candidates was found.
pub open spec fn tries_prefix(p: PreparedModel, found: nat) -> bool {
    p.lexical_fallback != "disabled"@ && found < p.limit && p.prefix_fts_query is Some
}

/// Tests [`tries_prefix`].
pub fn wants_prefix(p: &PreparedSearchRequest, found: usize) -> (r: bool)
    ensures
        r == tries_prefix(p@, found as nat),
{
    !text_eq(p.lexical_fallback.as_str(), "disabled") && found < p.limit
        && p.prefix_fts_query.is_some()
}

/// Whether the search for any term is run, after a number of candidates was found.
pub open spec fn tries_fallback(p: PreparedModel, found: nat) -> bool {
    p.lexical_fallback != "disabled"@ && found == 0 && p.fallback_fts_query is Some
}

/// Tests [`tries_fallback`].
pub fn wants_fallback(p: &PreparedSearchRequest, found: usize) -> (r: bool)
    ensures
        r == tries_fallback(p@, found as nat),
{
    !text_eq(p.lexical_fallback.as_str(), "disabled") && found == 0
        && p.fallback_fts_query.is_some()
}

/// The candidates of the lexical searches: those that have all terms, with the
/// ones that have beginnings of them where these are too few, and the ones that
/// have any term where there is none at all.
pub open spec fn lexical_pool(
    p: PreparedModel,
    exact: Seq<SearchCandidate>,
    prefix: Seq<SearchCandidate>,
    fallback: Seq<SearchCandidate>,
) -> Seq<SearchCandidate> {
    let some = if tries_prefix(p, exact.len()) {
        filled(exact, prefix, 1)
    } else {
        exact
    };
    if tries_fallback(p, some.len()) {
        filled(some, fallback, 2)
    } else {
        some
    }
}

/// Joins the candidates of the lexical searches.
pub fn lexical_candidates(
    p: &PreparedSearchRequest,
    exact: Vec<SearchCandidate>,
    prefix: Vec<SearchCandidate>,
    fallback: Vec<SearchCandidate>,
) -> (r: Vec<SearchCandidate>)
    ensures
        r@ == lexical_pool(p@, exact@, prefix@, fallback@),
{
    let mut candidates = exact;
    if wants_prefix(p, candidates.len()) {
        fill_lexical_candidates(&mut candidates, prefix, 1);
    }
    if wants_fallback(p, candidates.len()) {
        fill_lexical_candidates(&mut candidates, fallback, 2);
    }
    candidates
}

/// What looser searches add never takes the place of what was found, and comes
/// behind it.
pub proof fn law_looser_searches_only_add(
    list: Seq<SearchCandidate>,
    more: Seq<SearchCandidate>,
    tier: u8,
)
    ensures
        filled(list, more, tier).len() >= list.len(),
        filled(list, more, tier).take(list.len() as int) == list,
        forall|i: int|
            list.len() <= i < filled(list, more, tier).len() ==> (#[trigger] filled(
                list,
                more,
                tier,
            )[i]).lexical_tier == tier,
    decreases more.len(),
{
    if more.len() == 0 {
        assert(list.take(list.len() as int) =~= list);
    } else {
        law_looser_searches_only_add(list, more.drop_last(), tier);
        let before = filled(list, more.drop_last(), tier);
        let after = filled(list, more, tier);
        assert(after.take(list.len() as int) =~= before.take(list.len() as int));
    }
}

/// The sort key of a candidate: tighter searches first, then the greater score,
/// then the later observation, then the id.
pub open spec fn candidate_key(c: SearchCandidate) -> KeyModel {
    KeyModel {
        numbers: seq![c.lexical_tier as i128, (-c.score.key) as i128],
        texts: seq![(c.observed_at@, true), (c.memory_id@, false)],
    }
}

/// The sort keys of candidates.
pub open spec fn candidate_keys(list: Seq<SearchCandidate>) -> Seq<KeyModel> {
    list.map_values(|c: SearchCandidate| candidate_key(c))
}

fn candidate_order(list: &Vec<SearchCandidate>) -> (r: Vec<usize>)
    ensures
        positions(r@) == sorting(candidate_keys(list@)),
        r@.len() == list@.len(),
        forall|i: int| 0 <= i < r@.len() ==> (#[trigger] r@[i]) < list@.len(),
{
    let ghost wanted = candidate_keys(list@);
    let mut keys: Vec<SortKey> = Vec::new();
    assert(key_models(keys@) =~= wanted.take(0));
    for i in 0..list.len()
        invariant
            wanted == candidate_keys(list@),
            key_models(keys@) == wanted.take(i as int),
    {
        let c = &list[i];
        let mut numbers: Vec<i128> = Vec::new();
        numbers.push(c.lexical_tier as i128);
        numbers.push(-(c.score.key as i128));
        let mut texts: Vec<SortText> = Vec::new();
        texts.push(SortText { text: c.observed_at.clone(), descending: true });
        texts.push(SortText { text: c.memory_id.clone(), descending: false });
        let key = SortKey { numbers, texts };
        proof {
            assert(key@.numbers =~= wanted[i as int].numbers);
            assert(key@.texts =~= wanted[i as int].texts);
        }
        let ghost before = keys@;
        keys.push(key);
        assert(key_models(keys@) =~= key_models(before).push(wanted[i as int]));
        assert(wanted.take(i + 1) =~= wanted.take(i as int).push(wanted[i as int]));
    }
    assert(wanted.take(list@.len() as int) =~= wanted);
    let order = sort_order(keys.as_slice());
    proof {
        assert(positions(order@).len() == order@.len());
        assert forall|i: int| 0 <= i < order@.len() implies (#[trigger] order@[i])
            < list@.len() by {
            assert(positions(order@)[i] == order@[i]);
        }
    }
    order
}

/// The snippet of a candidate.
pub open spec fn candidate_snippet(c: SearchCandidate, p: PreparedModel) -> Seq<char> {
    if p.snippet_chars == 0 {
        Seq::empty()
    } else {
        match c.content {
            Some(content) => snippet(content@, p.terms, p.snippet_chars as nat),
            None => char_window(c.snippet_text@, 0, p.snippet_chars as nat),
        }
    }
}

/// An optional text that comes back only where it was asked for.
pub open spec fn if_asked(value: Option<String>, asked: bool) -> Option<Seq<char>> {
    if asked {
        text_of_string(value)
    } else {
        None
    }
}

/// A copy of an optional text, where it was asked for.
pub fn clone_if_asked(value: &Option<String>, asked: bool) -> (r: Option<String>)
    ensures
        text_of_string(r) == if_asked(*value, asked),
{
    if asked {
        clone_text(value)
    } else {
        None
    }
}

/// Whether a result shows a candidate.
pub open spec fn shows_candidate(
    c: SearchCandidate,
    rank: int,
    p: PreparedModel,
    r: SearchResult,
) -> bool {
    &&& r.rank == rank
    &&& r.memory_id@ == c.memory_id@
    &&& r.version_id@ == c.version_id@
    &&& r.score == c.score
    &&& r.scores == c.scores
    &&& r.space@ == c.space@
    &&& r.silo@ == c.silo@
    &&& r.scope@ == c.scope@
    &&& text_of_string(r.project_key) == text_of_string(c.project_key)
    &&& r.kind@ == c.kind@
    &&& r.status@ == c.status@
    &&& text_of_string(r.summary) == text_of_string(c.summary)
    &&& r.snippet@ == candidate_snippet(c, p)
    &&& text_of_string(r.content) == if_asked(c.content, p.include_content)
    &&& views(r.tags@) == views(c.tags@)
    &&& text_of_string(r.entity_key) == text_of_string(c.entity_key)
    &&& text_of_string(r.claim_key) == text_of_string(c.claim_key)
    &&& r.observed_at@ == c.observed_at@
    &&& text_of_string(r.source_ref_json) == if_asked(c.source_ref_json, p.include_source)
    &&& text_of_string(r.metadata_json) == text_of_string(c.metadata_json)
}

/// Turns a candidate into a result.
pub fn into_result(c: &SearchCandidate, rank: usize, p: &PreparedSearchRequest) -> (r: SearchResult)
    ensures
        shows_candidate(*c, rank as int, p@, r),
{
    let text = if p.snippet_chars == 0 {
        String::new()
    } else {
        match &c.content {
            Some(content) => make_snippet(content.as_str(), p.terms.as_slice(), p.snippet_chars),
            None => bounded_char_slice(c.snippet_text.as_str(), 0, p.snippet_chars),
        }
    };
    SearchResult {
        rank,
        memory_id: c.memory_id.clone(),
        version_id: c.version_id.clone(),
        score: c.score,
        scores: c.scores,
        space: c.space.clone(),
        silo: c.silo.clone(),
        scope: c.scope.clone(),
        project_key: clone_text(&c.project_key),
        kind: c.kind.clone(),
        status: c.status.clone(),
        summary: clone_text(&c.summary),
        snippet: text,
        content: clone_if_asked(&c.content, p.include_content),
        tags: clone_texts(&c.tags),
        entity_key: clone_text(&c.entity_key),
        claim_key: clone_text(&c.claim_key),
        observed_at: c.observed_at.clone(),
        source_ref_json: clone_if_asked(&c.source_ref_json, p.include_source),
        metadata_json: clone_text(&c.metadata_json),
    }
}

/// Whether a report shows the best of the candidates.
pub open spec fn reports_ranked(
    p: PreparedModel,
    candidates: Seq<SearchCandidate>,
    r: SearchReport,
) -> bool {
    let order = sorting(candidate_keys(candidates));
    let shown = shown_rows(candidates.len(), p.limit);
    &&& r.truncated == (candidates.len() > p.limit)
    &&& r.total_estimate == page_total(p.offset, shown, r.truncated)
    &&& r.results@.len() == shown
    &&& forall|i: int|
        0 <= i < shown ==> shows_candidate(
            candidates[order[i]],
            p.offset + i + 1,
            p,
            #[trigger] r.results@[i],
        )
}

/// Reports the best of candidates that were scored.
pub fn ranked_report(
    p: &PreparedSearchRequest,
    candidates: &Vec<SearchCandidate>,
    strategy: &str,
    semantic_attempted: bool,
    reason: &str,
) -> (r: SearchReport)
    requires
        p.limit <= MAX_SEARCH_LIMIT,
        p.offset <= MAX_SEARCH_OFFSET,
    ensures
        reports_ranked(p@, candidates@, r),
        r.strategy@ == strategy@,
        r.semantic_attempted == semantic_attempted,
        r.semantic_reason@ == reason@,
{
    let order = candidate_order(candidates);
    let ghost wanted = sorting(candidate_keys(candidates@));
    let truncated: bool = candidates.len() > p.limit;
    let n: usize = if truncated {
        p.limit
    } else {
        candidates.len()
    };
    let mut results: Vec<SearchResult> = Vec::new();
    for i in 0..n
        invariant
            n <= candidates@.len(),
            n <= MAX_SEARCH_LIMIT,
            p.offset <= MAX_SEARCH_OFFSET,
            order@.len() == candidates@.len(),
            positions(order@) == wanted,
            forall|k: int| 0 <= k < order@.len() ==> (#[trigger] order@[k]) < candidates@.len(),
            results@.len() == i,
            forall|k: int|
                0 <= k < i ==> shows_candidate(
                    candidates@[wanted[k]],
                    p.offset + k + 1,
                    p@,
                    #[trigger] results@[k],
                ),
    {
        let at: usize = order[i];
        assert(positions(order@)[i as int] == at);
        results.push(into_result(&candidates[at], p.offset + i + 1, p));
    }
    SearchReport {
        strategy: strategy.to_owned(),
        semantic_attempted,
        semantic_reason: reason.to_owned(),
        total_estimate: total_of_page(p.offset, n, truncated),
        truncated,
        results,
    }
}

/// The ranks of a report go up by one from the first after the offset, and the
/// report holds no more results than asked for; it is cut off exactly where there
/// were more candidates.
pub proof fn law_ranks_are_consecutive(
    p: PreparedModel,
    candidates: Seq<SearchCandidate>,
    r: SearchReport,
    i: int,
)
    requires
        reports_ranked(p, candidates, r),
        0 <= i < r.results@.len(),
    ensures
        r.results@[i].rank == p.offset + i + 1,
        r.results@.len() <= p.limit,
        r.truncated <==> candidates.len() > r.results@.len(),
{
    assert(shows_candidate(
        candidates[sorting(candidate_keys(candidates))[i]],
        p.offset + i + 1,
        p,
        r.results@[i],
    ));
}

/// What was read for a search: the candidates of the semantic search and those of
/// the lexical ones, scored.
pub struct SearchReads {
    /// Whether semantic search is built in.
    pub semantic_built: bool,
    /// Whether there is an index for embeddings like that of the query.
    pub index_exists: bool,
    /// Candidates of the semantic search.
    pub semantic: Vec<SearchCandidate>,
    /// Candidates of the lexical searches.
    pub lexical: Vec<SearchCandidate>,
}

/// Whether the semantic search is run before the lexical ones.
pub open spec fn tries_semantic(p: PreparedModel, built: bool, index_exists: bool) -> bool {
    built && p.semantic_fallback != "disabled"@ && p.embedding is Some && index_exists
}

/// Tests [`tries_semantic`].
pub fn wants_semantic(p: &PreparedSearchRequest, built: bool, index_exists: bool) -> (r: bool)
    ensures
        r == tries_semantic(p@, built, index_exists),
{
    built && !text_eq(p.semantic_fallback.as_str(), "disabled") && p.embedding.is_some()
        && index_exists
}

/// How a search went.
pub struct Route {
    /// Strategy.
    pub strategy: Seq<char>,
    /// Whether a semantic search was attempted.
    pub attempted: bool,
    /// Why it was or was not.
    pub reason: Seq<char>,
    /// Whether the results are those of the semantic search.
    pub semantic: bool,
}

/// How a search goes: by meaning where that finds something, else by words, and
/// by meaning again where words find nothing.
pub open spec fn search_route(p: PreparedModel, reads: SearchReads) -> Route {
    let disabled = p.semantic_fallback == "disabled"@;
    let lexical = "deterministic_fts_v0"@;
    if tries_semantic(p, reads.semantic_built, reads.index_exists) && reads.semantic@.len() > 0 {
        Route {
            strategy: "semantic_primary_v0"@,
            attempted: true,
            reason: "semantic_primary"@,
            semantic: true,
        }
    } else if disabled {
        Route { strategy: lexical, attempted: false, reason: "disabled_v0_1"@, semantic: false }
    } else if reads.lexical@.len() > 0 {
        Route { strategy: lexical, attempted: false, reason: "fts_results"@, semantic: false }
    } else if !reads.semantic_built {
        Route {
            strategy: lexical,
            attempted: false,
            reason: "semantic_feature_disabled"@,
            semantic: false,
        }
    } else if p.embedding is None {
        Route { strategy: lexical, attempted: false, reason: "missing_embedding"@, semantic: false }
    } else if !reads.index_exists {
        Route {
            strategy: lexical,
            attempted: false,
            reason: "semantic_index_missing"@,
            semantic: false,
        }
    } else {
        Route {
            strategy: "semantic_fallback"@,
            attempted: true,
            reason: "fts_empty"@,
            semantic: true,
        }
    }
}

/// Whether a report is that of a search.
pub open spec fn reports_search(p: PreparedModel, reads: SearchReads, r: SearchReport) -> bool {
    let route = search_route(p, reads);
    &&& r.strategy@ == route.strategy
    &&& r.semantic_attempted == route.attempted
    &&& r.semantic_reason@ == route.reason
    &&& reports_ranked(
        p,
        if route.semantic {
            reads.semantic@
        } else {
            reads.lexical@
        },
        r,
    )
}

/// Reports a search of which everything was read.
pub fn search_prepared(p: &PreparedSearchRequest, reads: &SearchReads) -> (r: SearchReport)
    requires
        p.limit <= MAX_SEARCH_LIMIT,
        p.offset <= MAX_SEARCH_OFFSET,
    ensures
        reports_search(p@, *reads, r),
{
    let lexical = "deterministic_fts_v0";
    if wants_semantic(p, reads.semantic_built, reads.index_exists) && reads.semantic.len() > 0 {
        return ranked_report(p, &reads.semantic, "semantic_primary_v0", true, "semantic_primary");
    }
    if text_eq(p.semantic_fallback.as_str(), "disabled") {
        return ranked_report(p, &reads.lexical, lexical, false, "disabled_v0_1");
    }
    if reads.lexical.len() > 0 {
        return ranked_report(p, &reads.lexical, lexical, false, "fts_results");
    }
    if !reads.semantic_built {
        return ranked_report(p, &reads.lexical, lexical, false, "semantic_feature_disabled");
    }
    if p.embedding.is_none() {
        return ranked_report(p, &reads.lexical, lexical, false, "missing_embedding");
    }
    if !reads.index_exists {
        return ranked_report(p, &reads.lexical, lexical, false, "semantic_index_missing");
    }
    ranked_report(p, &reads.semantic, "semantic_fallback", true, "fts_empty")
}

/// Searches memories: checks the request, and reports what was read for it.
pub fn search_memories(request: &SearchRequest, reads: &SearchReads) -> (r: Result<
    SearchReport,
    Error,
>)
    ensures
        match r {
            Ok(report) => search_fault(request@) is None && reports_search(
                prepared_search(request@),
                *reads,
                report,
            ),
            Err(e) => search_fault(request@) == Some(e@),
        },
{
    match prepare_search_request(request) {
        Ok(prepared) => Ok(search_prepared(&prepared, reads)),
        Err(e) => Err(e),
    }
}

/// Where semantic search is disabled, no search is semantic, whatever was read.
pub proof fn law_disabled_is_lexical(p: PreparedModel, reads: SearchReads)
    requires
        p.semantic_fallback == "disabled"@,
    ensures
        !search_route(p, reads).attempted,
        !search_route(p, reads).semantic,
        search_route(p, reads).reason == "disabled_v0_1"@,
{
}

/// The prefix of tags that hold an alias.
pub const ALIAS_TAG_PREFIX: &'static str = "alias::";

/// How far the source of a memory is trusted.
pub enum SourceTier {
    /// Written by the nightly consolidation.
    Harvested,
    /// Of another or an unknown source.
    Unknown,
    /// Written on purpose.
    Explicit,
}

/// How far a source is trusted.
pub open spec fn source_tier(source_type: Option<Seq<char>>, tags: Seq<Seq<char>>) -> SourceTier {
    if tags.contains("synthesis-derived"@) || source_type == Some("synthesis"@) {
        SourceTier::Harvested
    } else if source_type == Some("manual"@) || source_type == Some("mcp"@) {
        SourceTier::Explicit
    } else {
        SourceTier::Unknown
    }
}

/// Tells how far a source is trusted.
pub fn source_tier_of(source_type: &Option<String>, tags: &Vec<String>) -> (r: SourceTier)
    ensures
        r == source_tier(text_of_string(*source_type), views(tags@)),
{
    if list_contains(tags.as_slice(), "synthesis-derived") {
        return SourceTier::Harvested;
    }
    match source_type {
        Some(name) => if text_eq(name.as_str(), "synthesis") {
            SourceTier::Harvested
        } else if text_eq(name.as_str(), "manual") || text_eq(name.as_str(), "mcp") {
            SourceTier::Explicit
        } else {
            SourceTier::Unknown
        },
        None => SourceTier::Unknown,
    }
}

/// What speaks for a candidate, besides its relevance, age and confidence.
pub struct ScoreSignals {
    /// Its kind was asked for.
    pub kind: bool,
    /// Its entity was asked for.
    pub entity: bool,
    /// Its claim was asked for.
    pub claim: bool,
    /// A tag of it was asked for.
    pub tag: bool,
    /// An alias of it occurs in the query.
    pub alias: bool,
    /// Its scope was asked for.
    pub scope: bool,
    /// It is active.
    pub active: bool,
    /// It is pinned.
    pub pinned: bool,
    /// It is durable.
    pub durable: bool,
    /// How far its source is trusted.
    pub source: SourceTier,
}

/// Whether an optional key is among others.
pub open spec fn key_among(key: Option<Seq<char>>, keys: Seq<Seq<char>>) -> bool {
    match key {
        Some(text) => keys.contains(text),
        None => false,
    }
}

/// Whether a tag is an alias among some texts.
pub open spec fn alias_among(tag: Seq<char>, texts: Seq<Seq<char>>) -> bool {
    begins_with(tag, ALIAS_TAG_PREFIX@) && texts.contains(
        tag.skip(ALIAS_TAG_PREFIX@.len() as int),
    )
}

/// Whether signals are those of a candidate.
pub open spec fn signals_of(c: SearchCandidate, p: PreparedSearchRequest, s: ScoreSignals) -> bool {
    let tags = views(c.tags@);
    &&& s.kind == p@.filters.kinds.contains(c.kind@)
    &&& s.entity == key_among(text_of_string(c.entity_key), p@.filters.entity_keys)
    &&& s.claim == key_among(text_of_string(c.claim_key), p@.filters.claim_keys)
    &&& s.tag == exists|i: int|
        0 <= i < tags.len() && p@.filters.tags.contains(#[trigger] tags[i])
    &&& s.alias == exists|i: int|
        0 <= i < tags.len() && alias_among(#[trigger] tags[i], p.query_alias_shingles@)
    &&& s.scope == p@.filters.scopes.contains(c.scope@)
    &&& s.active == (c.status@ == STATUS_ACTIVE@)
    &&& s.pinned == c.pinned
    &&& s.durable == (c.silo@ == DEFAULT_DURABLE_SILO@)
    &&& s.source == source_tier(text_of_string(c.source_type), tags)
}

fn is_key_among(key: &Option<String>, keys: &Vec<String>) -> (r: bool)
    ensures
        r == key_among(text_of_string(*key), views(keys@)),
{
    match key {
        Some(text) => list_contains(keys.as_slice(), text.as_str()),
        None => false,
    }
}

fn any_tag_among(tags: &Vec<String>, wanted: &Vec<String>) -> (r: bool)
    ensures
        r == exists|i: int|
            0 <= i < views(tags@).len() && views(wanted@).contains(#[trigger] views(tags@)[i]),
{
    let ghost all = views(tags@);
    for i in 0..tags.len()
        invariant
            all == views(tags@),
            forall|k: int| 0 <= k < i ==> !views(wanted@).contains(#[trigger] all[k]),
    {
        assert(all[i as int] == tags@[i as int]@);
        if list_contains(wanted.as_slice(), tags[i].as_str()) {
            return true;
        }
    }
    assert(all.len() == tags@.len());
    false
}

fn any_alias_among(tags: &Vec<String>, texts: &TextSet) -> (r: bool)
    requires
        texts.wf(),
    ensures
        r == exists|i: int|
            0 <= i < views(tags@).len() && alias_among(#[trigger] views(tags@)[i], texts@),
{
    let ghost all = views(tags@);
    for i in 0..tags.len()
        invariant
            texts.wf(),
            all == views(tags@),
            forall|k: int| 0 <= k < i ==> !alias_among(#[trigger] all[k], texts@),
    {
        assert(all[i as int] == tags@[i as int]@);
        if let Some(alias) = strip_prefix(tags[i].as_str(), ALIAS_TAG_PREFIX) {
            if texts.contains(alias) {
                assert(alias_among(all[i as int], texts@));
                return true;
            }
        }
    }
    assert(all.len() == tags@.len());
    false
}

/// Tells what speaks for a candidate.
pub fn candidate_signals(c: &SearchCandidate, p: &PreparedSearchRequest) -> (r: ScoreSignals)
    requires
        p.query_alias_shingles.wf(),
    ensures
        signals_of(*c, *p, r),
{
    ScoreSignals {
        kind: list_contains(p.filters.kinds.as_slice(), c.kind.as_str()),
        entity: is_key_among(&c.entity_key, &p.filters.entity_keys),
        claim: is_key_among(&c.claim_key, &p.filters.claim_keys),
        tag: any_tag_among(&c.tags, &p.filters.tags),
        alias: any_alias_among(&c.tags, &p.query_alias_shingles),
        scope: list_contains(p.filters.scopes.as_slice(), c.scope.as_str()),
        active: text_eq(c.status.as_str(), STATUS_ACTIVE),
        pinned: c.pinned,
        durable: text_eq(c.silo.as_str(), DEFAULT_DURABLE_SILO),
        source: source_tier_of(&c.source_type, &c.tags),
    }
}

/// One query of a batch.
pub struct BatchQuery {
    /// Name.
    pub name: Option<String>,
    /// Query.
    pub query: String,
    /// Results at most, where it differs from that of the batch.
    pub limit: Option<usize>,
}

/// Request to run several searches.
pub struct BatchSearchRequest {
    /// Queries.
    pub queries: Vec<BatchQuery>,
    /// Filters of all of them.
    pub common_filters: SearchFilters,
    /// Results at most.
    pub limit: usize,
    /// Results to skip.
    pub offset: usize,
    /// Characters in a snippet at most.
    pub snippet_chars: usize,
    /// Whether the content comes back.
    pub include_content: bool,
    /// Whether the source comes back.
    pub include_source: bool,
    /// Whether a semantic search may stand in.
    pub semantic_fallback: String,
}

/// The limit of a query of a batch.
pub open spec fn batch_limit(request: BatchSearchRequest, i: int) -> usize {
    match request.queries@[i].limit {
        Some(limit) => limit,
        None => request.limit,
    }
}

/// The fault of the limits of the first `n` queries of a batch.
pub open spec fn batch_limits_fault(request: BatchSearchRequest, n: nat) -> Option<Fault>
    decreases n,
{
    if n == 0 {
        None
    } else {
        first_of(
            batch_limits_fault(request, (n - 1) as nat),
            range_fault("limit"@, batch_limit(request, n - 1) as nat, MAX_BATCH_QUERY_LIMIT as nat),
        )
    }
}

/// The fault of a batch.
pub open spec fn batch_fault(request: BatchSearchRequest) -> Option<Fault> {
    first_of(
        refused_if(
            request.queries@.len() == 0 || request.queries@.len() > MAX_BATCH_QUERIES,
            "queries must contain between 1 and "@ + decimal(MAX_BATCH_QUERIES as nat)
                + " items"@,
        ),
        batch_limits_fault(request, request.queries@.len()),
    )
}

proof fn lemma_batch_prefix(request: BatchSearchRequest, n: nat, m: nat)
    requires
        n <= m,
        batch_limits_fault(request, n) is Some,
    ensures
        batch_limits_fault(request, m) == batch_limits_fault(request, n),
    decreases m,
{
    if n < m {
        lemma_batch_prefix(request, n, (m - 1) as nat);
    }
}

/// Checks a batch.
pub fn validate_batch_search_request(request: &BatchSearchRequest) -> (r: Result<(), Error>)
    ensures
        verdict(r) == batch_fault(*request),
{
    if request.queries.len() == 0 || request.queries.len() > MAX_BATCH_QUERIES {
        let number = decimal_of(MAX_BATCH_QUERIES as u64);
        return Err(invalid3("queries must contain between 1 and ", number.as_str(), " items"));
    }
    for i in 0..request.queries.len()
        invariant
            0 < request.queries@.len() <= MAX_BATCH_QUERIES,
            batch_limits_fault(*request, i as nat) is None,
    {
        proof {
            if batch_limits_fault(*request, (i + 1) as nat) is Some {
                lemma_batch_prefix(*request, (i + 1) as nat, request.queries@.len());
            }
        }
        let limit: usize = match request.queries[i].limit {
            Some(limit) => limit,
            None => request.limit,
        };
        if let Err(e) = check_range("limit", limit, MAX_BATCH_QUERY_LIMIT) {
            return Err(e);
        }
    }
    Ok(())
}

/// The search of a query of a batch.
pub open spec fn batch_search(request: BatchSearchRequest, i: int) -> SearchModel {
    SearchModel {
        query: request.queries@[i].query@,
        filters: request.common_filters@,
        limit: batch_limit(request, i),
        offset: request.offset,
        snippet_chars: request.snippet_chars,
        include_content: request.include_content,
        include_source: request.include_source,
        semantic_fallback: request.semantic_fallback@,
        lexical_fallback: "conservative"@,
        embedding: None,
        query_token_embedding: false,
        token_model_id: None,
        maxsim_shortlist: 0,
    }
}

/// Makes the search of a query of a batch.
pub fn batch_query_request(request: &BatchSearchRequest, i: usize) -> (r: SearchRequest)
    requires
        i < request.queries@.len(),
    ensures
        r@ == batch_search(*request, i as int),
{
    let query = &request.queries[i];
    let limit: usize = match query.limit {
        Some(limit) => limit,
        None => request.limit,
    };
    SearchRequest {
        query: query.query.clone(),
        filters: request.common_filters.clone(),
        limit,
        offset: request.offset,
        snippet_chars: request.snippet_chars,
        include_content: request.include_content,
        include_source: request.include_source,
        semantic_fallback: request.semantic_fallback.clone(),
        lexical_fallback: "conservative".to_owned(),
        embedding: None,
        query_token_embedding: false,
        token_model_id: None,
        maxsim_shortlist: 0,
    }
}

/// What one query of a batch found.
pub struct BatchSearchItemReport {
    /// Name.
    pub name: Option<String>,
    /// Query.
    pub query: String,
    /// What it found.
    pub report: SearchReport,
}

/// What the queries of a batch found.
pub struct BatchSearchReport {
    /// One report for each query.
    pub results: Vec<BatchSearchItemReport>,
}

/// The fault of the first faulty search among the first `n` of a batch.
pub open spec fn batch_searches_fault(request: BatchSearchRequest, n: nat) -> Option<Fault>
    decreases n,
{
    if n == 0 {
        None
    } else {
        first_of(
            batch_searches_fault(request, (n - 1) as nat),
            search_fault(batch_search(request, n - 1)),
        )
    }
}

proof fn lemma_searches_prefix(request: BatchSearchRequest, n: nat, m: nat)
    requires
        n <= m,
        batch_searches_fault(request, n) is Some,
    ensures
        batch_searches_fault(request, m) == batch_searches_fault(request, n),
    decreases m,
{
    if n < m {
        lemma_searches_prefix(request, n, (m - 1) as nat);
    }
}

/// Whether an item reports a query of a batch.
pub open spec fn reports_query(
    request: BatchSearchRequest,
    reads: Seq<SearchReads>,
    i: int,
    item: BatchSearchItemReport,
) -> bool {
    &&& text_of_string(item.name) == text_of_string(request.queries@[i].name)
    &&& item.query@ == request.queries@[i].query@
    &&& reports_search(prepared_search(batch_search(request, i)), reads[i], item.report)
}

/// Runs several searches: checks the batch and every search, and reports what was
/// read for them.
pub fn batch_search_memories(request: &BatchSearchRequest, reads: &Vec<SearchReads>) -> (r: Result<
    BatchSearchReport,
    Error,
>)
    requires
        reads@.len() == request.queries@.len(),
    ensures
        match r {
            Ok(report) => {
                &&& batch_fault(*request) is None
                &&& batch_searches_fault(*request, request.queries@.len()) is None
                &&& report.results@.len() == request.queries@.len()
                &&& forall|i: int|
                    0 <= i < report.results@.len() ==> reports_query(
                        *request,
                        reads@,
                        i,
                        #[trigger] report.results@[i],
                    )
            },
            Err(e) => first_of(
                batch_fault(*request),
                batch_searches_fault(*request, request.queries@.len()),
            ) == Some(e@),
        },
{
    if let Err(e) = validate_batch_search_request(request) {
        return Err(e);
    }
    let mut results: Vec<BatchSearchItemReport> = Vec::new();
    for i in 0..request.queries.len()
        invariant
            reads@.len() == request.queries@.len(),
            batch_fault(*request) is None,
            batch_searches_fault(*request, i as nat) is None,
            results@.len() == i,
            forall|k: int|
                0 <= k < i ==> reports_query(*request, reads@, k, #[trigger] results@[k]),
    {
        proof {
            if batch_searches_fault(*request, (i + 1) as nat) is Some {
                lemma_searches_prefix(*request, (i + 1) as nat, request.queries@.len());
            }
        }
        let search_request = batch_query_request(request, i);
        let report = match search_memories(&search_request, &reads[i]) {
            Ok(report) => report,
            Err(e) => {
                return Err(e);
            },
        };
        results.push(
            BatchSearchItemReport {
                name: clone_text(&request.queries[i].name),
                query: request.queries[i].query.clone(),
                report,
            },
        );
    }
    Ok(BatchSearchReport { results })
}

} // verus!
