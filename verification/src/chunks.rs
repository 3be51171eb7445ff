//! Finding document chunks, and what is done with those that were found.

use vstd::prelude::*;

use crate::digest::{sha256_text, text_digest};
use crate::documents::{
    trimmed_or, trimmed_or_default, DEFAULT_DOCUMENT_GET_LIMIT, DEFAULT_DUPLICATE_CLUSTER_LIMIT,
    DEFAULT_PROMOTION_CANDIDATE_LIMIT,
};
use crate::error::{concat3, invalid, Error, Fault};
use crate::json::{as_text, text_of_string};
use crate::pool::clone_text;
use crate::ranking::{key_models, positions, sort_order, sorting, KeyModel, Score, SortKey, SortText};
use crate::terms::{query_terms, search_terms};
use crate::text::{collapse_whitespace, collapsed, decimal, decimal_of, join, joined, text_eq, views};
use crate::vocabulary::{DEFAULT_DOCUMENT_SEARCH_LIMIT, DOCUMENTS_SPACE, MAX_SEARCH_LIMIT};

verus! {

/// The number of results that a search returns: the default where none is asked
/// for, and never more than the maximum.
pub open spec fn bounded_limit(limit: usize, default: usize, max: usize) -> usize {
    if limit == 0 {
        default
    } else if limit > max {
        max
    } else {
        limit
    }
}

/// The number of results that a search returns.
pub fn bound_limit(limit: usize, default: usize, max: usize) -> (r: usize)
    ensures
        r == bounded_limit(limit, default, max),
{
    if limit == 0 {
        default
    } else if limit > max {
        max
    } else {
        limit
    }
}

/// How many chunks each arm of a search looks for: four times the results, at
/// least thirty-two more than them, and never more than four times the maximum.
pub open spec fn candidate_limit(limit: int) -> int {
    let wide = if 4 * limit > limit + 32 {
        4 * limit
    } else {
        limit + 32
    };
    if wide > 4 * MAX_SEARCH_LIMIT {
        4 * MAX_SEARCH_LIMIT
    } else {
        wide
    }
}

/// A document query for the full-text index: quoted terms, any of which may occur.
pub open spec fn chunk_query(terms: Seq<Seq<char>>) -> Seq<char> {
    joined(terms.map_values(|t: Seq<char>| "\""@ + t + "\""@), " OR "@)
}

/// Builds a document query for the full-text index.
pub fn document_fts_query(terms: &Vec<String>) -> (r: String)
    ensures
        r@ == chunk_query(views(terms@)),
{
    let ghost wanted = views(terms@).map_values(|t: Seq<char>| "\""@ + t + "\""@);
    let mut parts: Vec<String> = Vec::new();
    assert(views(parts@) =~= wanted.take(0));
    for i in 0..terms.len()
        invariant
            wanted == views(terms@).map_values(|t: Seq<char>| "\""@ + t + "\""@),
            views(parts@) == wanted.take(i as int),
    {
        let ghost before = parts@;
        parts.push(concat3("\"", terms[i].as_str(), "\""));
        assert(views(parts@) =~= views(before).push(wanted[i as int]));
        assert(wanted.take(i + 1) =~= wanted.take(i as int).push(wanted[i as int]));
    }
    assert(wanted.take(terms@.len() as int) =~= wanted);
    join(parts.as_slice(), " OR ")
}

/// The column that holds a chunk's snippet.
pub open spec fn snippet_column(snippet_chars: nat) -> Seq<char> {
    if snippet_chars == 0 {
        "''"@
    } else {
        "substr(se.content, 1, "@ + decimal(snippet_chars) + ")"@
    }
}

/// The column that holds a chunk's snippet.
pub fn document_snippet_sql(snippet_chars: usize) -> (r: String)
    ensures
        r@ == snippet_column(snippet_chars as nat),
{
    if snippet_chars == 0 {
        "''".to_owned()
    } else {
        let number = decimal_of(snippet_chars as u64);
        concat3("substr(se.content, 1, ", number.as_str(), ")")
    }
}

/// Request for a search over ingested document chunks.
pub struct DocumentSearchRequest {
    /// Free-text query.
    pub query: String,
    /// Space to search.
    pub space: Option<String>,
    /// Max results.
    pub limit: usize,
    /// Include full chunk content in each result.
    pub include_content: bool,
    /// Snippet length in characters (0 = no snippet).
    pub snippet_chars: usize,
    /// Dimension of the query embedding, where one was supplied.
    pub embedding: Option<usize>,
    /// Skip retrieval instrumentation for this search.
    pub skip_recall_log: bool,
}

/// What a document search asks the store.
pub struct DocumentSearchPlan {
    /// Space to search.
    pub space: String,
    /// Results at most.
    pub limit: usize,
    /// Chunks that each arm looks for.
    pub candidate_limit: usize,
    /// Query for the full-text index; empty where it is not searched.
    pub fts_query: String,
    /// Columns of a hit.
    pub columns: String,
    /// How the search is done.
    pub strategy: &'static str,
    /// Whether the semantic arm is tried.
    pub semantic_attempted: bool,
}

/// The columns of a hit.
pub open spec fn hit_columns(snippet_chars: nat, include_content: bool) -> Seq<char> {
    "se.id, se.space_name, se.source_type, se.source_path, se.source_uri, se.chunk_index, se.chunk_count, "@
        + snippet_column(snippet_chars) + ", "@ + if include_content {
        "se.content"@
    } else {
        "NULL"@
    }
}

/// Plans a search over document chunks.
pub fn plan_document_search(request: &DocumentSearchRequest) -> (r: DocumentSearchPlan)
    ensures
        r.space@ == trimmed_or(text_of_string(request.space), DOCUMENTS_SPACE@),
        r.limit == bounded_limit(
            request.limit,
            DEFAULT_DOCUMENT_SEARCH_LIMIT,
            MAX_SEARCH_LIMIT,
        ),
        r.candidate_limit == candidate_limit(r.limit as int),
        r.fts_query@ == chunk_query(query_terms(request.query@)),
        r.columns@ == hit_columns(request.snippet_chars as nat, request.include_content),
        r.semantic_attempted == request.embedding is Some,
        r.strategy@ == if request.embedding is Some {
            "hybrid_rrf_v0"@
        } else {
            "lexical_only_v0"@
        },
{
    let limit: usize = bound_limit(
        request.limit,
        DEFAULT_DOCUMENT_SEARCH_LIMIT,
        MAX_SEARCH_LIMIT,
    );
    let wide: usize = if 4 * limit > limit + 32 {
        4 * limit
    } else {
        limit + 32
    };
    let terms = search_terms(request.query.as_str());
    let snippet = document_snippet_sql(request.snippet_chars);
    let mut columns = "se.id, se.space_name, se.source_type, se.source_path, se.source_uri, se.chunk_index, se.chunk_count, ".to_owned();
    columns.append(snippet.as_str());
    columns.append(", ");
    columns.append(
        if request.include_content {
            "se.content"
        } else {
            "NULL"
        },
    );
    let semantic: bool = request.embedding.is_some();
    DocumentSearchPlan {
        space: trimmed_or_default(as_text(&request.space), DOCUMENTS_SPACE),
        limit,
        candidate_limit: if wide > 4 * MAX_SEARCH_LIMIT {
            4 * MAX_SEARCH_LIMIT
        } else {
            wide
        },
        fts_query: document_fts_query(&terms),
        columns,
        strategy: if semantic {
            "hybrid_rrf_v0"
        } else {
            "lexical_only_v0"
        },
        semantic_attempted: semantic,
    }
}

/// One chunk that an arm of a search found.
pub struct DocumentChunkHit {
    /// Id of the chunk.
    pub source_episode_id: String,
    /// Space.
    pub space: String,
    /// Provenance type.
    pub source_type: String,
    /// Source path.
    pub source_path: Option<String>,
    /// Source URI.
    pub source_uri: Option<String>,
    /// Position within the source.
    pub chunk_index: i64,
    /// Chunks of the source.
    pub chunk_count: i64,
    /// Snippet.
    pub snippet: String,
    /// Content, when requested.
    pub content: Option<String>,
}

/// A chunk that was found, with its places in the ranked lists of both arms.
pub struct MergedChunk<'a> {
    /// The hit that came first, the semantic arm before the lexical one.
    pub hit: &'a DocumentChunkHit,
    /// Its zero-based ranks in the order in which they were found.
    pub ranks: Vec<usize>,
    /// Whether the semantic arm found it.
    pub semantic: bool,
    /// Whether the lexical arm found it.
    pub lexical: bool,
}

/// The model of a merged chunk.
pub struct MergedModel {
    /// The hit that came first.
    pub hit: DocumentChunkHit,
    /// Its ranks.
    pub ranks: Seq<usize>,
    /// Whether the semantic arm found it.
    pub semantic: bool,
    /// Whether the lexical arm found it.
    pub lexical: bool,
}

/// The models of merged chunks.
pub open spec fn merged_models(list: Seq<MergedChunk<'_>>) -> Seq<MergedModel> {
    list.map_values(
        |m: MergedChunk<'_>|
            MergedModel {
                hit: *m.hit,
                ranks: m.ranks@,
                semantic: m.semantic,
                lexical: m.lexical,
            },
    )
}

/// The first position of a chunk among merged ones.
pub open spec fn find_chunk(list: Seq<MergedModel>, id: Seq<char>) -> Option<int>
    decreases list.len(),
{
    if list.len() == 0 {
        None
    } else {
        match find_chunk(list.drop_last(), id) {
            Some(i) => Some(i),
            None => if list.last().hit.source_episode_id@ == id {
                Some(list.len() - 1)
            } else {
                None
            },
        }
    }
}

/// Merged chunks after one more hit of an arm.
pub open spec fn with_hit(
    list: Seq<MergedModel>,
    hit: DocumentChunkHit,
    rank: usize,
    semantic: bool,
) -> Seq<MergedModel> {
    match find_chunk(list, hit.source_episode_id@) {
        Some(i) => list.update(
            i,
            MergedModel {
                hit: list[i].hit,
                ranks: list[i].ranks.push(rank),
                semantic: list[i].semantic || semantic,
                lexical: list[i].lexical || !semantic,
            },
        ),
        None => list.push(
            MergedModel { hit, ranks: seq![rank], semantic, lexical: !semantic },
        ),
    }
}

/// Merged chunks after the first `n` hits of an arm.
pub open spec fn with_hits(
    list: Seq<MergedModel>,
    hits: Seq<DocumentChunkHit>,
    semantic: bool,
    n: nat,
) -> Seq<MergedModel>
    decreases n,
{
    if n == 0 {
        list
    } else {
        with_hit(
            with_hits(list, hits, semantic, (n - 1) as nat),
            hits[n - 1],
            (n - 1) as usize,
            semantic,
        )
    }
}

/// The chunks that either arm found, the semantic arm first.
pub open spec fn merged_hits(
    semantic: Seq<DocumentChunkHit>,
    lexical: Seq<DocumentChunkHit>,
) -> Seq<MergedModel> {
    with_hits(
        with_hits(Seq::empty(), semantic, true, semantic.len()),
        lexical,
        false,
        lexical.len(),
    )
}

proof fn lemma_find_chunk(list: Seq<MergedModel>, id: Seq<char>, i: int)
    requires
        0 <= i <= list.len(),
        forall|j: int| 0 <= j < i ==> (#[trigger] list[j]).hit.source_episode_id@ != id,
        i < list.len() ==> list[i].hit.source_episode_id@ == id,
    ensures
        find_chunk(list, id) == if i < list.len() {
            Some(i)
        } else {
            None
        },
    decreases list.len(),
{
    if list.len() > 0 {
        let rest = list.drop_last();
        assert forall|j: int| 0 <= j < rest.len() implies rest[j] == list[j] by {}
        if i < list.len() {
            lemma_find_chunk(rest, id, i);
        } else {
            lemma_find_chunk(rest, id, i - 1);
            assert(list[list.len() - 1].hit.source_episode_id@ != id);
        }
    }
}

fn copy_ranks(list: &Vec<usize>) -> (r: Vec<usize>)
    ensures
        r@ == list@,
{
    let mut out: Vec<usize> = Vec::new();
    for i in 0..list.len()
        invariant
            out@ == list@.take(i as int),
    {
        out.push(list[i]);
        assert(list@.take(i + 1) =~= list@.take(i as int).push(list@[i as int]));
    }
    assert(list@.take(list@.len() as int) =~= list@);
    out
}

fn merge_hit<'a>(
    list: &mut Vec<MergedChunk<'a>>,
    hit: &'a DocumentChunkHit,
    rank: usize,
    semantic: bool,
)
    ensures
        merged_models(final(list)@) == with_hit(merged_models(old(list)@), *hit, rank, semantic),
{
    let ghost before = merged_models(list@);
    let n: usize = list.len();
    let mut i: usize = 0;
    while i < n && !text_eq(
        list[i].hit.source_episode_id.as_str(),
        hit.source_episode_id.as_str(),
    )
        invariant
            i <= n,
            n == list@.len(),
            before == merged_models(list@),
            forall|j: int|
                0 <= j < i ==> (#[trigger] before[j]).hit.source_episode_id@
                    != hit.source_episode_id@,
        decreases n - i,
    {
        assert(before[i as int].hit.source_episode_id@ != hit.source_episode_id@);
        i = i + 1;
    }
    proof {
        if i < n {
            assert(before[i as int].hit.source_episode_id@ == hit.source_episode_id@);
        }
        lemma_find_chunk(before, hit.source_episode_id@, i as int);
    }
    if i == n {
        let mut ranks: Vec<usize> = Vec::new();
        ranks.push(rank);
        assert(ranks@ =~= seq![rank]);
        let ghost old_list = list@;
        list.push(MergedChunk { hit, ranks, semantic, lexical: !semantic });
        assert(merged_models(list@) =~= merged_models(old_list).push(
            MergedModel { hit: *hit, ranks: seq![rank], semantic, lexical: !semantic },
        ));
    } else {
        let mut ranks = copy_ranks(&list[i].ranks);
        ranks.push(rank);
        let entry = MergedChunk {
            hit: list[i].hit,
            ranks,
            semantic: list[i].semantic || semantic,
            lexical: list[i].lexical || !semantic,
        };
        let ghost model = MergedModel {
            hit: *entry.hit,
            ranks: entry.ranks@,
            semantic: entry.semantic,
            lexical: entry.lexical,
        };
        list.set(i, entry);
        assert(merged_models(list@) =~= before.update(i as int, model));
    }
}

/// Merges the ranked lists of both arms. The score of a chunk is a function of
/// its ranks.
pub fn merge_document_hits<'a>(
    semantic: &'a Vec<DocumentChunkHit>,
    lexical: &'a Vec<DocumentChunkHit>,
) -> (r: Vec<MergedChunk<'a>>)
    ensures
        merged_models(r@) == merged_hits(semantic@, lexical@),
{
    let mut out: Vec<MergedChunk<'a>> = Vec::new();
    assert(merged_models(out@) =~= Seq::empty());
    for i in 0..semantic.len()
        invariant
            merged_models(out@) == with_hits(Seq::empty(), semantic@, true, i as nat),
    {
        merge_hit(&mut out, &semantic[i], i, true);
    }
    let ghost base = merged_models(out@);
    for i in 0..lexical.len()
        invariant
            merged_models(out@) == with_hits(base, lexical@, false, i as nat),
    {
        merge_hit(&mut out, &lexical[i], i, false);
    }
    out
}

/// One matched document chunk, with a citation back to its source.
pub struct DocumentSearchResult {
    /// 1-based result rank.
    pub rank: usize,
    /// Id of the chunk.
    pub source_episode_id: String,
    /// Space.
    pub space: String,
    /// Provenance type.
    pub source_type: String,
    /// Source document path.
    pub source_path: Option<String>,
    /// Source document URI.
    pub source_uri: Option<String>,
    /// Chunk position within the source.
    pub chunk_index: i64,
    /// Total chunks in the source.
    pub chunk_count: i64,
    /// Snippet of the chunk content.
    pub snippet: String,
    /// Full chunk content (when requested).
    pub content: Option<String>,
    /// Fused relevance score.
    pub score: Score,
    /// Which arms matched: `hybrid`, `semantic`, or `lexical`.
    pub match_type: &'static str,
}

/// Which arms found a chunk.
pub open spec fn match_type(semantic: bool, lexical: bool) -> Seq<char> {
    if semantic && lexical {
        "hybrid"@
    } else if semantic {
        "semantic"@
    } else {
        "lexical"@
    }
}

/// The sort key of a merged chunk: better scores first, then by id.
pub open spec fn chunk_key(chunk: MergedModel, score: Score) -> KeyModel {
    KeyModel {
        numbers: seq![(-(score.key as int)) as i128],
        texts: seq![(chunk.hit.source_episode_id@, false)],
    }
}

/// The sort keys of merged chunks.
pub open spec fn chunk_keys(list: Seq<MergedModel>, scores: Seq<Score>) -> Seq<KeyModel> {
    Seq::new(list.len(), |i: int| chunk_key(list[i], scores[i]))
}

/// Whether a result shows a merged chunk at a rank.
pub open spec fn shows(
    result: DocumentSearchResult,
    chunk: MergedModel,
    score: Score,
    rank: int,
) -> bool {
    &&& result.rank == rank
    &&& result.source_episode_id@ == chunk.hit.source_episode_id@
    &&& result.space@ == chunk.hit.space@
    &&& result.source_type@ == chunk.hit.source_type@
    &&& text_of_string(result.source_path) == text_of_string(chunk.hit.source_path)
    &&& text_of_string(result.source_uri) == text_of_string(chunk.hit.source_uri)
    &&& result.chunk_index == chunk.hit.chunk_index
    &&& result.chunk_count == chunk.hit.chunk_count
    &&& result.snippet@ == chunk.hit.snippet@
    &&& text_of_string(result.content) == text_of_string(chunk.hit.content)
    &&& result.score == score
    &&& result.match_type@ == match_type(chunk.semantic, chunk.lexical)
}

fn chunk_order(list: &Vec<MergedChunk<'_>>, scores: &Vec<Score>) -> (r: Vec<usize>)
    requires
        scores@.len() == list@.len(),
    ensures
        positions(r@) == sorting(chunk_keys(merged_models(list@), scores@)),
        r@.len() == list@.len(),
        forall|i: int| 0 <= i < r@.len() ==> (#[trigger] r@[i]) < list@.len(),
{
    let ghost wanted = chunk_keys(merged_models(list@), scores@);
    let mut keys: Vec<SortKey> = Vec::new();
    assert(key_models(keys@) =~= wanted.take(0));
    for i in 0..list.len()
        invariant
            scores@.len() == list@.len(),
            wanted == chunk_keys(merged_models(list@), scores@),
            key_models(keys@) == wanted.take(i as int),
    {
        let mut numbers: Vec<i128> = Vec::new();
        numbers.push(-(scores[i].key as i128));
        let mut texts: Vec<SortText> = Vec::new();
        texts.push(
            SortText { text: list[i].hit.source_episode_id.clone(), descending: false },
        );
        let key = SortKey { numbers, texts };
        proof {
            assert(key@.numbers =~= wanted[i as int].numbers);
            assert(key@.texts =~= wanted[i as int].texts);
        }
        let ghost before = keys@;
        keys.push(key);
        assert(key_models(keys@) =~= key_models(before).push(wanted[i as int]));
        assert(wanted.take(i + 1) =~= wanted.take(i as int).push(wanted[i as int]));
    }
    assert(wanted.take(list@.len() as int) =~= wanted);
    let order = sort_order(keys.as_slice());
    proof {
        assert forall|i: int| 0 <= i < order@.len() implies (#[trigger] order@[i])
            < list@.len() by {
            assert(positions(order@)[i] == order@[i]);
        }
    }
    order
}

/// Whether `r` are the best chunks of a merged list, at most `limit`.
pub open spec fn ranks_chunks(
    r: Seq<DocumentSearchResult>,
    models: Seq<MergedModel>,
    scores: Seq<Score>,
    limit: usize,
) -> bool {
    let order = sorting(chunk_keys(models, scores));
    &&& r.len() == if limit < models.len() {
        limit as int
    } else {
        models.len() as int
    }
    &&& forall|i: int|
        0 <= i < r.len() ==> shows(#[trigger] r[i], models[order[i]], scores[order[i]], i + 1)
}

/// Ranks merged chunks by their fused scores, ties by id, and keeps the best.
pub fn document_rrf_merge(list: &Vec<MergedChunk<'_>>, scores: &Vec<Score>, limit: usize) -> (r:
    Vec<DocumentSearchResult>)
    requires
        scores@.len() == list@.len(),
    ensures
        ranks_chunks(r@, merged_models(list@), scores@, limit),
{
    let ghost models = merged_models(list@);
    let ghost wanted = sorting(chunk_keys(models, scores@));
    let order = chunk_order(list, scores);
    let n: usize = if limit < order.len() {
        limit
    } else {
        order.len()
    };
    let mut out: Vec<DocumentSearchResult> = Vec::new();
    for i in 0..n
        invariant
            n <= order@.len(),
            order@.len() == list@.len(),
            scores@.len() == list@.len(),
            models == merged_models(list@),
            positions(order@) == wanted,
            forall|k: int| 0 <= k < order@.len() ==> (#[trigger] order@[k]) < list@.len(),
            out@.len() == i,
            forall|k: int|
                0 <= k < i ==> shows(
                    #[trigger] out@[k],
                    models[wanted[k]],
                    scores@[wanted[k]],
                    k + 1,
                ),
    {
        let at: usize = order[i];
        assert(positions(order@)[i as int] == at);
        let entry = &list[at];
        assert(models[at as int].hit == *entry.hit);
        out.push(
            DocumentSearchResult {
                rank: i + 1,
                source_episode_id: entry.hit.source_episode_id.clone(),
                space: entry.hit.space.clone(),
                source_type: entry.hit.source_type.clone(),
                source_path: clone_text(&entry.hit.source_path),
                source_uri: clone_text(&entry.hit.source_uri),
                chunk_index: entry.hit.chunk_index,
                chunk_count: entry.hit.chunk_count,
                snippet: entry.hit.snippet.clone(),
                content: clone_text(&entry.hit.content),
                score: scores[at],
                match_type: if entry.semantic && entry.lexical {
                    "hybrid"
                } else if entry.semantic {
                    "semantic"
                } else {
                    "lexical"
                },
            },
        );
    }
    out
}

/// What searching documents came to.
pub struct DocumentSearchReport {
    /// How the search was done.
    pub strategy: &'static str,
    /// Whether the semantic arm was tried.
    pub semantic_attempted: bool,
    /// The space.
    pub space: String,
    /// The best chunks.
    pub results: Vec<DocumentSearchResult>,
}

/// Searches documents, given the chunks that were found and their scores.
pub fn search_documents(
    request: &DocumentSearchRequest,
    list: &Vec<MergedChunk<'_>>,
    scores: &Vec<Score>,
) -> (r: DocumentSearchReport)
    requires
        scores@.len() == list@.len(),
    ensures
        r.strategy@ == if request.embedding is Some {
            "hybrid_rrf_v0"@
        } else {
            "lexical_only_v0"@
        },
        r.semantic_attempted == request.embedding is Some,
        r.space@ == trimmed_or(text_of_string(request.space), DOCUMENTS_SPACE@),
        ranks_chunks(
            r.results@,
            merged_models(list@),
            scores@,
            bounded_limit(request.limit, DEFAULT_DOCUMENT_SEARCH_LIMIT, MAX_SEARCH_LIMIT),
        ),
{
    let plan = plan_document_search(request);
    let results = document_rrf_merge(list, scores, plan.limit);
    DocumentSearchReport {
        strategy: plan.strategy,
        semantic_attempted: plan.semantic_attempted,
        space: plan.space,
        results,
    }
}

proof fn lemma_find_chunk_found(list: Seq<MergedModel>, id: Seq<char>)
    ensures
        match find_chunk(list, id) {
            Some(i) => 0 <= i < list.len() && list[i].hit.source_episode_id@ == id,
            None => forall|j: int|
                0 <= j < list.len() ==> (#[trigger] list[j]).hit.source_episode_id@ != id,
        },
    decreases list.len(),
{
    if list.len() > 0 {
        lemma_find_chunk_found(list.drop_last(), id);
        assert forall|j: int| 0 <= j < list.len() - 1 implies list.drop_last()[j] == list[j] by {}
    }
}

/// Whether no chunk occurs twice.
pub open spec fn distinct_chunks(list: Seq<MergedModel>) -> bool {
    forall|i: int, j: int|
        0 <= i < j < list.len() ==> (#[trigger] list[i]).hit.source_episode_id@ != (
        #[trigger] list[j]).hit.source_episode_id@
}

proof fn lemma_with_hit_distinct(
    list: Seq<MergedModel>,
    hit: DocumentChunkHit,
    rank: usize,
    semantic: bool,
)
    requires
        distinct_chunks(list),
    ensures
        distinct_chunks(with_hit(list, hit, rank, semantic)),
{
    lemma_find_chunk_found(list, hit.source_episode_id@);
}

proof fn lemma_with_hits_distinct(
    list: Seq<MergedModel>,
    hits: Seq<DocumentChunkHit>,
    semantic: bool,
    n: nat,
)
    requires
        distinct_chunks(list),
    ensures
        distinct_chunks(with_hits(list, hits, semantic, n)),
    decreases n,
{
    if n > 0 {
        lemma_with_hits_distinct(list, hits, semantic, (n - 1) as nat);
        lemma_with_hit_distinct(
            with_hits(list, hits, semantic, (n - 1) as nat),
            hits[n - 1],
            (n - 1) as usize,
            semantic,
        );
    }
}

/// However often the arms found a chunk, it is merged into one.
pub proof fn law_merged_chunks_are_distinct(
    semantic: Seq<DocumentChunkHit>,
    lexical: Seq<DocumentChunkHit>,
)
    ensures
        distinct_chunks(merged_hits(semantic, lexical)),
{
    let empty = Seq::<MergedModel>::empty();
    lemma_with_hits_distinct(empty, semantic, true, semantic.len());
    lemma_with_hits_distinct(
        with_hits(empty, semantic, true, semantic.len()),
        lexical,
        false,
        lexical.len(),
    );
}

/// What is logged of a query: the query and its digest, unless it is empty.
pub fn logged_query(query: &str) -> (r: Option<(String, String)>)
    ensures
        r is Some == (query@.len() > 0),
        r matches Some(pair) ==> pair.0@ == query@ && pair.1@ == text_digest(query@),
{
    if query.is_empty() {
        None
    } else {
        Some((query.to_owned(), sha256_text(query)))
    }
}

/// Request to fetch a document's chunks by path or by chunk id.
#[derive(Debug, Clone, PartialEq, Default)]
pub struct DocumentGetRequest {
    /// Fetch all chunks of the document at this path.
    pub source_path: Option<String>,
    /// Fetch a single chunk by its id.
    pub source_episode_id: Option<String>,
    /// Space to look in.
    pub space: Option<String>,
    /// Include full chunk content (else metadata only).
    pub include_content: bool,
    /// Max chunks to return.
    pub limit: usize,
}

/// One stored document chunk with full provenance.
#[derive(Debug, Clone, PartialEq)]
pub struct DocumentChunk {
    /// Id of the chunk.
    pub source_episode_id: String,
    /// Space.
    pub space: String,
    /// Provenance type.
    pub source_type: String,
    /// Source document path.
    pub source_path: Option<String>,
    /// Source document URI.
    pub source_uri: Option<String>,
    /// Chunk position within the source.
    pub chunk_index: i64,
    /// Total chunks in the source.
    pub chunk_count: i64,
    /// Content hash.
    pub content_sha256: Option<String>,
    /// Ingest status.
    pub ingest_status: String,
    /// Chunk content (when requested).
    pub content: Option<String>,
}

/// Result of a document fetch.
#[derive(Debug, Clone, PartialEq)]
pub struct DocumentGetReport {
    /// Space searched.
    pub space: String,
    /// Chunks, ordered by their position.
    pub chunks: Vec<DocumentChunk>,
}

/// A statement with the space and the value that it is run with.
pub struct DocumentGetPlan {
    /// Space to look in.
    pub space: String,
    /// The id or path looked for.
    pub selector_value: String,
    /// The statement.
    pub sql: String,
}

/// The statement that fetches chunks.
pub open spec fn document_get_sql(by_id: bool, include_content: bool, limit: nat) -> Seq<char> {
    "SELECT id, space_name, source_type, source_path, source_uri, chunk_index, chunk_count, content_sha256, ingest_status, "@
        + (if include_content {
        "content"@
    } else {
        "NULL"@
    }) + " FROM source_episodes WHERE space_name = ?1 AND "@ + (if by_id {
        "id = ?2"@
    } else {
        "source_path = ?2"@
    }) + " ORDER BY chunk_index ASC, id ASC LIMIT "@ + decimal(limit)
}

/// Plans fetching a document's chunks: by chunk id where one is named, else by
/// path. One of the two must be set.
pub fn get_document(request: &DocumentGetRequest) -> (r: Result<DocumentGetPlan, Error>)
    ensures
        match r {
            Ok(plan) => {
                &&& request.source_path is Some || request.source_episode_id is Some
                &&& plan.space@ == trimmed_or(text_of_string(request.space), DOCUMENTS_SPACE@)
                &&& plan.selector_value@ == match request.source_episode_id {
                    Some(id) => id@,
                    None => request.source_path->0@,
                }
                &&& plan.sql@ == document_get_sql(
                    request.source_episode_id is Some,
                    request.include_content,
                    bounded_limit(request.limit, DEFAULT_DOCUMENT_GET_LIMIT, 5_000) as nat,
                )
            },
            Err(e) => request.source_path is None && request.source_episode_id is None && e@
                == Fault::InvalidRequest(
                "document-get requires source_path or source_episode_id"@,
            ),
        },
{
    let by_id: bool = request.source_episode_id.is_some();
    let selector_value = match &request.source_episode_id {
        Some(id) => id.clone(),
        None => match &request.source_path {
            Some(path) => path.clone(),
            None => {
                return Err(invalid("document-get requires source_path or source_episode_id"));
            },
        },
    };
    let number = decimal_of(
        bound_limit(request.limit, DEFAULT_DOCUMENT_GET_LIMIT, 5_000) as u64,
    );
    let mut sql = "SELECT id, space_name, source_type, source_path, source_uri, chunk_index, chunk_count, content_sha256, ingest_status, ".to_owned();
    sql.append(
        if request.include_content {
            "content"
        } else {
            "NULL"
        },
    );
    sql.append(" FROM source_episodes WHERE space_name = ?1 AND ");
    sql.append(
        if by_id {
            "id = ?2"
        } else {
            "source_path = ?2"
        },
    );
    sql.append(" ORDER BY chunk_index ASC, id ASC LIMIT ");
    sql.append(number.as_str());
    Ok(
        DocumentGetPlan {
            space: trimmed_or_default(as_text(&request.space), DOCUMENTS_SPACE),
            selector_value,
            sql,
        },
    )
}

/// Request for usage-driven promotion candidates.
#[derive(Debug, Clone, PartialEq, Default)]
pub struct PromotionCandidatesRequest {
    /// Space to rank within.
    pub space: Option<String>,
    /// Minimum total retrieval hits to qualify.
    pub min_hits: usize,
    /// Minimum distinct queries that retrieved the chunk.
    pub min_distinct_queries: usize,
    /// Max candidates to return.
    pub limit: usize,
    /// Include full chunk content.
    pub include_content: bool,
    /// Include chunks already promoted.
    pub include_extracted: bool,
}

/// One promotion candidate: a chunk that earned retrieval traffic.
#[derive(Debug, Clone, PartialEq)]
pub struct PromotionCandidate {
    /// Id of the chunk.
    pub source_episode_id: String,
    /// Space.
    pub space: String,
    /// Source document path.
    pub source_path: Option<String>,
    /// Source document URI.
    pub source_uri: Option<String>,
    /// Chunk position within the source.
    pub chunk_index: i64,
    /// Total chunks in the source.
    pub chunk_count: i64,
    /// Total retrieval hits.
    pub hits: i64,
    /// Distinct queries that retrieved the chunk.
    pub distinct_queries: i64,
    /// Most recent retrieval timestamp.
    pub last_hit: String,
    /// Chunk content (when requested).
    pub content: Option<String>,
}

/// Result of ranking promotion candidates.
#[derive(Debug, Clone, PartialEq)]
pub struct PromotionCandidatesReport {
    /// Space ranked.
    pub space: String,
    /// Candidates, highest signal first.
    pub candidates: Vec<PromotionCandidate>,
}

/// What a ranking of promotion candidates asks the store.
pub struct PromotionPlan {
    /// Space to rank within.
    pub space: String,
    /// Hits that a candidate needs.
    pub min_hits: i64,
    /// Distinct queries that a candidate needs.
    pub min_distinct: i64,
    /// Candidates at most.
    pub limit: usize,
    /// Column of the content.
    pub content_column: &'static str,
    /// Condition on promoted chunks.
    pub extracted_filter: &'static str,
}

/// Plans a ranking of promotion candidates: at least one hit is always needed.
pub fn promotion_candidates(request: &PromotionCandidatesRequest) -> (r: PromotionPlan)
    ensures
        r.space@ == trimmed_or(text_of_string(request.space), DOCUMENTS_SPACE@),
        r.min_hits == if request.min_hits == 0 || request.min_hits > i64::MAX {
            1
        } else {
            request.min_hits as int
        },
        r.min_distinct == if request.min_distinct_queries > i64::MAX {
            0
        } else {
            request.min_distinct_queries as int
        },
        r.limit == bounded_limit(request.limit, DEFAULT_PROMOTION_CANDIDATE_LIMIT, 200),
        r.content_column@ == if request.include_content {
            "se.content"@
        } else {
            "NULL"@
        },
        r.extracted_filter@ == if request.include_extracted {
            ""@
        } else {
            "AND se.ingest_status != 'extracted'"@
        },
{
    PromotionPlan {
        space: trimmed_or_default(as_text(&request.space), DOCUMENTS_SPACE),
        min_hits: if request.min_hits == 0 || request.min_hits as u64 > 0x7fff_ffff_ffff_ffff {
            1
        } else {
            request.min_hits as i64
        },
        min_distinct: if request.min_distinct_queries as u64 > 0x7fff_ffff_ffff_ffff {
            0
        } else {
            request.min_distinct_queries as i64
        },
        limit: bound_limit(request.limit, DEFAULT_PROMOTION_CANDIDATE_LIMIT, 200),
        content_column: if request.include_content {
            "se.content"
        } else {
            "NULL"
        },
        extracted_filter: if request.include_extracted {
            ""
        } else {
            "AND se.ingest_status != 'extracted'"
        },
    }
}

/// Request to surface exact-content duplicate document chunks.
#[derive(Debug, Clone, PartialEq, Default)]
pub struct DocumentDuplicatesRequest {
    /// Space to scan.
    pub space: Option<String>,
    /// Max duplicate clusters to return.
    pub limit: usize,
    /// Snippet length in characters for the shared-content preview (0 = none).
    pub snippet_chars: usize,
}

/// One member of a duplicate cluster.
#[derive(Debug, Clone, PartialEq)]
pub struct DuplicateChunkMember {
    /// Id of the chunk.
    pub source_episode_id: String,
    /// Source document path.
    pub source_path: Option<String>,
    /// Source document URI.
    pub source_uri: Option<String>,
    /// Chunk position within its source.
    pub chunk_index: i64,
    /// Total chunks in its source.
    pub chunk_count: i64,
    /// Ingest status.
    pub ingest_status: String,
    /// When the chunk was ingested.
    pub ingested_at: String,
}

/// A set of document chunks sharing identical content across different sources.
#[derive(Debug, Clone, PartialEq)]
pub struct DuplicateChunkCluster {
    /// Shared content hash.
    pub content_sha256: String,
    /// Number of chunks sharing this content.
    pub member_count: i64,
    /// Preview of the shared content (empty when not requested).
    pub snippet: String,
    /// The duplicate chunks, ordered by source path, position and id.
    pub members: Vec<DuplicateChunkMember>,
}

/// Result of scanning for duplicate document chunks.
#[derive(Debug, Clone, PartialEq)]
pub struct DocumentDuplicatesReport {
    /// Space scanned.
    pub space: String,
    /// Duplicate clusters, most-duplicated first.
    pub clusters: Vec<DuplicateChunkCluster>,
}

/// What a scan for duplicates asks the store.
pub struct DuplicatesPlan {
    /// Space to scan.
    pub space: String,
    /// Clusters at most.
    pub limit: usize,
    /// Length of the previews.
    pub snippet_chars: i64,
}

/// Plans a scan for duplicates.
pub fn plan_document_duplicates(request: &DocumentDuplicatesRequest) -> (r: DuplicatesPlan)
    ensures
        r.space@ == trimmed_or(text_of_string(request.space), DOCUMENTS_SPACE@),
        r.limit == bounded_limit(request.limit, DEFAULT_DUPLICATE_CLUSTER_LIMIT, 500),
        r.snippet_chars == if request.snippet_chars > i64::MAX {
            0
        } else {
            request.snippet_chars as int
        },
{
    DuplicatesPlan {
        space: trimmed_or_default(as_text(&request.space), DOCUMENTS_SPACE),
        limit: bound_limit(request.limit, DEFAULT_DUPLICATE_CLUSTER_LIMIT, 500),
        snippet_chars: if request.snippet_chars as u64 > 0x7fff_ffff_ffff_ffff {
            0
        } else {
            request.snippet_chars as i64
        },
    }
}

/// The rows of one group of equal chunks.
pub struct DuplicateGroup {
    /// Shared content hash.
    pub content_sha256: String,
    /// Number of chunks in it.
    pub member_count: i64,
    /// The chunks in order.
    pub members: Vec<DuplicateChunkMember>,
    /// The preview of each chunk.
    pub snippets: Vec<Option<String>>,
}

/// The preview of a cluster: the first preview that is not blank, its white space
/// collapsed.
pub open spec fn cluster_snippet(snippets: Seq<Option<String>>) -> Seq<char>
    decreases snippets.len(),
{
    if snippets.len() == 0 {
        Seq::empty()
    } else {
        let before = cluster_snippet(snippets.drop_last());
        match snippets.last() {
            Some(text) if before.len() == 0 => collapsed(text@),
            _ => before,
        }
    }
}

fn first_snippet(snippets: &Vec<Option<String>>) -> (r: String)
    ensures
        r@ == cluster_snippet(snippets@),
{
    let mut out = String::new();
    assert(out@ =~= cluster_snippet(snippets@.take(0)));
    for i in 0..snippets.len()
        invariant
            out@ == cluster_snippet(snippets@.take(i as int)),
    {
        assert(snippets@.take(i + 1).drop_last() =~= snippets@.take(i as int));
        assert(snippets@.take(i + 1).last() == snippets@[i as int]);
        if out.as_str().is_empty() {
            if let Some(text) = &snippets[i] {
                out = collapse_whitespace(text.as_str());
            }
        }
    }
    assert(snippets@.take(snippets@.len() as int) =~= snippets@);
    out
}

/// Whether clusters show groups of equal chunks.
pub open spec fn shows_groups(
    clusters: Seq<DuplicateChunkCluster>,
    groups: Seq<DuplicateGroup>,
) -> bool {
    &&& clusters.len() == groups.len()
    &&& forall|i: int|
        0 <= i < clusters.len() ==> (#[trigger] clusters[i]).content_sha256
            == groups[i].content_sha256 && clusters[i].member_count == groups[i].member_count
            && clusters[i].members == groups[i].members && clusters[i].snippet@ == cluster_snippet(
            groups[i].snippets@,
        )
}

/// Reports exact-content duplicate document chunks, group by group.
pub fn document_duplicates(space: String, groups: Vec<DuplicateGroup>) -> (r:
    DocumentDuplicatesReport)
    ensures
        r.space == space,
        shows_groups(r.clusters@, groups@),
{
    let ghost all = groups@;
    let mut rest = groups;
    let mut clusters: Vec<DuplicateChunkCluster> = Vec::new();
    let n: usize = rest.len();
    let mut i: usize = 0;
    while i < n
        invariant
            i <= n,
            n == all.len(),
            rest@.len() == n - i,
            forall|k: int| 0 <= k < rest@.len() ==> #[trigger] rest@[k] == all[i + k],
            shows_groups(clusters@, all.take(i as int)),
        decreases n - i,
    {
        let group = rest.remove(0);
        assert(group == all[i as int]);
        let snippet = first_snippet(&group.snippets);
        clusters.push(
            DuplicateChunkCluster {
                content_sha256: group.content_sha256,
                member_count: group.member_count,
                snippet,
                members: group.members,
            },
        );
        i = i + 1;
        assert forall|k: int| 0 <= k < rest@.len() implies #[trigger] rest@[k] == all[i + k] by {}
        assert(shows_groups(clusters@, all.take(i as int)));
    }
    assert(all.take(n as int) =~= all);
    DocumentDuplicatesReport { space, clusters }
}

/// Request to mark document chunks as extracted (promoted to memory).
#[derive(Debug, Clone, PartialEq, Default)]
pub struct MarkExtractedRequest {
    /// Space the chunks live in.
    pub space: Option<String>,
    /// Ids to mark.
    pub source_episode_ids: Vec<String>,
}

/// Result of marking chunks extracted.
#[derive(Debug, Clone, PartialEq, Eq)]
pub struct MarkExtractedReport {
    /// Space operated on.
    pub space: String,
    /// Number of chunks whose status changed.
    pub updated: usize,
}

/// Status of a chunk that was promoted to memory.
pub const INGEST_STATUS_EXTRACTED: &'static str = "extracted";

/// A chunk of a space with its status.
pub struct ChunkStatus {
    /// Chunk id.
    pub id: String,
    /// Ingest status.
    pub ingest_status: String,
}

/// The ids and statuses of chunks.
pub open spec fn statuses(list: Seq<ChunkStatus>) -> Seq<(Seq<char>, Seq<char>)> {
    list.map_values(|c: ChunkStatus| (c.id@, c.ingest_status@))
}

/// The ids of the chunks that are not marked as extracted, in order.
pub open spec fn open_chunks(list: Seq<(Seq<char>, Seq<char>)>) -> Seq<Seq<char>>
    decreases list.len(),
{
    if list.len() == 0 {
        Seq::empty()
    } else if list.last().1 == INGEST_STATUS_EXTRACTED@ {
        open_chunks(list.drop_last())
    } else {
        open_chunks(list.drop_last()).push(list.last().0)
    }
}

/// The statuses of chunks after some were marked.
pub open spec fn marked(
    list: Seq<(Seq<char>, Seq<char>)>,
    ids: Seq<Seq<char>>,
) -> Seq<(Seq<char>, Seq<char>)> {
    list.map_values(
        |c: (Seq<char>, Seq<char>)|
            if ids.contains(c.0) {
                (c.0, INGEST_STATUS_EXTRACTED@)
            } else {
                c
            },
    )
}

fn chunks_left(list: &Vec<ChunkStatus>) -> (r: Vec<String>)
    ensures
        views(r@) == open_chunks(statuses(list@)),
{
    let ghost all = statuses(list@);
    let mut out: Vec<String> = Vec::new();
    assert(views(out@) =~= open_chunks(all.take(0)));
    for i in 0..list.len()
        invariant
            all == statuses(list@),
            views(out@) == open_chunks(all.take(i as int)),
    {
        assert(all.take(i + 1).drop_last() =~= all.take(i as int));
        assert(all.take(i + 1).last() == (list@[i as int].id@, list@[i as int].ingest_status@));
        if !text_eq(list[i].ingest_status.as_str(), INGEST_STATUS_EXTRACTED) {
            let ghost before = out@;
            out.push(list[i].id.clone());
            assert(views(out@) =~= views(before).push(list@[i as int].id@));
        }
    }
    assert(all.take(list@.len() as int) =~= all);
    out
}

/// Marks chunks of a space as extracted, and tells how many of them were not marked
/// before; at least one id has to be given. `stored` are the chunks of the space.
pub fn mark_source_episodes_extracted(
    request: &MarkExtractedRequest,
    stored: &Vec<ChunkStatus>,
) -> (r: Result<MarkExtractedReport, Error>)
    ensures
        match r {
            Ok(report) => {
                &&& request.source_episode_ids@.len() > 0
                &&& report.space@ == trimmed_or(text_of_string(request.space), DOCUMENTS_SPACE@)
                &&& report.updated == pruned(
                    views(request.source_episode_ids@),
                    open_chunks(statuses(stored@)),
                ).len()
            },
            Err(e) => request.source_episode_ids@.len() == 0 && e@ == Fault::InvalidRequest(
                "mark-extracted requires at least one source_episode_id"@,
            ),
        },
{
    if request.source_episode_ids.len() == 0 {
        return Err(invalid("mark-extracted requires at least one source_episode_id"));
    }
    let left = chunks_left(stored);
    let changed = ids_among(&request.source_episode_ids, &left);
    assert(views(changed@).len() == changed@.len());
    Ok(
        MarkExtractedReport {
            space: trimmed_or_default(as_text(&request.space), DOCUMENTS_SPACE),
            updated: changed.len(),
        },
    )
}

proof fn lemma_marked_are_closed(
    list: Seq<(Seq<char>, Seq<char>)>,
    ids: Seq<Seq<char>>,
    id: Seq<char>,
)
    requires
        ids.contains(id),
    ensures
        !open_chunks(marked(list, ids)).contains(id),
    decreases list.len(),
{
    if list.len() > 0 {
        let after = marked(list, ids);
        assert(after.drop_last() =~= marked(list.drop_last(), ids));
        lemma_marked_are_closed(list.drop_last(), ids, id);
        crate::order::lemma_push_contains(open_chunks(after.drop_last()), after.last().0, id);
    }
}

/// Marking chunks a second time changes none of them.
pub proof fn law_marking_is_done_once(list: Seq<(Seq<char>, Seq<char>)>, ids: Seq<Seq<char>>)
    ensures
        pruned(ids, open_chunks(marked(list, ids))).len() == 0,
{
    let left = open_chunks(marked(list, ids));
    law_prune_is_explicit(ids, left);
    let changed = pruned(ids, left);
    if changed.len() > 0 {
        let id = changed[0];
        assert(changed.contains(id));
        lemma_marked_are_closed(list, ids, id);
    }
}

/// Request to prune (delete) specific document chunks by id.
#[derive(Debug, Clone, PartialEq, Default)]
pub struct DocumentPruneRequest {
    /// Space the chunks live in.
    pub space: Option<String>,
    /// Ids to delete.
    pub source_episode_ids: Vec<String>,
    /// Validate and report without deleting.
    pub dry_run: bool,
}

/// Result of pruning document chunks.
#[derive(Debug, Clone, PartialEq, Eq)]
pub struct DocumentPruneReport {
    /// Space operated on.
    pub space: String,
    /// Number of ids requested for deletion.
    pub requested: usize,
    /// Ids actually deleted.
    pub deleted: Vec<String>,
    /// True when validated but rolled back.
    pub dry_run: bool,
}

/// The ids that a prune deletes, in order: those that the space has, each once.
pub open spec fn pruned(ids: Seq<Seq<char>>, stored: Seq<Seq<char>>) -> Seq<Seq<char>>
    decreases ids.len(),
{
    if ids.len() == 0 {
        Seq::empty()
    } else {
        let before = pruned(ids.drop_last(), stored);
        if stored.contains(ids.last()) && !before.contains(ids.last()) {
            before.push(ids.last())
        } else {
            before
        }
    }
}

fn ids_among(ids: &Vec<String>, stored: &Vec<String>) -> (r: Vec<String>)
    ensures
        views(r@) == pruned(views(ids@), views(stored@)),
{
    let ghost all = views(ids@);
    let mut out: Vec<String> = Vec::new();
    assert(views(out@) =~= pruned(all.take(0), views(stored@)));
    for i in 0..ids.len()
        invariant
            all == views(ids@),
            views(out@) == pruned(all.take(i as int), views(stored@)),
    {
        assert(all.take(i + 1).drop_last() =~= all.take(i as int));
        assert(all.take(i + 1).last() == ids@[i as int]@);
        if crate::text::list_contains(stored.as_slice(), ids[i].as_str())
            && !crate::text::list_contains(out.as_slice(), ids[i].as_str()) {
            let ghost before = out@;
            out.push(ids[i].clone());
            assert(views(out@) =~= views(before).push(ids@[i as int]@));
        }
    }
    assert(all.take(ids@.len() as int) =~= all);
    out
}

/// Decides a prune: which of the ids are deleted, given which of them the space
/// has. An id outside the space is left alone.
pub fn prune_documents(request: &DocumentPruneRequest, stored: &Vec<String>) -> (r: Result<
    DocumentPruneReport,
    Error,
>)
    ensures
        match r {
            Ok(report) => {
                &&& request.source_episode_ids@.len() > 0
                &&& report.space@ == trimmed_or(text_of_string(request.space), DOCUMENTS_SPACE@)
                &&& report.requested == request.source_episode_ids@.len()
                &&& views(report.deleted@) == pruned(
                    views(request.source_episode_ids@),
                    views(stored@),
                )
                &&& report.dry_run == request.dry_run
            },
            Err(e) => request.source_episode_ids@.len() == 0 && e@ == Fault::InvalidRequest(
                "document-prune requires at least one source_episode_id"@,
            ),
        },
{
    if request.source_episode_ids.len() == 0 {
        return Err(invalid("document-prune requires at least one source_episode_id"));
    }
    let ids = &request.source_episode_ids;
    let deleted = ids_among(ids, stored);
    Ok(
        DocumentPruneReport {
            space: trimmed_or_default(as_text(&request.space), DOCUMENTS_SPACE),
            requested: ids.len(),
            deleted,
            dry_run: request.dry_run,
        },
    )
}

/// A prune deletes only requested chunks of the space, and each of them once.
pub proof fn law_prune_is_explicit(ids: Seq<Seq<char>>, stored: Seq<Seq<char>>)
    ensures
        pruned(ids, stored).no_duplicates(),
        forall|t: Seq<char>| #[trigger]
            pruned(ids, stored).contains(t) <==> ids.contains(t) && stored.contains(t),
    decreases ids.len(),
{
    if ids.len() > 0 {
        let rest = ids.drop_last();
        law_prune_is_explicit(rest, stored);
        let before = pruned(rest, stored);
        let after = pruned(ids, stored);
        assert(ids =~= rest.push(ids.last()));
        assert forall|t: Seq<char>| #[trigger]
            after.contains(t) <==> ids.contains(t) && stored.contains(t) by {
            crate::order::lemma_push_contains(rest, ids.last(), t);
            crate::order::lemma_push_contains(before, ids.last(), t);
            assert(before.contains(t) <==> rest.contains(t) && stored.contains(t));
        }
    }
}

} // verus!
