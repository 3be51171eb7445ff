//! The hybrid candidate pool that goes to reranking.

use vstd::prelude::*;

use crate::admissions::{
    apply_graph_admission_observations, joined_trace, lemma_lookup_at, lemma_lookup_none, lookup,
    ranked_pool, trace_agrees, traced,
};
use crate::error::{invalid, Error, Fault};
use crate::expansion::{
    activation_list, activation_models, admission_list, admission_models, allocation,
    evidence_graph_expand_pool, expanded_pool, fresh, join_active, rank_list, rank_models,
    EvidenceJoinOptions, GraphExpandedPool,
};
use crate::json::text_of_string;
use crate::pack::best_score;
use crate::pack_queries::{pack_fault, validate_pack_request};
use crate::pool::{
    absorb_all, clone_observations, clone_text, clone_texts, interleave_pools, interleaved, items,
    merge_rerank_pools_with_trace, merged_pools, observations, observed_models, pools, trace_record,
    AdmissionObservation, AdmissionSource, ItemModel, ObservationModel, PackPoolItem,
    RerankPoolObservedCandidate,
};
use crate::ranking::{Score, LOWEST_SCORE_KEY};
use crate::requests::PackRequest;
use crate::routes::{candidates, CandidateModel, EvidenceCandidate};
use crate::text::text_eq;
use crate::validate::first_of;
use crate::vocabulary::{MAX_PACK_CHARS, MAX_PACK_MEMORIES};

verus! {

/// The request by which the pool of a pack is retrieved: wide, and without a
/// floor.
pub fn pool_request(request: &PackRequest, pool_width: usize) -> (r: PackRequest)
    ensures
        r.title@ == request.title@,
        crate::text::views(r.queries@) == crate::text::views(request.queries@),
        r.filters@ == request.filters@,
        r.max_memories == pool_width,
        r.max_chars == MAX_PACK_CHARS,
        r.format@ == request.format@,
        r.min_score.key == 0,
        r.rerank_candidates == 0,
        r.query_embeddings == request.query_embeddings,
        r.query_token_embeddings == request.query_token_embeddings,
        text_of_string(r.token_model_id) == text_of_string(request.token_model_id),
{
    PackRequest {
        title: request.title.clone(),
        queries: clone_texts(&request.queries),
        filters: request.filters.clone(),
        max_memories: pool_width,
        max_chars: MAX_PACK_CHARS,
        format: request.format.clone(),
        min_score: Score { key: 0 },
        rerank_candidates: 0,
        query_embeddings: request.query_embeddings,
        query_token_embeddings: request.query_token_embeddings,
        token_model_id: clone_text(&request.token_model_id),
    }
}

/// Whether the request has dense query embeddings.
pub open spec fn dense_active(request: PackRequest) -> bool {
    request.query_embeddings matches Some(n) && n > 0
}

/// Whether late interaction takes the place of the dense leg.
pub open spec fn late_active(request: PackRequest) -> bool {
    (request.query_token_embeddings matches Some(n) && n > 0) && request.token_model_id is Some
}

/// The scores of pool items.
pub open spec fn item_scores(pool: Seq<ItemModel>) -> Seq<Score> {
    pool.map_values(|item: ItemModel| item.score)
}

/// The two legs of a hybrid retrieval, dense first.
pub open spec fn hybrid_legs(
    request: PackRequest,
    initial: Seq<ItemModel>,
    lexical: Seq<ItemModel>,
) -> (Seq<ItemModel>, Seq<ItemModel>) {
    if dense_active(request) {
        (initial, lexical)
    } else if request.query_token_embeddings is Some {
        (Seq::empty(), initial)
    } else {
        (initial, Seq::empty())
    }
}

/// The leg that is merged first: late interaction where it is asked for.
pub open spec fn primary_leg(
    request: PackRequest,
    ann: Seq<ItemModel>,
    maxsim: Seq<Seq<ItemModel>>,
    pool_width: nat,
) -> Seq<ItemModel> {
    if late_active(request) {
        absorb_all(Seq::empty(), interleaved(maxsim), pool_width)
    } else {
        ann
    }
}

/// The legs of a hybrid retrieval after their merge.
pub struct HybridPool {
    /// The best score of the dense leg; the lowest finite one where it is empty.
    pub cos_top: Score,
    /// The admitted candidates.
    pub merged: Vec<PackPoolItem>,
    /// The trace of every observed candidate.
    pub observed: Vec<RerankPoolObservedCandidate>,
}

fn copy_items(pool: &Vec<PackPoolItem>) -> (r: Vec<PackPoolItem>)
    ensures
        items(r@) == items(pool@),
{
    let mut out: Vec<PackPoolItem> = Vec::new();
    for i in 0..pool.len()
        invariant
            items(out@) == items(pool@).take(i as int),
    {
        let ghost before = out@;
        out.push(pool[i].clone());
        assert(items(out@) =~= items(before).push(pool@[i as int]@));
        assert(items(pool@).take(i + 1) =~= items(pool@).take(i as int).push(pool@[i as int]@));
    }
    assert(items(pool@).take(pool@.len() as int) =~= items(pool@));
    out
}

/// The best score of a dense pool; the lowest finite one where the pool is empty.
pub open spec fn dense_top(pool: Seq<ItemModel>) -> Score {
    match best_score(item_scores(pool)) {
        Some(best) => best,
        None => Score { key: LOWEST_SCORE_KEY },
    }
}

/// A dense pool without items has the lowest finite score as its best.
pub proof fn law_empty_dense_pool_scores_lowest(pool: Seq<ItemModel>)
    requires
        pool.len() == 0,
    ensures
        dense_top(pool) == (Score { key: LOWEST_SCORE_KEY }),
{
}


fn best_item_score(pool: &Vec<PackPoolItem>) -> (r: Score)
    ensures
        r == dense_top(items(pool@)),
{
    let ghost scores = item_scores(items(pool@));
    let mut top: Option<Score> = None;
    assert(scores.take(0) =~= Seq::empty());
    for i in 0..pool.len()
        invariant
            scores == item_scores(items(pool@)),
            top == best_score(scores.take(i as int)),
    {
        assert(scores.take(i + 1).drop_last() =~= scores.take(i as int));
        assert(scores.take(i + 1).last() == pool@[i as int].score);
        let score = pool[i].score;
        match top {
            Some(best) => {
                if best.key < score.key {
                    top = Some(score);
                }
            },
            None => {
                top = Some(score);
            },
        }
    }
    assert(scores.take(pool@.len() as int) =~= scores);
    match top {
        Some(best) => best,
        None => Score { key: LOWEST_SCORE_KEY },
    }
}

/// Merges the legs of a hybrid retrieval. `initial` is the pool of the request as
/// it stands, `lexical` that of the request without embeddings, and `maxsim` the
/// late-interaction pool of each query. Late interaction replaces the dense leg
/// for selection; the lexical leg stays merged in.
pub fn merge_hybrid_pool(
    request: &PackRequest,
    pool_width: usize,
    initial: &Vec<PackPoolItem>,
    lexical: &Vec<PackPoolItem>,
    maxsim: &Vec<Vec<PackPoolItem>>,
) -> (r: HybridPool)
    ensures
        ({
            let (ann, bm25) = hybrid_legs(*request, items(initial@), items(lexical@));
            let primary = primary_leg(*request, ann, pools(maxsim@), pool_width as nat);
            let total = if primary.len() + bm25.len() <= usize::MAX {
                (primary.len() + bm25.len()) as nat
            } else {
                usize::MAX as nat
            };
            let all = merged_pools(primary, bm25, total);
            let kept = if pool_width < all.len() {
                pool_width as int
            } else {
                all.len() as int
            };
            &&& r.cos_top == dense_top(ann)
            &&& items(r.merged@) == all.take(kept)
            &&& observed_models(r.observed@) == Seq::new(
                all.len(),
                |i: int| trace_record(all, i, pool_width as nat),
            )
        }),
{
    let dense: bool = match request.query_embeddings {
        Some(n) => n > 0,
        None => false,
    };
    let empty_a: Vec<PackPoolItem> = Vec::new();
    let empty_b: Vec<PackPoolItem> = Vec::new();
    assert(items(empty_a@) =~= Seq::empty());
    assert(items(empty_b@) =~= Seq::empty());
    let (ann, bm25) = if dense {
        (copy_items(initial), copy_items(lexical))
    } else if request.query_token_embeddings.is_some() {
        (empty_a, copy_items(initial))
    } else {
        (copy_items(initial), empty_b)
    };
    let cos_top = best_item_score(&ann);
    let late: bool = match request.query_token_embeddings {
        Some(n) => n > 0 && request.token_model_id.is_some(),
        None => false,
    };
    let primary = if late {
        interleave_pools(maxsim, pool_width)
    } else {
        ann
    };
    proof {
        assert(items(initial@).len() == initial@.len());
        assert(items(lexical@).len() == lexical@.len());
        assert(items(primary@).len() == primary@.len());
        assert(items(bm25@).len() == bm25@.len());
    }
    let (merged, observed) = merge_rerank_pools_with_trace(&primary, &bm25, pool_width);
    HybridPool { cos_top, merged, observed }
}

/// One candidate of the pool that goes to reranking.
pub struct RerankPoolCandidate {
    /// Candidate memory id.
    pub memory_id: String,
    /// Memory content.
    pub content: String,
    /// Source observation time.
    pub observed_at: String,
    /// Whether direct retrieval and the graph both reached it.
    pub consensus: bool,
    /// Graph activation.
    pub activation: Option<Score>,
    /// Observations.
    pub admissions: Vec<AdmissionObservation>,
}

/// The model of a pool candidate.
pub struct PoolCandidateModel {
    /// Candidate memory id.
    pub memory_id: Seq<char>,
    /// Memory content.
    pub content: Seq<char>,
    /// Source observation time.
    pub observed_at: Seq<char>,
    /// Whether both legs reached it.
    pub consensus: bool,
    /// Graph activation.
    pub activation: Option<Score>,
    /// Observations.
    pub admissions: Seq<ObservationModel>,
}

impl View for RerankPoolCandidate {
    type V = PoolCandidateModel;

    open spec fn view(&self) -> PoolCandidateModel {
        PoolCandidateModel {
            memory_id: self.memory_id@,
            content: self.content@,
            observed_at: self.observed_at@,
            consensus: self.consensus,
            activation: self.activation,
            admissions: observations(self.admissions@),
        }
    }
}

/// The models of pool candidates.
pub open spec fn pool_candidates(list: Seq<RerankPoolCandidate>) -> Seq<PoolCandidateModel> {
    list.map_values(|c: RerankPoolCandidate| c@)
}

/// The active content of a memory, as read from the store.
pub struct StoredContent {
    /// Memory id.
    pub memory_id: String,
    /// Content of the active version.
    pub content: String,
    /// Observation time.
    pub observed_at: String,
}

/// The models of stored contents.
pub open spec fn stored_contents(list: Seq<StoredContent>) -> Seq<
    (Seq<char>, (Seq<char>, Seq<char>)),
> {
    list.map_values(|s: StoredContent| (s.memory_id@, (s.content@, s.observed_at@)))
}

/// Whether something other than the graph observed the item.
pub open spec fn directly_observed(admissions: Seq<ObservationModel>) -> bool {
    exists|i: int| 0 <= i < admissions.len() && (#[trigger] admissions[i]).source
        != AdmissionSource::Graph
}

/// The candidates that pool items make: those whose memory has content.
pub open spec fn materialized(
    pool: Seq<ItemModel>,
    activations: Seq<(Seq<char>, Score)>,
    contents: Seq<(Seq<char>, (Seq<char>, Seq<char>))>,
) -> Seq<PoolCandidateModel>
    decreases pool.len(),
{
    if pool.len() == 0 {
        Seq::empty()
    } else {
        let before = materialized(pool.drop_last(), activations, contents);
        let item = pool.last();
        let activation = lookup(activations, item.memory_id);
        match lookup(contents, item.memory_id) {
            Some(stored) if stored.0.len() > 0 => before.push(
                PoolCandidateModel {
                    memory_id: item.memory_id,
                    content: stored.0,
                    observed_at: stored.1,
                    consensus: activation is Some && directly_observed(item.admissions),
                    activation,
                    admissions: item.admissions,
                },
            ),
            _ => before,
        }
    }
}

fn find_content(contents: &Vec<StoredContent>, id: &str) -> (r: Option<usize>)
    ensures
        match r {
            Some(i) => i < contents@.len() && lookup(stored_contents(contents@), id@) == Some(
                (contents@[i as int].content@, contents@[i as int].observed_at@),
            ),
            None => lookup(stored_contents(contents@), id@) is None,
        },
{
    let ghost models = stored_contents(contents@);
    for i in 0..contents.len()
        invariant
            models == stored_contents(contents@),
            forall|j: int| 0 <= j < i ==> models[j].0 != id@,
    {
        if text_eq(contents[i].memory_id.as_str(), id) {
            proof {
                assert(models[i as int].0 == id@);
                lemma_lookup_at(models, id@, i as int);
            }
            return Some(i);
        }
    }
    proof {
        lemma_lookup_none(models, id@);
    }
    None
}

fn seen_directly(admissions: &Vec<AdmissionObservation>) -> (r: bool)
    ensures
        r == directly_observed(observations(admissions@)),
{
    let ghost models = observations(admissions@);
    for i in 0..admissions.len()
        invariant
            models == observations(admissions@),
            forall|j: int| 0 <= j < i ==> (#[trigger] models[j]).source == AdmissionSource::Graph,
    {
        if admissions[i].source != AdmissionSource::Graph {
            assert(models[i as int].source != AdmissionSource::Graph);
            return true;
        }
    }
    false
}

/// Turns pool items into candidates with their contents. An item whose memory has
/// no active version, or an empty one, is dropped: it cannot be reranked.
pub fn materialize_expanded_rerank_candidates(
    pool: &Vec<PackPoolItem>,
    activations: &Vec<(String, Score)>,
    contents: &Vec<StoredContent>,
) -> (r: Vec<RerankPoolCandidate>)
    ensures
        pool_candidates(r@) == materialized(
            items(pool@),
            activation_models(activations@),
            stored_contents(contents@),
        ),
{
    let ghost models = items(pool@);
    let ghost acts = activation_models(activations@);
    let ghost stored = stored_contents(contents@);
    let mut out: Vec<RerankPoolCandidate> = Vec::new();
    assert(pool_candidates(out@) =~= materialized(models.take(0), acts, stored));
    for i in 0..pool.len()
        invariant
            models == items(pool@),
            acts == activation_models(activations@),
            stored == stored_contents(contents@),
            pool_candidates(out@) == materialized(models.take(i as int), acts, stored),
    {
        let item = &pool[i];
        proof {
            assert(models.take(i + 1).drop_last() =~= models.take(i as int));
            assert(models.take(i + 1).last() == item@);
        }
        let ghost before = out@;
        match find_content(contents, item.memory_id.as_str()) {
            Some(at) => {
                let row = &contents[at];
                if !row.content.as_str().is_empty() {
                    let activation = crate::admissions::find_activation(
                        activations,
                        item.memory_id.as_str(),
                    );
                    let consensus: bool = activation.is_some() && seen_directly(&item.admissions);
                    let candidate = RerankPoolCandidate {
                        memory_id: item.memory_id.clone(),
                        content: row.content.clone(),
                        observed_at: row.observed_at.clone(),
                        consensus,
                        activation,
                        admissions: clone_observations(&item.admissions),
                    };
                    let ghost model = candidate@;
                    out.push(candidate);
                    assert(pool_candidates(out@) =~= pool_candidates(before).push(model));
                }
            },
            None => {},
        }
    }
    assert(models.take(pool@.len() as int) =~= models);
    out
}

/// Joins the reached memories into the pool and brings the trace in line.
pub fn expand_and_observe_rerank_graph(
    pool: &Vec<PackPoolItem>,
    found: &Vec<EvidenceCandidate>,
    expansion: EvidenceJoinOptions,
    trace_graph_allocation: bool,
    observed: &mut Vec<RerankPoolObservedCandidate>,
) -> (r: GraphExpandedPool)
    ensures
        ({
            let joined = joined_pool(items(pool@), candidates(found@), expansion);
            let acts = joined_activations(candidates(found@), expansion);
            &&& items(r.pool@) == ranked_pool(joined, acts)
            &&& activation_models(r.activations@) == acts
            &&& observed_models(final(observed)@) == joined_trace(
                observed_models(old(observed)@),
                items(r.pool@),
                acts,
                joined_ranks(
                    items(pool@),
                    candidates(found@),
                    expansion,
                    trace_graph_allocation,
                ),
                joined_admissions(candidates(found@), expansion),
            )
            &&& text_of_string(r.outcome) == join_outcome(candidates(found@), expansion)
        }),
{
    let mut expanded = evidence_graph_expand_pool(pool, found, expansion, trace_graph_allocation);
    proof {
        let models = candidates(found@);
        if !join_active(expansion, models) {
            assert(activation_models(expanded.activations@) =~= Seq::empty());
            assert(rank_models(expanded.allocation_ranks@) =~= Seq::empty());
            assert(admission_models(expanded.route_admissions@) =~= Seq::empty());
        }
    }
    apply_graph_admission_observations(
        &mut expanded.pool,
        &expanded.activations,
        &expanded.allocation_ranks,
        &expanded.route_admissions,
        observed,
    );
    expanded
}

/// The pool after a join.
pub open spec fn joined_pool(
    pool: Seq<ItemModel>,
    found: Seq<CandidateModel>,
    options: EvidenceJoinOptions,
) -> Seq<ItemModel> {
    if join_active(options, found) {
        expanded_pool(pool, found, options.max_graph_neighbors as nat)
    } else {
        pool
    }
}

/// The activations after a join.
pub open spec fn joined_activations(
    found: Seq<CandidateModel>,
    options: EvidenceJoinOptions,
) -> Seq<(Seq<char>, Score)> {
    if join_active(options, found) {
        activation_list(found)
    } else {
        Seq::empty()
    }
}

/// The allocation ranks after a join.
pub open spec fn joined_ranks(
    pool: Seq<ItemModel>,
    found: Seq<CandidateModel>,
    options: EvidenceJoinOptions,
    trace: bool,
) -> Seq<(Seq<char>, usize)> {
    if join_active(options, found) {
        rank_list(found, pool, options.max_graph_neighbors as nat, trace)
    } else {
        Seq::empty()
    }
}

/// The observations of reached memories after a join.
pub open spec fn joined_admissions(
    found: Seq<CandidateModel>,
    options: EvidenceJoinOptions,
) -> Seq<(Seq<char>, Seq<ObservationModel>)> {
    if join_active(options, found) {
        admission_list(found)
    } else {
        Seq::empty()
    }
}

/// What came of a join.
pub open spec fn join_outcome(
    found: Seq<CandidateModel>,
    options: EvidenceJoinOptions,
) -> Option<Seq<char>> {
    if join_active(options, found) {
        Some("active"@)
    } else {
        Some("no_eligible_seed_route"@)
    }
}

/// The pool that goes to reranking.
pub struct RerankPool {
    /// The best score of the dense leg; the lowest finite one where it is empty.
    pub cos_top: Score,
    /// The candidates.
    pub candidates: Vec<RerankPoolCandidate>,
    /// What came of the evidence join.
    pub graph_outcome: Option<String>,
    /// The trace of every observed candidate.
    pub observed: Vec<RerankPoolObservedCandidate>,
    /// Width of the pool.
    pub pool_width: usize,
}

/// Whether `r` is the pool that the merged memories and those that the graph
/// joins to them make, with the places of all joined memories in its trace where
/// `trace` says so.
pub open spec fn is_rerank_pool(
    hybrid: HybridPool,
    pool_width: usize,
    found: Seq<CandidateModel>,
    expansion: EvidenceJoinOptions,
    trace: bool,
    contents: Seq<(Seq<char>, (Seq<char>, Seq<char>))>,
    r: RerankPool,
) -> bool {
    let before = items(hybrid.merged@);
    let acts = joined_activations(found, expansion);
    let pool = ranked_pool(joined_pool(before, found, expansion), acts);
    &&& r.cos_top == hybrid.cos_top
    &&& pool_candidates(r.candidates@) == materialized(pool, acts, contents)
    &&& text_of_string(r.graph_outcome) == join_outcome(found, expansion)
    &&& observed_models(r.observed@) == joined_trace(
        observed_models(hybrid.observed@),
        pool,
        acts,
        joined_ranks(before, found, expansion, trace),
        joined_admissions(found, expansion),
    )
    &&& r.pool_width == pool_width
}

/// Build the hybrid pre-rerank candidate pool from the merged legs, the memories
/// that the evidence traversal reached from them, and the contents of all these
/// memories.
pub fn build_hybrid_rerank_pool_with_evidence_options(
    request: &PackRequest,
    hybrid: HybridPool,
    pool_width: usize,
    found: &Vec<EvidenceCandidate>,
    expansion: EvidenceJoinOptions,
    contents: &Vec<StoredContent>,
) -> (r: Result<RerankPool, Error>)
    ensures
        match r {
            Ok(pool) => pack_fault(*request) is None && is_rerank_pool(
                hybrid,
                pool_width,
                candidates(found@),
                expansion,
                false,
                stored_contents(contents@),
                pool,
            ),
            Err(e) => pack_fault(*request) == Some(e@),
        },
{
    if let Err(e) = validate_pack_request(request) {
        return Err(e);
    }
    Ok(join_rerank_pool(hybrid, pool_width, found, expansion, false, contents))
}

fn join_rerank_pool(
    hybrid: HybridPool,
    pool_width: usize,
    found: &Vec<EvidenceCandidate>,
    expansion: EvidenceJoinOptions,
    include_graph_cap_observations: bool,
    contents: &Vec<StoredContent>,
) -> (r: RerankPool)
    ensures
        is_rerank_pool(
            hybrid,
            pool_width,
            candidates(found@),
            expansion,
            include_graph_cap_observations,
            stored_contents(contents@),
            r,
        ),
{
    let mut observed = hybrid.observed;
    let expanded = expand_and_observe_rerank_graph(
        &hybrid.merged,
        found,
        expansion,
        include_graph_cap_observations,
        &mut observed,
    );
    let materials = materialize_expanded_rerank_candidates(
        &expanded.pool,
        &expanded.activations,
        contents,
    );
    RerankPool {
        cos_top: hybrid.cos_top,
        candidates: materials,
        graph_outcome: expanded.outcome,
        observed,
        pool_width,
    }
}

/// Why a traced evidence join is refused.
pub open spec fn trace_options_fault(expansion: EvidenceJoinOptions) -> Option<Fault> {
    if expansion.max_graph_seeds > MAX_PACK_MEMORIES || expansion.max_graph_neighbors
        > MAX_PACK_MEMORIES {
        Some(
            Fault::InvalidRequest(
                "pool-trace max_graph_seeds and max_graph_neighbors must not exceed 50"@,
            ),
        )
    } else {
        None
    }
}

/// Whether the bounds of a traced evidence join are within those of a pack.
pub fn validate_trace_options(expansion: EvidenceJoinOptions) -> (r: Result<(), Error>)
    ensures
        crate::error::verdict(r) == trace_options_fault(expansion),
{
    if expansion.max_graph_seeds > MAX_PACK_MEMORIES || expansion.max_graph_neighbors
        > MAX_PACK_MEMORIES {
        Err(invalid("pool-trace max_graph_seeds and max_graph_neighbors must not exceed 50"))
    } else {
        Ok(())
    }
}

/// Why a traced pool is refused: the request, or the bounds of the join.
pub open spec fn trace_fault(request: PackRequest, expansion: EvidenceJoinOptions) -> Option<Fault> {
    first_of(pack_fault(request), trace_options_fault(expansion))
}

/// The traced pool: the bounds of the join are checked too, and the trace names the
/// places of the memories that the join left out.
pub fn build_hybrid_rerank_pool_trace_with_evidence_options(
    request: &PackRequest,
    hybrid: HybridPool,
    pool_width: usize,
    found: &Vec<EvidenceCandidate>,
    expansion: EvidenceJoinOptions,
    contents: &Vec<StoredContent>,
) -> (r: Result<RerankPool, Error>)
    ensures
        match r {
            Ok(pool) => trace_fault(*request, expansion) is None && is_rerank_pool(
                hybrid,
                pool_width,
                candidates(found@),
                expansion,
                true,
                stored_contents(contents@),
                pool,
            ),
            Err(e) => trace_fault(*request, expansion) == Some(e@),
        },
{
    if let Err(e) = validate_pack_request(request) {
        return Err(e);
    }
    if let Err(e) = validate_trace_options(expansion) {
        return Err(e);
    }
    Ok(join_rerank_pool(hybrid, pool_width, found, expansion, true, contents))
}

/// A trace shows the pool as it is: with and without it the same memories are
/// candidates, in the same order, and the join has the same outcome. The trace has a
/// record of every memory that the join allocates, those that the bound on new
/// memories left out among them, and tells exactly which of its memories are in the
/// pool. Bounds of the join beyond those of a pack are refused.
pub proof fn law_trace_admits_the_same(
    request: PackRequest,
    hybrid: HybridPool,
    pool_width: usize,
    found: Seq<CandidateModel>,
    expansion: EvidenceJoinOptions,
    contents: Seq<(Seq<char>, (Seq<char>, Seq<char>))>,
    plain: RerankPool,
    shown: RerankPool,
)
    requires
        is_rerank_pool(hybrid, pool_width, found, expansion, false, contents, plain),
        is_rerank_pool(hybrid, pool_width, found, expansion, true, contents, shown),
    ensures
        pool_candidates(shown.candidates@) == pool_candidates(plain.candidates@),
        text_of_string(shown.graph_outcome) == text_of_string(plain.graph_outcome),
        shown.cos_top == plain.cos_top,
        join_active(expansion, found) ==> forall|i: int|
            0 <= i < allocation(fresh(found, items(hybrid.merged@))).len() ==> traced(
                observed_models(shown.observed@),
                (#[trigger] allocation(fresh(found, items(hybrid.merged@)))[i]).memory_id,
            ),
        trace_agrees(
            observed_models(shown.observed@),
            ranked_pool(
                joined_pool(items(hybrid.merged@), found, expansion),
                joined_activations(found, expansion),
            ),
        ),
        expansion.max_graph_seeds > MAX_PACK_MEMORIES || expansion.max_graph_neighbors
            > MAX_PACK_MEMORIES ==> trace_fault(request, expansion) is Some,
{
    let before = items(hybrid.merged@);
    let acts = joined_activations(found, expansion);
    let pool = ranked_pool(joined_pool(before, found, expansion), acts);
    let ranks = joined_ranks(before, found, expansion, true);
    let routes = joined_admissions(found, expansion);
    let records = observed_models(hybrid.observed@);
    crate::admissions::law_trace_agrees_with_pool(records, pool, acts, ranks, routes);
    crate::admissions::law_allocated_memories_are_traced(records, pool, acts, ranks, routes);
    if join_active(expansion, found) {
        let all = allocation(fresh(found, before));
        assert forall|i: int| 0 <= i < all.len() implies traced(
            observed_models(shown.observed@),
            (#[trigger] all[i]).memory_id,
        ) by {
            assert(ranks[i].0 == all[i].memory_id);
        }
    }
}

proof fn lemma_materialized_same(
    pool: Seq<ItemModel>,
    activations: Seq<(Seq<char>, Score)>,
    contents: Seq<(Seq<char>, (Seq<char>, Seq<char>))>,
)
    ensures
        materialized(pool, activations, contents).len() <= pool.len(),
    decreases pool.len(),
{
    if pool.len() > 0 {
        lemma_materialized_same(pool.drop_last(), activations, contents);
    }
}

/// A pool keeps the merged memories in their places, and gives no more candidates
/// than these and the bound on new memories together.
pub proof fn law_pool_keeps_merged(
    before: Seq<ItemModel>,
    found: Seq<CandidateModel>,
    expansion: EvidenceJoinOptions,
    contents: Seq<(Seq<char>, (Seq<char>, Seq<char>))>,
)
    ensures
        ({
            let acts = joined_activations(found, expansion);
            let pool = ranked_pool(joined_pool(before, found, expansion), acts);
            &&& materialized(pool, acts, contents).len() <= before.len()
                + expansion.max_graph_neighbors
            &&& forall|i: int|
                0 <= i < before.len() ==> (#[trigger] pool[i]).memory_id == before[i].memory_id
        }),
{
    let acts = joined_activations(found, expansion);
    let joined = joined_pool(before, found, expansion);
    let pool = ranked_pool(joined, acts);
    lemma_materialized_same(pool, acts, contents);
    crate::expansion::law_join_keeps_pool(
        before,
        found,
        expansion.max_graph_neighbors as nat,
    );
    assert forall|i: int| 0 <= i < before.len() implies (#[trigger] pool[i]).memory_id
        == before[i].memory_id by {
        assert(joined[i].memory_id == before[i].memory_id);
    }
}

} // verus!
