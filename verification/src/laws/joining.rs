//! What the join of evidence to a pool promises: which routes are better, which memories
//! are admitted, and which relationships lead on.

use vstd::prelude::*;

use crate::error::Error;
use crate::evidence::{
    all_spans, evidence_query_spans, first_n, query_spans, span_models, wide_spans, widest,
    width_spans, EvidenceQuerySpan, SpanModel,
};
use crate::expansion::{
    allocation, allocation_places, candidate_key, evidence_graph_expand_pool, expanded_pool, fresh,
    routed_places, EvidenceJoinOptions, GraphExpandedPool,
};
use crate::laws::ordering::{lemma_first_number, lemma_sorting_names_each};
use crate::pool::{items, GraphEvidenceClass, ItemModel, PackPoolItem};
use crate::ranking::Score;
use crate::routes::{
    best_entry, best_route, candidates, entries, evidence_route_is_better, max_activation,
    top_activation, CandidateModel, EntryModel, EvidenceCandidate, EvidenceCandidateRoute,
};
use crate::terms::{span_text, words};
use crate::text::views;
use crate::traversal::{
    qualify_relationship, EvidenceEdge, QualifiedEvidenceRelationship, RoutingMetadata,
};

verus! {

/// Whether a route outranks another: exact support stands above a fallback, then fewer
/// hops above more, then the greater activation above the lesser.
pub open spec fn outranks(a: EntryModel, b: EntryModel) -> bool {
    ||| a.route.evidence_class == GraphEvidenceClass::EndpointSupport && b.route.evidence_class
        == GraphEvidenceClass::EntityFallback
    ||| a.route.evidence_class == b.route.evidence_class && a.route.hop_depth < b.route.hop_depth
    ||| a.route.evidence_class == b.route.evidence_class && a.route.hop_depth == b.route.hop_depth
        && a.activation.key > b.activation.key
}

/// A route that outranks another is better, and one that is outranked is not.
pub proof fn law_better_routes_outrank(
    a: EvidenceCandidateRoute,
    b: EvidenceCandidateRoute,
    better: bool,
)
    requires
        call_ensures(evidence_route_is_better, (&a, &b), better),
    ensures
        outranks(a@, b@) ==> better,
        outranks(b@, a@) ==> !better,
{
}

proof fn lemma_best_is_not_outranked(list: Seq<EntryModel>)
    requires
        list.len() > 0,
    ensures
        forall|i: int| 0 <= i < list.len() ==> !outranks(#[trigger] list[i], best_entry(list)),
    decreases list.len(),
{
    if list.len() > 1 {
        let rest = list.drop_last();
        lemma_best_is_not_outranked(rest);
        assert forall|i: int| 0 <= i < list.len() implies !outranks(
            #[trigger] list[i],
            best_entry(list),
        ) by {
            if i < rest.len() {
                assert(rest[i] == list[i]);
                assert(!outranks(rest[i], best_entry(rest)));
            }
        }
    }
}

/// No route of a memory outranks its best one.
pub proof fn law_no_route_outranks_the_best(routes: Vec<EvidenceCandidateRoute>, best: usize)
    requires
        routes@.len() > 0,
        call_ensures(best_route, (&routes,), best),
    ensures
        best < routes@.len(),
        forall|i: int|
            0 <= i < routes@.len() ==> !outranks((#[trigger] routes@[i])@, routes@[best as int]@),
{
    let list = entries(routes@);
    assert(list.len() == routes@.len());
    lemma_best_is_not_outranked(list);
    assert forall|i: int| 0 <= i < routes@.len() implies !outranks(
        (#[trigger] routes@[i])@,
        routes@[best as int]@,
    ) by {
        assert(list[i] == routes@[i]@);
    }
}

proof fn lemma_top(list: Seq<EntryModel>)
    ensures
        forall|i: int|
            0 <= i < list.len() ==> (#[trigger] list[i]).activation.key <= top_activation(list).key,
    decreases list.len(),
{
    if list.len() > 0 {
        let rest = list.drop_last();
        lemma_top(rest);
        assert forall|i: int| 0 <= i < list.len() implies (#[trigger] list[i]).activation.key
            <= top_activation(list).key by {
            if i < rest.len() {
                assert(rest[i] == list[i]);
            }
        }
    }
}

proof fn lemma_top_is_reached(list: Seq<EntryModel>)
    ensures
        top_activation(list).key == crate::ranking::LOWEST_SCORE_KEY || exists|i: int|
            0 <= i < list.len() && (#[trigger] list[i]).activation == top_activation(list),
    decreases list.len(),
{
    if list.len() > 0 {
        let rest = list.drop_last();
        lemma_top_is_reached(rest);
        if list.last().activation.key > top_activation(rest).key {
            assert(list[list.len() - 1].activation == top_activation(list));
        } else if top_activation(rest).key != crate::ranking::LOWEST_SCORE_KEY {
            let i = choose|i: int|
                0 <= i < rest.len() && (#[trigger] rest[i]).activation == top_activation(rest);
            assert(list[i].activation == top_activation(list));
        }
    }
}

/// The activation of a memory is the greatest of its routes.
pub proof fn law_activation_is_the_greatest(routes: Vec<EvidenceCandidateRoute>, top: Score)
    requires
        call_ensures(max_activation, (&routes,), top),
    ensures
        forall|i: int| 0 <= i < routes@.len() ==> (#[trigger] routes@[i]).activation.key <= top.key,
        (exists|i: int| 0 <= i < routes@.len() && (#[trigger] routes@[i]).activation == top)
            || top.key == crate::ranking::LOWEST_SCORE_KEY,
{
    let list = entries(routes@);
    assert(list.len() == routes@.len());
    lemma_top(list);
    lemma_top_is_reached(list);
    assert forall|i: int| 0 <= i < routes@.len() implies (#[trigger] routes@[i]).activation.key
        <= top.key by {
        assert(list[i] == routes@[i]@);
    }
    if top.key != crate::ranking::LOWEST_SCORE_KEY {
        let i = choose|i: int| 0 <= i < list.len() && (#[trigger] list[i]).activation == top;
        assert(routes@[i].activation == top);
    }
}

/// Whether a memory is in a pool.
pub open spec fn is_pooled(pool: Seq<PackPoolItem>, id: Seq<char>) -> bool {
    exists|i: int| 0 <= i < pool.len() && (#[trigger] pool[i]).memory_id@ == id
}

/// Whether a memory of a pool was found by routes, at a place in what was found.
pub open spec fn was_found_at(
    item: PackPoolItem,
    found: Seq<EvidenceCandidate>,
    k: int,
) -> bool {
    &&& 0 <= k < found.len()
    &&& found[k].memory_id@ == item.memory_id@
    &&& found[k].routes@.len() > 0
    &&& forall|r: int|
        0 <= r < found[k].routes@.len() ==> (#[trigger] found[k].routes@[r]).activation.key
            <= item.score.key
}

/// Whether no route of one memory outranks every route of another.
pub open spec fn may_come_first(a: EvidenceCandidate, b: EvidenceCandidate) -> bool {
    b.routes@.len() > 0 && a.routes@.len() > 0 ==> !(exists|r: int|
        0 <= r < b.routes@.len() && forall|s: int|
            0 <= s < a.routes@.len() ==> outranks(
                (#[trigger] b.routes@[r])@,
                (#[trigger] a.routes@[s])@,
            ))
}

proof fn lemma_fresh_from(
    list: Seq<CandidateModel>,
    pool: Seq<ItemModel>,
) -> (places: Seq<int>)
    ensures
        places.len() == fresh(list, pool).len(),
        forall|i: int|
            0 <= i < places.len() ==> 0 <= #[trigger] places[i] < list.len() && fresh(list, pool)[i]
                == list[places[i]] && crate::pool::find_id(pool, list[places[i]].memory_id) is None,
        forall|k: int|
            0 <= k < list.len() && crate::pool::find_id(pool, (#[trigger] list[k]).memory_id) is None
                ==> places.contains(k),
        forall|i: int, j: int| 0 <= i < j < places.len() ==> places[i] < places[j],
    decreases list.len(),
{
    if list.len() == 0 {
        Seq::empty()
    } else {
        let rest = list.drop_last();
        let before = lemma_fresh_from(rest, pool);
        let places = if crate::pool::find_id(pool, list.last().memory_id) is None {
            before.push(list.len() - 1)
        } else {
            before
        };
        assert forall|k: int|
            0 <= k < list.len() && crate::pool::find_id(
                pool,
                (#[trigger] list[k]).memory_id,
            ) is None implies places.contains(k) by {
            if k < rest.len() {
                assert(rest[k] == list[k]);
                assert(before.contains(k));
                let i = choose|i: int| 0 <= i < before.len() && before[i] == k;
                assert(places[i] == k);
            } else {
                assert(places[before.len() as int] == k);
            }
        }
        places
    }
}

proof fn lemma_may_come_first(a: EvidenceCandidate, b: EvidenceCandidate)
    requires
        !outranks(best_entry(entries(b.routes@)), best_entry(entries(a.routes@))),
    ensures
        may_come_first(a, b),
{
    let x = entries(a.routes@);
    let y = entries(b.routes@);
    assert(x.len() == a.routes@.len() && y.len() == b.routes@.len());
    if b.routes@.len() > 0 && a.routes@.len() > 0 && exists|r: int|
        0 <= r < b.routes@.len() && forall|s: int|
            0 <= s < a.routes@.len() ==> outranks(
                (#[trigger] b.routes@[r])@,
                (#[trigger] a.routes@[s])@,
            ) {
        let r = choose|r: int|
            0 <= r < b.routes@.len() && forall|s: int|
                0 <= s < a.routes@.len() ==> outranks(
                    (#[trigger] b.routes@[r])@,
                    (#[trigger] a.routes@[s])@,
                );
        crate::routes::law_best_route_is_best(x);
        let s = choose|s: int| 0 <= s < x.len() && x[s] == best_entry(x);
        assert(a.routes@[s]@ == best_entry(x));
        assert(b.routes@[r]@ == y[r]);
        assert(outranks(b.routes@[r]@, a.routes@[s]@));
        lemma_best_is_not_outranked(y);
        assert(!outranks(y[r], best_entry(y)));
        assert(outranks(best_entry(y), best_entry(x)));
    }
}

/// A join keeps the pool as it is, in its order, and admits after it memories that routes
/// found and that are not in the pool, as many as it may; none comes before one that
/// outranks it. It admits all of them where there is room. Nothing is joined where no
/// seeds or no neighbours are wanted, or none was found.
#[verifier::spinoff_prover]
#[verifier::rlimit(60)]
pub proof fn law_join_admits_the_best_reached(
    pool: Vec<PackPoolItem>,
    found: Vec<EvidenceCandidate>,
    options: EvidenceJoinOptions,
    trace: bool,
    result: GraphExpandedPool,
) -> (places: Seq<int>)
    requires
        call_ensures(
            evidence_graph_expand_pool,
            (&pool, &found, options, trace),
            result,
        ),
    ensures
        result.pool@.len() == pool@.len() + places.len(),
        places.len() <= options.max_graph_neighbors,
        forall|i: int|
            0 <= i < pool@.len() ==> (#[trigger] result.pool@[i]).memory_id@ == pool@[i].memory_id@
                && result.pool@[i].score == pool@[i].score,
        forall|i: int|
            0 <= i < places.len() ==> was_found_at(
                result.pool@[pool@.len() + i],
                found@,
                #[trigger] places[i],
            ) && !is_pooled(pool@, found@[places[i]].memory_id@),
        forall|i: int, j: int|
            0 <= i < j < places.len() ==> #[trigger] places[i] != #[trigger] places[j]
                && may_come_first(found@[places[i]], found@[places[j]]),
        ({
            let joins = options.max_graph_seeds > 0 && options.max_graph_neighbors > 0
                && found@.len() > 0;
            &&& !joins ==> places.len() == 0
            &&& crate::json::text_of_string(result.outcome) == if joins {
                Some("active"@)
            } else {
                Some("no_eligible_seed_route"@)
            }
            &&& joins && places.len() < options.max_graph_neighbors ==> forall|k: int|
                0 <= k < found@.len() && found@[k].routes@.len() > 0 && !is_pooled(
                    pool@,
                    (#[trigger] found@[k]).memory_id@,
                ) ==> places.contains(k)
        }),
{
    let models = candidates(found@);
    let before = items(pool@);
    let after = items(result.pool@);
    assert(models.len() == found@.len());
    assert(before.len() == pool@.len());
    assert(after.len() == result.pool@.len());
    assert forall|i: int| 0 <= i < pool@.len() implies (#[trigger] before[i]).memory_id
        == pool@[i].memory_id@ && before[i].score == pool@[i].score by {}
    assert forall|i: int| 0 <= i < result.pool@.len() implies (
    #[trigger] result.pool@[i]).memory_id@ == after[i].memory_id && result.pool@[i].score
        == after[i].score by {}
    let joins = options.max_graph_seeds > 0 && options.max_graph_neighbors > 0 && found@.len() > 0;
    if !joins {
        Seq::empty()
    } else {
        let max = options.max_graph_neighbors as nat;
        let list = fresh(models, before);
        let origin = lemma_fresh_from(models, before);
        let order = allocation_places(list);
        let all = allocation(list);
        lemma_allocated(list);
        let kept = first_n(all, max);
        let places = Seq::new(kept.len(), |i: int| origin[order[i]]);
        assert(after == expanded_pool(before, models, max));
        assert forall|i: int| 0 <= i < places.len() implies was_found_at(
            result.pool@[pool@.len() + i],
            found@,
            #[trigger] places[i],
        ) && !is_pooled(pool@, found@[places[i]].memory_id@) by {
            let k = places[i];
            assert(list[order[i]] == models[k]);
            assert(all[i] == models[k]);
            assert(after[pool@.len() + i].memory_id == models[k].memory_id);
            assert(after[pool@.len() + i].score == top_activation(models[k].routes));
            lemma_top(models[k].routes);
            assert(models[k].routes.len() == found@[k].routes@.len());
            assert forall|r: int| 0 <= r < found@[k].routes@.len() implies (
            #[trigger] found@[k].routes@[r]).activation.key <= result.pool@[pool@.len()
                + i].score.key by {
                assert(models[k].routes[r] == found@[k].routes@[r]@);
            }
            crate::pool::lemma_find_id(before, models[k].memory_id);
            if is_pooled(pool@, found@[k].memory_id@) {
                let p = choose|p: int|
                    0 <= p < pool@.len() && (#[trigger] pool@[p]).memory_id@
                        == found@[k].memory_id@;
                assert(before[p].memory_id == models[k].memory_id);
            }
        }
        assert forall|i: int, j: int| 0 <= i < j < places.len() implies #[trigger] places[i]
            != #[trigger] places[j] && may_come_first(found@[places[i]], found@[places[j]]) by {
            assert(order[i] != order[j]);
            let a = found@[places[i]];
            let b = found@[places[j]];
            assert(all[i] == models[places[i]] && all[j] == models[places[j]]);
            lemma_first_allocated(list, i, j);
            assert(models[places[i]].routes == entries(a.routes@));
            assert(models[places[j]].routes == entries(b.routes@));
            lemma_may_come_first(a, b);
        }
        if places.len() < options.max_graph_neighbors {
            assert forall|k: int|
                0 <= k < found@.len() && found@[k].routes@.len() > 0 && !is_pooled(
                    pool@,
                    (#[trigger] found@[k]).memory_id@,
                ) implies places.contains(k) by {
                assert(models[k].memory_id == found@[k].memory_id@);
                crate::pool::lemma_find_id(before, models[k].memory_id);
                if let Some(p) = crate::pool::find_id(before, models[k].memory_id) {
                    assert(pool@[p].memory_id@ == found@[k].memory_id@);
                }
                assert(origin.contains(k));
                let o = choose|o: int| 0 <= o < origin.len() && origin[o] == k;
                assert(list[o] == models[k]);
                assert(models[k].routes.len() == found@[k].routes@.len());
                crate::expansion::law_allocation_lists_routed(list, o);
                let i = choose|i: int| 0 <= i < order.len() && order[i] == o;
                assert(places[i] == k);
            }
        }
        places
    }
}

proof fn lemma_allocated(list: Seq<CandidateModel>)
    ensures
        allocation(list).len() == allocation_places(list).len(),
        forall|i: int|
            0 <= i < allocation_places(list).len() ==> 0 <= #[trigger] allocation_places(list)[i]
                < list.len() && allocation(list)[i] == list[allocation_places(list)[i]]
                && list[allocation_places(list)[i]].routes.len() > 0,
        forall|i: int, j: int|
            0 <= i < j < allocation_places(list).len() ==> #[trigger] allocation_places(list)[i]
                != #[trigger] allocation_places(list)[j],
{
    let keys = crate::expansion::candidate_keys(crate::expansion::routed(list));
    lemma_sorting_names_each(keys);
    lemma_routed(list);
    let order = crate::ranking::sorting(keys);
    let places = routed_places(list);
    assert forall|i: int, j: int|
        0 <= i < j < allocation_places(list).len() implies #[trigger] allocation_places(list)[i]
        != #[trigger] allocation_places(list)[j] by {
        let a = order[i];
        let b = order[j];
        assert(a != b);
        if a < b {
            assert(places[a] < places[b]);
        } else {
            assert(places[b] < places[a]);
        }
    }
}

proof fn lemma_routed(list: Seq<CandidateModel>)
    ensures
        forall|i: int|
            0 <= i < routed_places(list).len() ==> 0 <= #[trigger] routed_places(list)[i]
                < list.len() && list[routed_places(list)[i]].routes.len() > 0,
        forall|i: int, j: int|
            0 <= i < j < routed_places(list).len() ==> #[trigger] routed_places(list)[i]
                < #[trigger] routed_places(list)[j],
    decreases list.len(),
{
    if list.len() > 0 {
        let rest = list.drop_last();
        lemma_routed(rest);
        let before = routed_places(rest);
        let places = routed_places(list);
        assert forall|i: int| 0 <= i < places.len() implies 0 <= #[trigger] places[i] < list.len()
            && list[places[i]].routes.len() > 0 by {
            if i < before.len() {
                assert(places[i] == before[i]);
                assert(rest[before[i]] == list[before[i]]);
            }
        }
        assert forall|i: int, j: int| 0 <= i < j < places.len() implies #[trigger] places[i]
            < #[trigger] places[j] by {
            assert(places[i] == before[i]);
            if j < before.len() {
                assert(places[j] == before[j]);
            }
        }
    }
}

proof fn lemma_first_allocated(list: Seq<CandidateModel>, i: int, j: int)
    requires
        0 <= i < j < allocation(list).len(),
    ensures
        !outranks(
            best_entry(allocation(list)[j].routes),
            best_entry(allocation(list)[i].routes),
        ),
{
    crate::expansion::law_allocation_is_sorted(list, i, j);
    let a = candidate_key(allocation(list)[i]);
    let b = candidate_key(allocation(list)[j]);
    let x = best_entry(allocation(list)[i].routes);
    let y = best_entry(allocation(list)[j].routes);
    assert(a.numbers[0] == crate::routes::class_rank(x.route.evidence_class));
    assert(b.numbers[0] == crate::routes::class_rank(y.route.evidence_class));
    assert(a.numbers[1] == x.route.hop_depth && b.numbers[1] == y.route.hop_depth);
    assert(a.numbers[2] == -(x.activation.key) && b.numbers[2] == -(y.activation.key));
    if a.numbers != b.numbers {
        let k = lemma_first_number(a.numbers, b.numbers);
        if k > 0 {
            assert(a.numbers[0] == b.numbers[0]);
        }
        if k > 1 {
            assert(a.numbers[1] == b.numbers[1]);
        }
        if k > 2 {
            assert(a.numbers[2] == b.numbers[2]);
        }
    }
}

/// A relationship leads on from an entity exactly where it is marked for routing, is not
/// a mere relation, has valid evidence and touches the entity; it leads to its other end,
/// forward or in reverse.
pub proof fn law_routing_relationships_lead_on(
    current: &str,
    edge: EvidenceEdge,
    metadata: RoutingMetadata,
    answer: Result<Option<QualifiedEvidenceRelationship>, Error>,
)
    requires
        call_ensures(qualify_relationship, (current, &edge, &metadata), answer),
    ensures
        metadata.routing != Some(true) ==> answer matches Ok(None),
        metadata.routing == Some(true) && !(metadata.contract is Some && metadata.contract->0@
            == "evidence_join_v2"@ && metadata.contract_version == Some(2u64)) ==> answer is Err,
        answer matches Ok(Some(q)) ==> {
            &&& metadata.routing == Some(true)
            &&& edge.relation_type@ != "related_to"@
            &&& edge.memory_id is Some && edge.support_valid
            &&& q.relationship_id@ == edge.id@
            &&& q.predicate_name@ == edge.relation_type@
            &&& q.target_memory_id@ == edge.memory_id->0@
            &&& edge.subject_entity_id@ == current@ ==> q.neighbor_entity_id@
                == edge.object_entity_id@ && q.neighbor_entity_key@ == edge.object_entity_key@
                && q.direction@ == "forward"@
            &&& edge.subject_entity_id@ != current@ ==> edge.object_entity_id@ == current@
                && q.neighbor_entity_id@ == edge.subject_entity_id@ && q.neighbor_entity_key@
                == edge.subject_entity_key@ && q.direction@ == "reverse"@
        },
        metadata.routing == Some(true) && metadata.contract is Some && metadata.contract->0@
            == "evidence_join_v2"@ && metadata.contract_version == Some(2u64)
            && !metadata.names_object_memory && edge.relation_type@ != "related_to"@
            && edge.memory_id is Some && edge.support_valid && (edge.subject_entity_id@ == current@
            || edge.object_entity_id@ == current@) ==> answer is Ok && answer->Ok_0 is Some,
{
}

/// Whether a span is a run of words of a query, of one word up to five, and no single
/// word that says nothing.
pub open spec fn is_span_of(query: Seq<char>, span: SpanModel) -> bool {
    let list = words(query);
    &&& 0 <= span.start < span.end <= list.len()
    &&& span.end - span.start <= 5
    &&& span.normalized == span_text(list, span.start, span.end)
    &&& span.end == span.start + 1 ==> span.normalized != "the"@ && span.normalized != "what"@
        && span.normalized != "is"@
}

proof fn lemma_stopwords(text: Seq<char>)
    requires
        !crate::evidence::entity_stopwords().contains(text),
    ensures
        text != "the"@ && text != "what"@ && text != "is"@,
{
    let all = crate::evidence::entity_stopwords();
    assert(all[15] == "the"@ && all[19] == "what"@ && all[12] == "is"@);
}

/// Whether a span is a run of words of a width.
spec fn is_run(query: Seq<char>, index: usize, width: nat, span: SpanModel) -> bool {
    is_span_of(query, span) && span.end - span.start == width && span.query_index == index
}

proof fn lemma_width_spans(query: Seq<char>, index: usize, width: nat, starts: nat)
    requires
        1 <= width <= 5,
        starts + width <= words(query).len() + 1,
    ensures
        forall|i: int|
            0 <= i < width_spans(words(query), index, width, starts).len() ==> is_run(
                query,
                index,
                width,
                #[trigger] width_spans(words(query), index, width, starts)[i],
            ),
    decreases starts,
{
    if starts > 0 {
        lemma_width_spans(query, index, width, (starts - 1) as nat);
        let start = starts - 1;
        let text = span_text(words(query), start, start + width);
        if width == 1 && !crate::evidence::entity_stopwords().contains(text) {
            lemma_stopwords(text);
        }
        let before = width_spans(words(query), index, width, (starts - 1) as nat);
        let after = width_spans(words(query), index, width, starts);
        assert forall|i: int| 0 <= i < after.len() implies is_run(
            query,
            index,
            width,
            #[trigger] after[i],
        ) by {
            if i < before.len() {
                assert(after[i] == before[i]);
            }
        }
    }
}

proof fn lemma_wide_spans(query: Seq<char>, index: usize, rows: nat)
    requires
        rows <= widest(words(query)),
    ensures
        ({
            let list = wide_spans(words(query), index, widest(words(query)), rows);
            &&& forall|i: int|
                0 <= i < list.len() ==> is_span_of(query, #[trigger] list[i])
                    && list[i].query_index == index && list[i].end - list[i].start > widest(
                    words(query),
                ) - rows
            &&& forall|i: int, j: int|
                0 <= i < j < list.len() ==> (#[trigger] list[i]).end - list[i].start >= (
                #[trigger] list[j]).end - list[j].start
        }),
    decreases rows,
{
    if rows > 0 {
        let list = words(query);
        let max = widest(list);
        lemma_wide_spans(query, index, (rows - 1) as nat);
        let width = (max - (rows - 1)) as nat;
        lemma_width_spans(query, index, width, (list.len() - width + 1) as nat);
        let before = wide_spans(list, index, max, (rows - 1) as nat);
        let more = width_spans(list, index, width, (list.len() - width + 1) as nat);
        let all = before + more;
        assert forall|i: int| 0 <= i < all.len() implies is_span_of(query, #[trigger] all[i])
            && all[i].query_index == index && all[i].end - all[i].start > max - rows by {
            if i < before.len() {
                assert(all[i] == before[i]);
            } else {
                assert(all[i] == more[i - before.len()]);
                assert(is_run(query, index, width, more[i - before.len()]));
            }
        }
        assert forall|i: int, j: int| 0 <= i < j < all.len() implies (#[trigger] all[i]).end
            - all[i].start >= (#[trigger] all[j]).end - all[j].start by {
            if j < before.len() {
                assert(all[i] == before[i] && all[j] == before[j]);
            } else if i < before.len() {
                assert(all[i] == before[i] && all[j] == more[j - before.len()]);
                assert(is_run(query, index, width, more[j - before.len()]));
            } else {
                assert(is_run(query, index, width, more[i - before.len()]));
                assert(is_run(query, index, width, more[j - before.len()]));
                assert(all[i] == more[i - before.len()] && all[j] == more[j - before.len()]);
            }
        }
    }
}

proof fn lemma_all_spans(queries: Seq<Seq<char>>)
    requires
        queries.len() <= usize::MAX,
    ensures
        forall|i: int|
            0 <= i < all_spans(queries).len() ==> (#[trigger] all_spans(queries)[i]).query_index
                < queries.len() && is_span_of(
                queries[all_spans(queries)[i].query_index as int],
                all_spans(queries)[i],
            ),
        forall|i: int, j: int|
            0 <= i < j < all_spans(queries).len() ==> {
                let a = #[trigger] all_spans(queries)[i];
                let b = #[trigger] all_spans(queries)[j];
                a.query_index < b.query_index || (a.query_index == b.query_index && a.end - a.start
                    >= b.end - b.start)
            },
    decreases queries.len(),
{
    if queries.len() > 0 {
        let rest = queries.drop_last();
        let index = (queries.len() - 1) as usize;
        lemma_all_spans(rest);
        let before = all_spans(rest);
        let more = query_spans(queries.last(), index);
        let all = before + more;
        lemma_wide_spans(queries.last(), index, widest(words(queries.last())));
        assert forall|i: int| 0 <= i < all.len() implies (#[trigger] all[i]).query_index
            < queries.len() && is_span_of(queries[all[i].query_index as int], all[i]) by {
            if i < before.len() {
                assert(all[i] == before[i]);
                assert(queries[before[i].query_index as int] == rest[before[i].query_index as int]);
            } else {
                assert(all[i] == more[i - before.len()]);
            }
        }
        assert forall|i: int, j: int| 0 <= i < j < all.len() implies {
            let a = #[trigger] all[i];
            let b = #[trigger] all[j];
            a.query_index < b.query_index || (a.query_index == b.query_index && a.end - a.start
                >= b.end - b.start)
        } by {
            if j < before.len() {
                assert(all[i] == before[i] && all[j] == before[j]);
            } else if i < before.len() {
                assert(all[i] == before[i] && all[j] == more[j - before.len()]);
            } else {
                assert(all[i] == more[i - before.len()] && all[j] == more[j - before.len()]);
            }
        }
    }
}

/// Entities are looked for by runs of words of the queries: at most thirty-two runs, of
/// one word up to five, in the order of the queries and the longest first.
pub proof fn law_spans_are_runs_of_words(queries: Vec<String>, spans: Vec<EvidenceQuerySpan>)
    requires
        call_ensures(evidence_query_spans, (&queries,), spans),
    ensures
        spans@.len() <= 32,
        forall|i: int|
            0 <= i < spans@.len() ==> (#[trigger] spans@[i]).query_index < queries@.len()
                && is_span_of(queries@[spans@[i].query_index as int]@, spans@[i]@),
        forall|i: int, j: int|
            0 <= i < j < spans@.len() ==> (#[trigger] spans@[i]).query_index < (
            #[trigger] spans@[j]).query_index || (spans@[i].query_index == spans@[j].query_index
                && spans@[i].end - spans@[i].start >= spans@[j].end - spans@[j].start),
{
    let texts = views(queries@);
    assert(texts.len() == queries@.len());
    assert(queries@.len() == queries.len());
    lemma_all_spans(texts);
    let models = span_models(spans@);
    assert(models.len() == spans@.len());
    assert forall|i: int| 0 <= i < spans@.len() implies (#[trigger] spans@[i])@ == all_spans(
        texts,
    )[i] by {
        assert(models[i] == spans@[i]@);
    }
    assert forall|i: int| 0 <= i < spans@.len() implies (#[trigger] spans@[i]).query_index
        < queries@.len() && is_span_of(
        queries@[spans@[i].query_index as int]@,
        spans@[i]@,
    ) by {
        assert(spans@[i]@ == all_spans(texts)[i]);
        assert(texts[spans@[i].query_index as int] == queries@[spans@[i].query_index as int]@);
    }
    assert forall|i: int, j: int| 0 <= i < j < spans@.len() implies (
    #[trigger] spans@[i]).query_index < (#[trigger] spans@[j]).query_index || (
    spans@[i].query_index == spans@[j].query_index && spans@[i].end - spans@[i].start
        >= spans@[j].end - spans@[j].start) by {
        assert(spans@[i]@ == all_spans(texts)[i] && spans@[j]@ == all_spans(texts)[j]);
    }
}

} // verus!
