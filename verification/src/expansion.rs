//! Joining graph evidence into a retrieval pool.

use vstd::prelude::*;

use crate::evidence::first_n;
use crate::pool::{
    clone_observations, clone_text, items, observations, position_of, AdmissionObservation,
    AdmissionSource, ItemModel, ObservationModel, PackPoolItem,
};
use crate::ranking::{
    goes_before, key_less, key_models, place_of_zero, positions, sort_order, sorting, zero_place,
    KeyModel, Score, SortKey, SortText,
};
use crate::routes::{
    best_entry, best_route, candidates, class_rank, entries, max_activation, top_activation,
    CandidateModel, EntryModel, EvidenceCandidate, EvidenceCandidateRoute,
};
use crate::pool::GraphEvidenceClass;
use crate::text::text_eq;

verus! {

/// The bounds of an evidence join.
#[derive(Debug, Clone, Copy)]
pub struct EvidenceJoinOptions {
    /// Seeds that are followed at most.
    pub max_graph_seeds: usize,
    /// New memories that are admitted at most.
    pub max_graph_neighbors: usize,
}

/// The sort key of a reached memory: class and length of its best route, then
/// activation, then id.
pub open spec fn candidate_key(candidate: CandidateModel) -> KeyModel {
    let best = best_entry(candidate.routes);
    KeyModel {
        numbers: seq![
            class_rank(best.route.evidence_class) as i128,
            best.route.hop_depth as i128,
            (-(best.activation.key as int)) as i128,
            zero_place(best.activation, best.negative_zero),
        ],
        texts: seq![(candidate.memory_id, false)],
    }
}

/// The sort keys of reached memories.
pub open spec fn candidate_keys(list: Seq<CandidateModel>) -> Seq<KeyModel> {
    list.map_values(|c: CandidateModel| candidate_key(c))
}

/// The positions of the memories that a route reaches.
pub open spec fn routed_places(list: Seq<CandidateModel>) -> Seq<int>
    decreases list.len(),
{
    if list.len() == 0 {
        Seq::empty()
    } else if list.last().routes.len() > 0 {
        routed_places(list.drop_last()).push(list.len() - 1)
    } else {
        routed_places(list.drop_last())
    }
}

/// The memories that a route reaches.
pub open spec fn routed(list: Seq<CandidateModel>) -> Seq<CandidateModel> {
    routed_places(list).map_values(|i: int| list[i])
}

/// The positions of the memories that a route reaches, in the order in which they
/// are allocated.
pub open spec fn allocation_places(list: Seq<CandidateModel>) -> Seq<int> {
    sorting(candidate_keys(routed(list))).map_values(|i: int| routed_places(list)[i])
}

/// The memories that a route reaches, in the order in which they are allocated.
pub open spec fn allocation(list: Seq<CandidateModel>) -> Seq<CandidateModel> {
    allocation_places(list).map_values(|i: int| list[i])
}

proof fn lemma_routed_places(list: Seq<CandidateModel>)
    ensures
        routed_places(list).len() <= list.len(),
        forall|k: int|
            0 <= k < routed_places(list).len() ==> 0 <= #[trigger] routed_places(list)[k]
                < list.len() && list[routed_places(list)[k]].routes.len() > 0,
        forall|k: int, l: int|
            0 <= k < l < routed_places(list).len() ==> routed_places(list)[k]
                < routed_places(list)[l],
        forall|i: int|
            0 <= i < list.len() && (#[trigger] list[i]).routes.len() > 0 ==> routed_places(
                list,
            ).contains(i),
    decreases list.len(),
{
    if list.len() > 0 {
        let rest = list.drop_last();
        let before = routed_places(rest);
        let after = routed_places(list);
        lemma_routed_places(rest);
        assert forall|k: int| 0 <= k < after.len() implies 0 <= #[trigger] after[k] < list.len()
            && list[after[k]].routes.len() > 0 by {
            if k < before.len() {
                assert(after[k] == before[k]);
                assert(rest[before[k]] == list[before[k]]);
            }
        }
        assert forall|k: int, l: int| 0 <= k < l < after.len() implies after[k] < after[l] by {
            assert(after[k] == before[k]);
            if l < before.len() {
                assert(after[l] == before[l]);
            }
        }
        assert forall|i: int| 0 <= i < list.len() && (#[trigger] list[i]).routes.len()
            > 0 implies after.contains(i) by {
            if i < rest.len() {
                assert(rest[i] == list[i]);
                let k = choose|k: int| 0 <= k < before.len() && before[k] == i;
                assert(after[k] == i);
            } else {
                assert(after[after.len() - 1] == i);
            }
        }
    }
}

proof fn lemma_allocation(list: Seq<CandidateModel>)
    ensures
        allocation(list).len() == routed_places(list).len(),
        allocation_places(list).len() == routed_places(list).len(),
        allocation(list).len() <= list.len(),
        forall|k: int|
            0 <= k < allocation_places(list).len() ==> 0 <= #[trigger] allocation_places(list)[k]
                < list.len(),
{
    lemma_routed_places(list);
    let order = sorting(candidate_keys(routed(list)));
    crate::ranking::law_sorting_exists(candidate_keys(routed(list)));
    assert forall|k: int| 0 <= k < order.len() implies 0 <= #[trigger] allocation_places(list)[k]
        < list.len() by {
        assert(0 <= order[k] < routed_places(list).len());
    }
}

/// An allocation is sorted: by the class and the length of the best route, then by
/// its activation, greatest first and a zero with a minus sign after the other one,
/// then by id.
pub proof fn law_allocation_is_sorted(list: Seq<CandidateModel>, k: int, l: int)
    requires
        0 <= k < l < allocation(list).len(),
    ensures
        ({
            let earlier = candidate_key(allocation(list)[k]);
            let later = candidate_key(allocation(list)[l]);
            key_less(earlier, later) || earlier == later
        }),
{
    let keys = candidate_keys(routed(list));
    let order = sorting(keys);
    lemma_routed_places(list);
    crate::ranking::law_sorting_exists(keys);
    assert(goes_before(keys, order[k], order[l]));
    assert(0 <= order[k] < keys.len() && 0 <= order[l] < keys.len());
    assert(keys[order[k]] == candidate_key(allocation(list)[k]));
    assert(keys[order[l]] == candidate_key(allocation(list)[l]));
}

/// An allocation lists every memory that a route reaches, and each of them once.
pub proof fn law_allocation_lists_routed(list: Seq<CandidateModel>, i: int)
    requires
        0 <= i < list.len(),
    ensures
        allocation_places(list).contains(i) <==> list[i].routes.len() > 0,
        forall|k: int, l: int|
            0 <= k < l < allocation_places(list).len() ==> allocation_places(list)[k]
                != allocation_places(list)[l],
{
    let places = routed_places(list);
    let keys = candidate_keys(routed(list));
    let order = sorting(keys);
    let all = allocation_places(list);
    lemma_routed_places(list);
    crate::ranking::law_sorting_exists(keys);
    crate::ranking::law_sorting_is_injective(order, keys);
    if list[i].routes.len() > 0 {
        let k = choose|k: int| 0 <= k < places.len() && places[k] == i;
        crate::ranking::law_sorting_is_surjective(order, keys, k);
        let l = choose|l: int| 0 <= l < order.len() && order[l] == k;
        assert(all[l] == i);
    }
    if all.contains(i) {
        let l = choose|l: int| 0 <= l < all.len() && all[l] == i;
        assert(0 <= order[l] < places.len());
        assert(places[order[l]] == i);
    }
    assert forall|k: int, l: int| 0 <= k < l < all.len() implies all[k] != all[l] by {
        assert(order[k] != order[l]);
        assert(0 <= order[k] < places.len() && 0 <= order[l] < places.len());
        if order[k] < order[l] {
            assert(places[order[k]] < places[order[l]]);
        } else {
            assert(places[order[l]] < places[order[k]]);
        }
    }
}

fn places_with_routes(list: &Vec<EvidenceCandidate>) -> (r: Vec<usize>)
    ensures
        positions(r@) == routed_places(candidates(list@)),
{
    let ghost models = candidates(list@);
    let mut out: Vec<usize> = Vec::new();
    assert(positions(out@) =~= routed_places(models.take(0)));
    for i in 0..list.len()
        invariant
            models == candidates(list@),
            positions(out@) == routed_places(models.take(i as int)),
    {
        assert(models.take(i + 1).drop_last() =~= models.take(i as int));
        assert(models.take(i + 1).last() == list@[i as int]@);
        assert(entries(list@[i as int].routes@).len() == list@[i as int].routes@.len());
        if list[i].routes.len() > 0 {
            let ghost before = out@;
            out.push(i);
            assert(positions(out@) =~= positions(before).push(i as int));
        }
    }
    assert(models.take(list@.len() as int) =~= models);
    out
}

/// The positions of the memories that a route reaches in the order of allocation:
/// exact support before fallback, fewer hops, more activation, then by id. A memory
/// without a route is passed over.
pub fn evidence_candidate_order(list: &Vec<EvidenceCandidate>) -> (r: Vec<usize>)
    ensures
        positions(r@) == allocation_places(candidates(list@)),
        r@.len() <= list@.len(),
        forall|i: int| 0 <= i < r@.len() ==> (#[trigger] r@[i]) < list@.len(),
{
    let ghost models = candidates(list@);
    let places = places_with_routes(list);
    let ghost kept = routed(models);
    let ghost wanted = candidate_keys(kept);
    proof {
        lemma_routed_places(models);
        lemma_allocation(models);
        assert(positions(places@).len() == places@.len());
    }
    let mut keys: Vec<SortKey> = Vec::new();
    assert(key_models(keys@) =~= wanted.take(0));
    for k in 0..places.len()
        invariant
            models == candidates(list@),
            kept == routed(models),
            wanted == candidate_keys(kept),
            positions(places@) == routed_places(models),
            places@.len() == routed_places(models).len(),
            forall|k: int|
                0 <= k < routed_places(models).len() ==> 0 <= #[trigger] routed_places(models)[k]
                    < models.len() && models[routed_places(models)[k]].routes.len() > 0,
            key_models(keys@) == wanted.take(k as int),
    {
        let i: usize = places[k];
        assert(positions(places@)[k as int] == i);
        assert(routed_places(models)[k as int] == i);
        assert(models[i as int].routes.len() > 0);
        assert(kept[k as int] == models[i as int]);
        let best = &list[i].routes[best_route(&list[i].routes)];
        let class: i128 = match best.route.evidence_class {
            GraphEvidenceClass::EndpointSupport => 0,
            GraphEvidenceClass::EntityFallback => 1,
        };
        let mut numbers: Vec<i128> = Vec::new();
        numbers.push(class);
        numbers.push(best.route.hop_depth as i128);
        numbers.push(-(best.activation.key as i128));
        numbers.push(place_of_zero(best.activation, best.negative_zero));
        let mut texts: Vec<SortText> = Vec::new();
        texts.push(SortText { text: list[i].memory_id.clone(), descending: false });
        let key = SortKey { numbers, texts };
        proof {
            assert(key@.numbers =~= wanted[k as int].numbers);
            assert(key@.texts =~= wanted[k as int].texts);
        }
        let ghost before = keys@;
        keys.push(key);
        assert(key_models(keys@) =~= key_models(before).push(wanted[k as int]));
        assert(wanted.take(k + 1) =~= wanted.take(k as int).push(wanted[k as int]));
    }
    assert(wanted.take(places@.len() as int) =~= wanted);
    let order = sort_order(keys.as_slice());
    let ghost sorted = sorting(wanted);
    let mut out: Vec<usize> = Vec::new();
    proof {
        assert(positions(order@).len() == order@.len());
        assert(positions(out@) =~= allocation_places(models).take(0));
        crate::ranking::law_sorting_exists(wanted);
    }
    for k in 0..order.len()
        invariant
            models == candidates(list@),
            positions(order@) == sorted,
            sorted == sorting(candidate_keys(routed(models))),
            order@.len() == sorted.len(),
            forall|i: int| 0 <= i < sorted.len() ==> 0 <= #[trigger] sorted[i] < places@.len(),
            positions(places@) == routed_places(models),
            positions(out@) == allocation_places(models).take(k as int),
    {
        assert(positions(order@)[k as int] == order@[k as int]);
        let at: usize = order[k];
        assert(sorted[k as int] == at);
        assert(positions(places@)[at as int] == places@[at as int]);
        let ghost before = out@;
        out.push(places[at]);
        assert(allocation_places(models)[k as int] == places@[at as int]);
        assert(positions(out@) =~= positions(before).push(places@[at as int] as int));
        assert(allocation_places(models).take(k + 1) =~= allocation_places(models).take(
            k as int,
        ).push(allocation_places(models)[k as int]));
    }
    proof {
        assert(allocation_places(models).take(order@.len() as int) =~= allocation_places(models));
        assert(positions(out@).len() == out@.len());
        assert forall|i: int| 0 <= i < out@.len() implies (#[trigger] out@[i]) < list@.len() by {
            assert(positions(out@)[i] == out@[i]);
            assert(0 <= allocation_places(models)[i] < models.len());
        }
    }
    out
}

/// The observation that a route to a memory makes.
pub open spec fn graph_observation(entry: EntryModel) -> ObservationModel {
    ObservationModel {
        source: AdmissionSource::Graph,
        query_index: match entry.route.matched_query_index {
            Some(index) => index,
            None => 0,
        },
        source_rank: 0,
        seed_memory_id: entry.route.seed_memory_id,
        activation: Some(entry.activation),
        graph_route: Some(entry.route),
    }
}

/// The observations that the routes to a memory make.
pub open spec fn graph_observations(routes: Seq<EntryModel>) -> Seq<ObservationModel> {
    routes.map_values(|e: EntryModel| graph_observation(e))
}

/// The observations that the routes to a memory make.
pub fn evidence_route_admissions(routes: &Vec<EvidenceCandidateRoute>) -> (r: Vec<
    AdmissionObservation,
>)
    ensures
        observations(r@) == graph_observations(entries(routes@)),
{
    let ghost wanted = graph_observations(entries(routes@));
    let mut out: Vec<AdmissionObservation> = Vec::new();
    for i in 0..routes.len()
        invariant
            wanted == graph_observations(entries(routes@)),
            observations(out@) == wanted.take(i as int),
    {
        let entry = &routes[i];
        let query_index: usize = match entry.route.matched_query_index {
            Some(index) => index,
            None => 0,
        };
        let ghost before = out@;
        out.push(
            AdmissionObservation {
                source: AdmissionSource::Graph,
                query_index,
                source_rank: 0,
                seed_memory_id: clone_text(&entry.route.seed_memory_id),
                activation: Some(entry.activation),
                graph_route: Some(entry.route.clone()),
            },
        );
        assert(observations(out@) =~= observations(before).push(wanted[i as int]));
        assert(wanted.take(i + 1) =~= wanted.take(i as int).push(wanted[i as int]));
    }
    assert(wanted.take(routes@.len() as int) =~= wanted);
    out
}

/// The first position of the memory among the reached ones.
pub open spec fn find_candidate(list: Seq<CandidateModel>, id: Seq<char>) -> Option<int>
    decreases list.len(),
{
    if list.len() == 0 {
        None
    } else {
        match find_candidate(list.drop_last(), id) {
            Some(i) => Some(i),
            None => if list.last().memory_id == id {
                Some(list.len() - 1)
            } else {
                None
            },
        }
    }
}

/// A found position holds the memory, and no earlier one does.
pub proof fn lemma_find_candidate(list: Seq<CandidateModel>, id: Seq<char>)
    ensures
        match find_candidate(list, id) {
            Some(i) => 0 <= i < list.len() && list[i].memory_id == id && forall|j: int|
                0 <= j < i ==> list[j].memory_id != id,
            None => forall|j: int| 0 <= j < list.len() ==> list[j].memory_id != id,
        },
    decreases list.len(),
{
    if list.len() > 0 {
        lemma_find_candidate(list.drop_last(), id);
        assert forall|j: int| 0 <= j < list.len() - 1 implies list[j] == list.drop_last()[j] by {}
    }
}

/// The position of the memory among the reached ones.
fn candidate_position(list: &Vec<EvidenceCandidate>, id: &str) -> (r: Option<usize>)
    ensures
        match r {
            Some(i) => find_candidate(candidates(list@), id@) == Some(i as int) && i < list@.len(),
            None => find_candidate(candidates(list@), id@) is None,
        },
{
    let ghost models = candidates(list@);
    for i in 0..list.len()
        invariant
            models == candidates(list@),
            forall|j: int| 0 <= j < i ==> models[j].memory_id != id@,
    {
        if text_eq(list[i].memory_id.as_str(), id) {
            proof {
                assert(models[i as int].memory_id == id@);
                lemma_find_candidate(models, id@);
            }
            return Some(i);
        }
    }
    proof {
        lemma_find_candidate(models, id@);
    }
    None
}

/// The reached memories that are not in the pool.
pub open spec fn fresh(list: Seq<CandidateModel>, pool: Seq<ItemModel>) -> Seq<CandidateModel>
    decreases list.len(),
{
    if list.len() == 0 {
        list
    } else {
        let before = fresh(list.drop_last(), pool);
        if crate::pool::find_id(pool, list.last().memory_id) is None {
            before.push(list.last())
        } else {
            before
        }
    }
}

/// A pool item with the observations of the routes that reach its memory.
pub open spec fn observed_item(item: ItemModel, found: Seq<CandidateModel>) -> ItemModel {
    match find_candidate(found, item.memory_id) {
        Some(i) => ItemModel {
            admissions: item.admissions + graph_observations(found[i].routes),
            ..item
        },
        None => item,
    }
}

/// The pool item that a newly reached memory makes.
pub open spec fn fresh_item(candidate: CandidateModel) -> ItemModel {
    ItemModel {
        memory_id: candidate.memory_id,
        score: top_activation(candidate.routes),
        admissions: graph_observations(candidate.routes),
    }
}

/// The pool after an evidence join: its items with the routes that reach them,
/// then the first newly reached memories in the order of allocation.
pub open spec fn expanded_pool(
    pool: Seq<ItemModel>,
    found: Seq<CandidateModel>,
    max_neighbors: nat,
) -> Seq<ItemModel> {
    pool.map_values(|item: ItemModel| observed_item(item, found)) + first_n(
        allocation(fresh(found, pool)),
        max_neighbors,
    ).map_values(|c: CandidateModel| fresh_item(c))
}

/// The activation of each reached memory.
pub open spec fn activation_list(found: Seq<CandidateModel>) -> Seq<(Seq<char>, Score)> {
    found.map_values(|c: CandidateModel| (c.memory_id, top_activation(c.routes)))
}

/// The one-based allocation ranks: of all newly reached memories for a trace, of
/// the admitted ones otherwise.
pub open spec fn rank_list(
    found: Seq<CandidateModel>,
    pool: Seq<ItemModel>,
    max_neighbors: nat,
    trace: bool,
) -> Seq<(Seq<char>, usize)> {
    let all = allocation(fresh(found, pool));
    let listed = if trace {
        all
    } else {
        first_n(all, max_neighbors)
    };
    Seq::new(listed.len(), |i: int| (listed[i].memory_id, (i + 1) as usize))
}

/// The observations of each reached memory.
pub open spec fn admission_list(
    found: Seq<CandidateModel>,
) -> Seq<(Seq<char>, Seq<ObservationModel>)> {
    found.map_values(|c: CandidateModel| (c.memory_id, graph_observations(c.routes)))
}

/// Result of the evidence-backed graph join over a candidate pool.
pub struct GraphExpandedPool {
    /// The pool after the join.
    pub pool: Vec<PackPoolItem>,
    /// Activation of each reached memory.
    pub activations: Vec<(String, Score)>,
    /// One-based allocation ranks of newly reached memories, in order.
    pub allocation_ranks: Vec<(String, usize)>,
    /// Observations of each reached memory.
    pub route_admissions: Vec<(String, Vec<AdmissionObservation>)>,
    /// What came of the join.
    pub outcome: Option<String>,
}

/// The models of activations.
pub open spec fn activation_models(list: Seq<(String, Score)>) -> Seq<(Seq<char>, Score)> {
    list.map_values(|p: (String, Score)| (p.0@, p.1))
}

/// The models of allocation ranks.
pub open spec fn rank_models(list: Seq<(String, usize)>) -> Seq<(Seq<char>, usize)> {
    list.map_values(|p: (String, usize)| (p.0@, p.1))
}

/// The models of observations by memory.
pub open spec fn admission_models(
    list: Seq<(String, Vec<AdmissionObservation>)>,
) -> Seq<(Seq<char>, Seq<ObservationModel>)> {
    list.map_values(|p: (String, Vec<AdmissionObservation>)| (p.0@, observations(p.1@)))
}

/// Copies the reached memories that are not in the pool.
fn fresh_candidates(list: &Vec<EvidenceCandidate>, pool: &Vec<PackPoolItem>) -> (r: Vec<
    EvidenceCandidate,
>)
    ensures
        candidates(r@) == fresh(candidates(list@), items(pool@)),
{
    let ghost models = candidates(list@);
    let mut out: Vec<EvidenceCandidate> = Vec::new();
    assert(candidates(out@) =~= fresh(models.take(0), items(pool@)));
    for i in 0..list.len()
        invariant
            models == candidates(list@),
            candidates(out@) == fresh(models.take(i as int), items(pool@)),
    {
        proof {
            assert(models.take(i + 1).drop_last() =~= models.take(i as int));
            assert(models.take(i + 1).last() == list@[i as int]@);
        }
        if position_of(pool, list[i].memory_id.as_str()).is_none() {
            let routes = clone_routes(&list[i].routes);
            let ghost before = out@;
            out.push(EvidenceCandidate { memory_id: list[i].memory_id.clone(), routes });
            assert(candidates(out@) =~= candidates(before).push(list@[i as int]@));
        }
    }
    assert(models.take(list@.len() as int) =~= models);
    out
}

/// A copy of a list of routes.
fn clone_routes(list: &Vec<EvidenceCandidateRoute>) -> (r: Vec<EvidenceCandidateRoute>)
    ensures
        entries(r@) == entries(list@),
{
    let mut out: Vec<EvidenceCandidateRoute> = Vec::new();
    for i in 0..list.len()
        invariant
            entries(out@) == entries(list@).take(i as int),
    {
        let ghost before = out@;
        out.push(list[i].clone());
        assert(entries(out@) =~= entries(before).push(list@[i as int]@));
        assert(entries(list@).take(i + 1) =~= entries(list@).take(i as int).push(
            list@[i as int]@,
        ));
    }
    assert(entries(list@).take(list@.len() as int) =~= entries(list@));
    out
}

/// Appends observations to a list.
fn append_observations(list: &mut Vec<AdmissionObservation>, more: &Vec<AdmissionObservation>)
    ensures
        observations(final(list)@) == observations(old(list)@) + observations(more@),
{
    let ghost base = observations(list@);
    let ghost wanted = observations(more@);
    assert(base + wanted.take(0) =~= base);
    for i in 0..more.len()
        invariant
            wanted == observations(more@),
            observations(list@) == base + wanted.take(i as int),
    {
        let ghost before = list@;
        list.push(more[i].clone());
        assert(observations(list@) =~= observations(before).push(wanted[i as int]));
        assert(base + wanted.take(i + 1) =~= (base + wanted.take(i as int)).push(
            wanted[i as int],
        ));
    }
    assert(wanted.take(more@.len() as int) =~= wanted);
}

/// The items of the pool with the observations of the routes that reach them.
fn observed_pool(pool: &Vec<PackPoolItem>, found: &Vec<EvidenceCandidate>) -> (r: Vec<PackPoolItem>)
    ensures
        items(r@) == items(pool@).map_values(
            |item: ItemModel| observed_item(item, candidates(found@)),
        ),
{
    let ghost wanted = items(pool@).map_values(
        |item: ItemModel| observed_item(item, candidates(found@)),
    );
    let mut out: Vec<PackPoolItem> = Vec::new();
    for i in 0..pool.len()
        invariant
            wanted == items(pool@).map_values(
                |item: ItemModel| observed_item(item, candidates(found@)),
            ),
            items(out@) == wanted.take(i as int),
    {
        let mut item = pool[i].clone();
        match candidate_position(found, item.memory_id.as_str()) {
            Some(k) => {
                let more = evidence_route_admissions(&found[k].routes);
                let mut admissions = clone_observations(&item.admissions);
                append_observations(&mut admissions, &more);
                item.admissions = admissions;
            },
            None => {},
        }
        let ghost before = out@;
        assert(item@ == wanted[i as int]);
        out.push(item);
        assert(items(out@) =~= items(before).push(wanted[i as int]));
        assert(wanted.take(i + 1) =~= wanted.take(i as int).push(wanted[i as int]));
    }
    assert(wanted.take(pool@.len() as int) =~= wanted);
    out
}

/// Whether a join has anything to join.
pub open spec fn join_active(
    options: EvidenceJoinOptions,
    found: Seq<CandidateModel>,
) -> bool {
    options.max_graph_seeds > 0 && options.max_graph_neighbors > 0 && found.len() > 0
}

/// Joins the memories that an evidence traversal reached into a pool. Memories
/// of the pool keep their place and gain the observations of the routes; newly
/// reached ones follow in the order of allocation, as far as the bound allows.
/// With nothing to join the pool stays as it is.
pub fn evidence_graph_expand_pool(
    pool: &Vec<PackPoolItem>,
    found: &Vec<EvidenceCandidate>,
    options: EvidenceJoinOptions,
    trace_graph_allocation: bool,
) -> (r: GraphExpandedPool)
    ensures
        ({
            let models = candidates(found@);
            let before = items(pool@);
            if join_active(options, models) {
                &&& items(r.pool@) == expanded_pool(
                    before,
                    models,
                    options.max_graph_neighbors as nat,
                )
                &&& activation_models(r.activations@) == activation_list(models)
                &&& rank_models(r.allocation_ranks@) == rank_list(
                    models,
                    before,
                    options.max_graph_neighbors as nat,
                    trace_graph_allocation,
                )
                &&& admission_models(r.route_admissions@) == admission_list(models)
                &&& crate::json::text_of_string(r.outcome) == Some("active"@)
            } else {
                &&& items(r.pool@) == before
                &&& r.activations@.len() == 0
                &&& r.allocation_ranks@.len() == 0
                &&& r.route_admissions@.len() == 0
                &&& crate::json::text_of_string(r.outcome) == Some("no_eligible_seed_route"@)
            }
        }),
{
    if options.max_graph_seeds == 0 || options.max_graph_neighbors == 0 || found.len() == 0 {
        let mut same: Vec<PackPoolItem> = Vec::new();
        for i in 0..pool.len()
            invariant
                items(same@) == items(pool@).take(i as int),
        {
            let ghost before = same@;
            same.push(pool[i].clone());
            assert(items(same@) =~= items(before).push(pool@[i as int]@));
            assert(items(pool@).take(i + 1) =~= items(pool@).take(i as int).push(
                pool@[i as int]@,
            ));
        }
        assert(items(pool@).take(pool@.len() as int) =~= items(pool@));
        return GraphExpandedPool {
            pool: same,
            activations: Vec::new(),
            allocation_ranks: Vec::new(),
            route_admissions: Vec::new(),
            outcome: Some("no_eligible_seed_route".to_owned()),
        };
    }
    let ghost models = candidates(found@);
    let ghost before_pool = items(pool@);
    let new = fresh_candidates(found, pool);
    let ghost news = candidates(new@);
    proof {
        lemma_allocation(news);
    }
    let order = evidence_candidate_order(&new);
    let ghost all = allocation(news);
    assert(all.len() == order@.len()) by {
        assert(positions(order@).len() == order@.len());
    }
    assert forall|i: int| 0 <= i < order@.len() implies all[i] == new@[order@[i] as int]@ by {
        assert(positions(order@)[i] == order@[i]);
    }
    let mut expanded = observed_pool(pool, found);
    let ghost base = items(expanded@);
    let mut ranks: Vec<(String, usize)> = Vec::new();
    let keep: usize = options.max_graph_neighbors;
    let ghost kept = first_n(all, keep as nat).map_values(|c: CandidateModel| fresh_item(c));
    let ghost listed = if trace_graph_allocation {
        all
    } else {
        first_n(all, keep as nat)
    };
    let ghost wanted = rank_list(models, before_pool, keep as nat, trace_graph_allocation);
    assert(base + kept.take(0) =~= base);
    assert(rank_models(ranks@) =~= wanted.take(0));
    for i in 0..order.len()
        invariant
            order@.len() == all.len(),
            forall|j: int| 0 <= j < order@.len() ==> (#[trigger] order@[j]) < new@.len(),
            forall|j: int| 0 <= j < order@.len() ==> all[j] == (#[trigger] new@[order@[j] as int])@,
            kept == first_n(all, keep as nat).map_values(|c: CandidateModel| fresh_item(c)),
            listed == if trace_graph_allocation {
                all
            } else {
                first_n(all, keep as nat)
            },
            wanted == Seq::new(listed.len(), |k: int| (listed[k].memory_id, (k + 1) as usize)),
            items(expanded@) == base + kept.take(
                if i < kept.len() {
                    i as int
                } else {
                    kept.len() as int
                },
            ),
            rank_models(ranks@) == wanted.take(
                if i < wanted.len() {
                    i as int
                } else {
                    wanted.len() as int
                },
            ),
    {
        let at: usize = order[i];
        assert(all[i as int] == new@[at as int]@);
        if i < keep {
            let admissions = evidence_route_admissions(&new[at].routes);
            let item = PackPoolItem {
                memory_id: new[at].memory_id.clone(),
                score: max_activation(&new[at].routes),
                admissions,
            };
            let ghost now = expanded@;
            assert(item@ == fresh_item(all[i as int]));
            assert(i < kept.len());
            assert(kept[i as int] == item@);
            expanded.push(item);
            assert(items(expanded@) =~= items(now).push(kept[i as int]));
            assert(base + kept.take(i + 1) =~= (base + kept.take(i as int)).push(
                kept[i as int],
            ));
        } else {
            assert(kept.len() == keep);
        }
        if trace_graph_allocation || i < keep {
            let ghost now = ranks@;
            ranks.push((new[at].memory_id.clone(), i + 1));
            assert(wanted[i as int] == (all[i as int].memory_id, (i + 1) as usize));
            assert(rank_models(ranks@) =~= rank_models(now).push(wanted[i as int]));
            assert(wanted.take(i + 1) =~= wanted.take(i as int).push(wanted[i as int]));
        } else {
            assert(wanted.len() == keep);
        }
    }
    assert(kept.take(kept.len() as int) =~= kept);
    assert(wanted.take(wanted.len() as int) =~= wanted);
    let mut activations: Vec<(String, Score)> = Vec::new();
    let mut admissions: Vec<(String, Vec<AdmissionObservation>)> = Vec::new();
    let ghost wanted_activations = activation_list(models);
    let ghost wanted_admissions = admission_list(models);
    assert(activation_models(activations@) =~= wanted_activations.take(0));
    assert(admission_models(admissions@) =~= wanted_admissions.take(0));
    for i in 0..found.len()
        invariant
            models == candidates(found@),
            wanted_activations == activation_list(models),
            wanted_admissions == admission_list(models),
            activation_models(activations@) == wanted_activations.take(i as int),
            admission_models(admissions@) == wanted_admissions.take(i as int),
    {
        let ghost a = activations@;
        let ghost b = admissions@;
        activations.push((found[i].memory_id.clone(), max_activation(&found[i].routes)));
        admissions.push(
            (found[i].memory_id.clone(), evidence_route_admissions(&found[i].routes)),
        );
        proof {
            assert(activation_models(activations@) =~= activation_models(a).push(
                wanted_activations[i as int],
            ));
            assert(admission_models(admissions@) =~= admission_models(b).push(
                wanted_admissions[i as int],
            ));
            assert(wanted_activations.take(i + 1) =~= wanted_activations.take(i as int).push(
                wanted_activations[i as int],
            ));
            assert(wanted_admissions.take(i + 1) =~= wanted_admissions.take(i as int).push(
                wanted_admissions[i as int],
            ));
        }
    }
    assert(wanted_activations.take(found@.len() as int) =~= wanted_activations);
    assert(wanted_admissions.take(found@.len() as int) =~= wanted_admissions);
    GraphExpandedPool {
        pool: expanded,
        activations,
        allocation_ranks: ranks,
        route_admissions: admissions,
        outcome: Some("active".to_owned()),
    }
}

/// An evidence join keeps every memory of the pool in its place and adds no more
/// than the bound allows.
pub proof fn law_join_keeps_pool(
    pool: Seq<ItemModel>,
    found: Seq<CandidateModel>,
    max_neighbors: nat,
)
    ensures
        expanded_pool(pool, found, max_neighbors).len() >= pool.len(),
        expanded_pool(pool, found, max_neighbors).len() <= pool.len() + max_neighbors,
        forall|i: int|
            0 <= i < pool.len() ==> (#[trigger] expanded_pool(pool, found, max_neighbors)[i]).memory_id
                == pool[i].memory_id && expanded_pool(pool, found, max_neighbors)[i].score
                == pool[i].score,
{
}

} // verus!
