//! The admission trace of a pool after an evidence join.

use vstd::prelude::*;

use crate::expansion::{activation_models, admission_models, rank_models};
use crate::pool::{
    clone_observations, find_id, items, lemma_find_id, observations, observed_models, position_of,
    AdmissionObservation, AdmissionSource, ItemModel, ObservationModel, ObservedModel, PackPoolItem,
    RerankPoolObservedCandidate,
};
use crate::ranking::{key_models, positions, sort_order, sorting, KeyModel, Score, SortKey, SortText};
use crate::text::text_eq;

verus! {

/// What a list of named values has under a name; the first one counts.
pub open spec fn lookup<V>(list: Seq<(Seq<char>, V)>, id: Seq<char>) -> Option<V>
    decreases list.len(),
{
    if list.len() == 0 {
        None
    } else {
        match lookup(list.drop_last(), id) {
            Some(v) => Some(v),
            None => if list.last().0 == id {
                Some(list.last().1)
            } else {
                None
            },
        }
    }
}

/// The entry at a position before which the name does not occur is the one found.
pub proof fn lemma_lookup_at<V>(list: Seq<(Seq<char>, V)>, id: Seq<char>, i: int)
    requires
        0 <= i < list.len(),
        list[i].0 == id,
        forall|j: int| 0 <= j < i ==> list[j].0 != id,
    ensures
        lookup(list, id) == Some(list[i].1),
    decreases list.len(),
{
    let rest = list.drop_last();
    if i < rest.len() {
        assert forall|j: int| 0 <= j < i implies rest[j].0 != id by {
            assert(rest[j] == list[j]);
        }
        lemma_lookup_at(rest, id, i);
    } else {
        lemma_lookup_none(rest, id);
    }
}

/// A name that does not occur is not found.
pub proof fn lemma_lookup_none<V>(list: Seq<(Seq<char>, V)>, id: Seq<char>)
    requires
        forall|j: int| 0 <= j < list.len() ==> list[j].0 != id,
    ensures
        lookup(list, id) is None,
    decreases list.len(),
{
    if list.len() > 0 {
        let rest = list.drop_last();
        assert forall|j: int| 0 <= j < rest.len() implies rest[j].0 != id by {
            assert(rest[j] == list[j]);
        }
        lemma_lookup_none(rest, id);
        assert(list[list.len() - 1].0 != id);
    }
}

/// The activation of a memory.
pub fn find_activation(list: &Vec<(String, Score)>, id: &str) -> (r: Option<Score>)
    ensures
        r == lookup(activation_models(list@), id@),
{
    let ghost models = activation_models(list@);
    for i in 0..list.len()
        invariant
            models == activation_models(list@),
            forall|j: int| 0 <= j < i ==> models[j].0 != id@,
    {
        if text_eq(list[i].0.as_str(), id) {
            proof {
                assert(models[i as int].0 == id@);
                lemma_lookup_at(models, id@, i as int);
            }
            return Some(list[i].1);
        }
    }
    proof {
        lemma_lookup_none(models, id@);
    }
    None
}

/// The allocation rank of a memory.
fn find_rank(list: &Vec<(String, usize)>, id: &str) -> (r: Option<usize>)
    ensures
        r == lookup(rank_models(list@), id@),
{
    let ghost models = rank_models(list@);
    for i in 0..list.len()
        invariant
            models == rank_models(list@),
            forall|j: int| 0 <= j < i ==> models[j].0 != id@,
    {
        if text_eq(list[i].0.as_str(), id) {
            proof {
                assert(models[i as int].0 == id@);
                lemma_lookup_at(models, id@, i as int);
            }
            return Some(list[i].1);
        }
    }
    proof {
        lemma_lookup_none(models, id@);
    }
    None
}

/// The position of the observations of a memory.
fn find_admissions(list: &Vec<(String, Vec<AdmissionObservation>)>, id: &str) -> (r: Option<usize>)
    ensures
        match r {
            Some(i) => i < list@.len() && lookup(admission_models(list@), id@) == Some(
                observations(list@[i as int].1@),
            ),
            None => lookup(admission_models(list@), id@) is None,
        },
{
    let ghost models = admission_models(list@);
    for i in 0..list.len()
        invariant
            models == admission_models(list@),
            forall|j: int| 0 <= j < i ==> models[j].0 != id@,
    {
        if text_eq(list[i].0.as_str(), id) {
            proof {
                assert(models[i as int].0 == id@);
                lemma_lookup_at(models, id@, i as int);
            }
            return Some(i);
        }
    }
    proof {
        lemma_lookup_none(models, id@);
    }
    None
}

/// The sort key of an activation: more activation first, then by id.
pub open spec fn activation_key(entry: (Seq<char>, Score)) -> KeyModel {
    KeyModel {
        numbers: seq![(-(entry.1.key as int)) as i128],
        texts: seq![(entry.0, false)],
    }
}

/// The one-based rank of each memory by activation.
pub open spec fn graph_ranks(activations: Seq<(Seq<char>, Score)>) -> Seq<(Seq<char>, usize)> {
    let order = sorting(activations.map_values(|e: (Seq<char>, Score)| activation_key(e)));
    Seq::new(order.len(), |i: int| (activations[order[i]].0, (i + 1) as usize))
}

/// The one-based rank of a memory by activation; 1 where it has none.
pub open spec fn graph_rank(activations: Seq<(Seq<char>, Score)>, id: Seq<char>) -> usize {
    match lookup(graph_ranks(activations), id) {
        Some(rank) => rank,
        None => 1,
    }
}

/// Ranks memories by activation.
pub(crate) fn rank_activations(activations: &Vec<(String, Score)>) -> (r: Vec<(String, usize)>)
    ensures
        rank_models(r@) == graph_ranks(activation_models(activations@)),
{
    let ghost models = activation_models(activations@);
    let ghost wanted_keys = models.map_values(|e: (Seq<char>, Score)| activation_key(e));
    let mut keys: Vec<SortKey> = Vec::new();
    assert(key_models(keys@) =~= wanted_keys.take(0));
    for i in 0..activations.len()
        invariant
            models == activation_models(activations@),
            wanted_keys == models.map_values(|e: (Seq<char>, Score)| activation_key(e)),
            key_models(keys@) == wanted_keys.take(i as int),
    {
        let mut numbers: Vec<i128> = Vec::new();
        numbers.push(-(activations[i].1.key as i128));
        let mut texts: Vec<SortText> = Vec::new();
        texts.push(SortText { text: activations[i].0.clone(), descending: false });
        let key = SortKey { numbers, texts };
        proof {
            assert(key@.numbers =~= wanted_keys[i as int].numbers);
            assert(key@.texts =~= wanted_keys[i as int].texts);
        }
        let ghost before = keys@;
        keys.push(key);
        assert(key_models(keys@) =~= key_models(before).push(wanted_keys[i as int]));
        assert(wanted_keys.take(i + 1) =~= wanted_keys.take(i as int).push(wanted_keys[i as int]));
    }
    assert(wanted_keys.take(activations@.len() as int) =~= wanted_keys);
    let order = sort_order(keys.as_slice());
    let ghost wanted = graph_ranks(models);
    let mut ranks: Vec<(String, usize)> = Vec::new();
    assert(rank_models(ranks@) =~= wanted.take(0));
    for i in 0..order.len()
        invariant
            models == activation_models(activations@),
            wanted == graph_ranks(models),
            positions(order@) == sorting(
                models.map_values(|e: (Seq<char>, Score)| activation_key(e)),
            ),
            crate::ranking::is_sorting(
                positions(order@),
                models.map_values(|e: (Seq<char>, Score)| activation_key(e)),
            ),
            rank_models(ranks@) == wanted.take(i as int),
    {
        let at: usize = order[i];
        assert(positions(order@)[i as int] == at);
        assert(at < activations@.len());
        let ghost before = ranks@;
        ranks.push((activations[at].0.clone(), i + 1));
        assert(wanted[i as int] == (models[at as int].0, (i + 1) as usize));
        assert(rank_models(ranks@) =~= rank_models(before).push(wanted[i as int]));
        assert(wanted.take(i + 1) =~= wanted.take(i as int).push(wanted[i as int]));
    }
    assert(positions(order@).len() == order@.len());
    assert(wanted.take(order@.len() as int) =~= wanted);
    ranks
}

/// The observations that no graph route made.
pub open spec fn direct_only(list: Seq<ObservationModel>) -> Seq<ObservationModel>
    decreases list.len(),
{
    if list.len() == 0 {
        list
    } else if list.last().source == AdmissionSource::Graph {
        direct_only(list.drop_last())
    } else {
        direct_only(list.drop_last()).push(list.last())
    }
}

/// The graph observations that know their route.
pub open spec fn routed_only(list: Seq<ObservationModel>) -> Seq<ObservationModel>
    decreases list.len(),
{
    if list.len() == 0 {
        list
    } else if list.last().source == AdmissionSource::Graph && list.last().graph_route is Some {
        routed_only(list.drop_last()).push(list.last())
    } else {
        routed_only(list.drop_last())
    }
}

/// The observations with the given rank.
pub open spec fn ranked(list: Seq<ObservationModel>, rank: usize) -> Seq<ObservationModel> {
    list.map_values(|o: ObservationModel| ObservationModel { source_rank: rank, ..o })
}

/// A graph observation that knows its activation only.
pub open spec fn plain_graph(rank: usize, activation: Score) -> ObservationModel {
    ObservationModel {
        source: AdmissionSource::Graph,
        query_index: 0,
        source_rank: rank,
        seed_memory_id: None,
        activation: Some(activation),
        graph_route: None,
    }
}

/// The observations of a pool item with its graph observations moved to the end
/// and given their rank; a plain one where no route is known.
pub open spec fn replaced(
    list: Seq<ObservationModel>,
    rank: usize,
    activation: Score,
) -> Seq<ObservationModel> {
    let routes = routed_only(list);
    if routes.len() == 0 {
        direct_only(list).push(plain_graph(rank, activation))
    } else {
        direct_only(list) + ranked(routes, rank)
    }
}

/// Copies the observations that no graph route made.
fn keep_direct(list: &Vec<AdmissionObservation>) -> (r: Vec<AdmissionObservation>)
    ensures
        observations(r@) == direct_only(observations(list@)),
{
    let ghost models = observations(list@);
    let mut out: Vec<AdmissionObservation> = Vec::new();
    assert(observations(out@) =~= direct_only(models.take(0)));
    for i in 0..list.len()
        invariant
            models == observations(list@),
            observations(out@) == direct_only(models.take(i as int)),
    {
        proof {
            assert(models.take(i + 1).drop_last() =~= models.take(i as int));
            assert(models.take(i + 1).last() == list@[i as int]@);
        }
        if list[i].source != AdmissionSource::Graph {
            let ghost before = out@;
            out.push(list[i].clone());
            assert(observations(out@) =~= observations(before).push(list@[i as int]@));
        }
    }
    assert(models.take(list@.len() as int) =~= models);
    out
}

/// Copies the graph observations that know their route.
fn keep_routed(list: &Vec<AdmissionObservation>) -> (r: Vec<AdmissionObservation>)
    ensures
        observations(r@) == routed_only(observations(list@)),
{
    let ghost models = observations(list@);
    let mut out: Vec<AdmissionObservation> = Vec::new();
    assert(observations(out@) =~= routed_only(models.take(0)));
    for i in 0..list.len()
        invariant
            models == observations(list@),
            observations(out@) == routed_only(models.take(i as int)),
    {
        proof {
            assert(models.take(i + 1).drop_last() =~= models.take(i as int));
            assert(models.take(i + 1).last() == list@[i as int]@);
        }
        if list[i].source == AdmissionSource::Graph && list[i].graph_route.is_some() {
            let ghost before = out@;
            out.push(list[i].clone());
            assert(observations(out@) =~= observations(before).push(list@[i as int]@));
        }
    }
    assert(models.take(list@.len() as int) =~= models);
    out
}

/// Appends copies of observations with the given rank.
fn append_ranked(
    list: &mut Vec<AdmissionObservation>,
    more: &Vec<AdmissionObservation>,
    rank: usize,
)
    ensures
        observations(final(list)@) == observations(old(list)@) + ranked(observations(more@), rank),
{
    let ghost base = observations(list@);
    let ghost wanted = ranked(observations(more@), rank);
    assert(base + wanted.take(0) =~= base);
    for i in 0..more.len()
        invariant
            wanted == ranked(observations(more@), rank),
            observations(list@) == base + wanted.take(i as int),
    {
        let mut copy = more[i].clone();
        copy.source_rank = rank;
        assert(copy@ == wanted[i as int]);
        let ghost before = list@;
        list.push(copy);
        assert(observations(list@) =~= observations(before).push(wanted[i as int]));
        assert(base + wanted.take(i + 1) =~= (base + wanted.take(i as int)).push(
            wanted[i as int],
        ));
    }
    assert(wanted.take(more@.len() as int) =~= wanted);
}

/// Appends a graph observation that knows its activation only.
fn append_plain(list: &mut Vec<AdmissionObservation>, rank: usize, activation: Score)
    ensures
        observations(final(list)@) == observations(old(list)@).push(plain_graph(rank, activation)),
{
    let ghost before = list@;
    list.push(
        AdmissionObservation {
            source: AdmissionSource::Graph,
            query_index: 0,
            source_rank: rank,
            seed_memory_id: None,
            activation: Some(activation),
            graph_route: None,
        },
    );
    assert(observations(list@) =~= observations(before).push(plain_graph(rank, activation)));
}

/// Moves the graph observations of an item to the end and gives them their rank.
pub fn replace_graph_admissions(item: &PackPoolItem, rank: usize, activation: Score) -> (r:
    PackPoolItem)
    ensures
        r@ == (ItemModel { admissions: replaced(item@.admissions, rank, activation), ..item@ }),
{
    let routes = keep_routed(&item.admissions);
    let mut admissions = keep_direct(&item.admissions);
    if routes.len() == 0 {
        append_plain(&mut admissions, rank, activation);
    } else {
        append_ranked(&mut admissions, &routes, rank);
    }
    PackPoolItem { memory_id: item.memory_id.clone(), score: item.score, admissions }
}

/// A pool item with ranked graph observations, where its memory was reached.
pub open spec fn ranked_item(item: ItemModel, activations: Seq<(Seq<char>, Score)>) -> ItemModel {
    match lookup(activations, item.memory_id) {
        Some(activation) => ItemModel {
            admissions: replaced(
                item.admissions,
                graph_rank(activations, item.memory_id),
                activation,
            ),
            ..item
        },
        None => item,
    }
}

/// The pool with ranked graph observations.
pub open spec fn ranked_pool(
    pool: Seq<ItemModel>,
    activations: Seq<(Seq<char>, Score)>,
) -> Seq<ItemModel> {
    pool.map_values(|item: ItemModel| ranked_item(item, activations))
}

/// The observations of a traced memory that is not in the pool.
pub open spec fn dropped_admissions(
    list: Seq<ObservationModel>,
    id: Seq<char>,
    activations: Seq<(Seq<char>, Score)>,
    routes: Seq<(Seq<char>, Seq<ObservationModel>)>,
) -> Seq<ObservationModel> {
    match lookup(activations, id) {
        None => list,
        Some(activation) => match lookup(routes, id) {
            Some(observed) => direct_only(list) + ranked(observed, graph_rank(activations, id)),
            None => direct_only(list).push(plain_graph(graph_rank(activations, id), activation)),
        },
    }
}

/// A trace record brought in line with the pool after the join.
pub open spec fn updated_record(
    record: ObservedModel,
    pool: Seq<ItemModel>,
    activations: Seq<(Seq<char>, Score)>,
    ranks: Seq<(Seq<char>, usize)>,
    routes: Seq<(Seq<char>, Seq<ObservationModel>)>,
) -> ObservedModel {
    let at = find_id(pool, record.memory_id);
    ObservedModel {
        admitted: at is Some,
        dropped_at: if at is Some {
            None
        } else {
            Some("hybrid_cap"@)
        },
        graph_allocation_rank: lookup(ranks, record.memory_id),
        admissions: match at {
            Some(i) => pool[i].admissions,
            None => dropped_admissions(record.admissions, record.memory_id, activations, routes),
        },
        ..record
    }
}

/// Whether the trace has a record of the memory.
pub open spec fn traced(records: Seq<ObservedModel>, id: Seq<char>) -> bool {
    exists|i: int| 0 <= i < records.len() && (#[trigger] records[i]).memory_id == id
}

/// The trace with a record of each pool item.
pub open spec fn with_pool_records(
    records: Seq<ObservedModel>,
    pool: Seq<ItemModel>,
    ranks: Seq<(Seq<char>, usize)>,
) -> Seq<ObservedModel>
    decreases pool.len(),
{
    if pool.len() == 0 {
        records
    } else {
        let before = with_pool_records(records, pool.drop_last(), ranks);
        let item = pool.last();
        if traced(before, item.memory_id) {
            before
        } else {
            before.push(
                ObservedModel {
                    memory_id: item.memory_id,
                    merged_rank: before.len() as int + 1,
                    admitted: true,
                    dropped_at: None,
                    graph_allocation_rank: lookup(ranks, item.memory_id),
                    admissions: item.admissions,
                },
            )
        }
    }
}

/// The trace with a record of each allocated memory that found no room.
pub open spec fn with_capped_records(
    records: Seq<ObservedModel>,
    ranks: Seq<(Seq<char>, usize)>,
    activations: Seq<(Seq<char>, Score)>,
    routes: Seq<(Seq<char>, Seq<ObservationModel>)>,
) -> Seq<ObservedModel>
    decreases ranks.len(),
{
    if ranks.len() == 0 {
        records
    } else {
        let before = with_capped_records(records, ranks.drop_last(), activations, routes);
        let entry = ranks.last();
        if traced(before, entry.0) {
            before
        } else {
            let activation = match lookup(activations, entry.0) {
                Some(a) => a,
                None => Score { key: 0 },
            };
            before.push(
                ObservedModel {
                    memory_id: entry.0,
                    merged_rank: before.len() as int + 1,
                    admitted: false,
                    dropped_at: Some("graph_cap"@),
                    graph_allocation_rank: Some(entry.1),
                    admissions: match lookup(routes, entry.0) {
                        Some(observed) => observed,
                        None => seq![plain_graph(graph_rank(activations, entry.0), activation)],
                    },
                },
            )
        }
    }
}

/// The sort key of an allocation rank.
pub open spec fn rank_key(entry: (Seq<char>, usize)) -> KeyModel {
    KeyModel { numbers: seq![entry.1 as i128], texts: seq![(entry.0, false)] }
}

/// The sort keys of allocation ranks.
pub open spec fn rank_keys(ranks: Seq<(Seq<char>, usize)>) -> Seq<KeyModel> {
    ranks.map_values(|entry: (Seq<char>, usize)| rank_key(entry))
}

/// Allocation ranks in ascending order, equal ones by id.
pub open spec fn in_rank_order(ranks: Seq<(Seq<char>, usize)>) -> Seq<(Seq<char>, usize)> {
    sorting(rank_keys(ranks)).map_values(|i: int| ranks[i])
}

fn rank_order(ranks: &Vec<(String, usize)>) -> (r: Vec<usize>)
    ensures
        positions(r@) == sorting(rank_keys(rank_models(ranks@))),
        r@.len() == ranks@.len(),
        forall|i: int| 0 <= i < r@.len() ==> (#[trigger] r@[i]) < ranks@.len(),
{
    let ghost wanted = rank_keys(rank_models(ranks@));
    let mut keys: Vec<SortKey> = Vec::new();
    assert(key_models(keys@) =~= wanted.take(0));
    for i in 0..ranks.len()
        invariant
            wanted == rank_keys(rank_models(ranks@)),
            key_models(keys@) == wanted.take(i as int),
    {
        let mut numbers: Vec<i128> = Vec::new();
        numbers.push(ranks[i].1 as i128);
        let mut texts: Vec<SortText> = Vec::new();
        texts.push(SortText { text: ranks[i].0.clone(), descending: false });
        let key = SortKey { numbers, texts };
        proof {
            assert(key@.numbers =~= wanted[i as int].numbers);
            assert(key@.texts =~= wanted[i as int].texts);
        }
        let ghost before = keys@;
        keys.push(key);
        assert(key_models(keys@) =~= key_models(before).push(wanted[i as int]));
        assert(wanted.take(i + 1) =~= wanted.take(i as int).push(wanted[i as int]));
    }
    assert(wanted.take(ranks@.len() as int) =~= wanted);
    let order = sort_order(keys.as_slice());
    proof {
        assert(positions(order@).len() == order@.len());
        assert forall|i: int| 0 <= i < order@.len() implies (#[trigger] order@[i])
            < ranks@.len() by {
            assert(positions(order@)[i] == order@[i]);
        }
    }
    order
}

/// The trace after a join: existing records brought in line, then the pool items
/// without a record, then the allocated memories that found no room, by their ranks.
pub open spec fn joined_trace(
    records: Seq<ObservedModel>,
    pool: Seq<ItemModel>,
    activations: Seq<(Seq<char>, Score)>,
    ranks: Seq<(Seq<char>, usize)>,
    routes: Seq<(Seq<char>, Seq<ObservationModel>)>,
) -> Seq<ObservedModel> {
    let updated = records.map_values(
        |r: ObservedModel| updated_record(r, pool, activations, ranks, routes),
    );
    with_capped_records(
        with_pool_records(updated, pool, ranks),
        in_rank_order(ranks),
        activations,
        routes,
    )
}

/// Whether the trace has a record of the memory.
fn is_traced(records: &Vec<RerankPoolObservedCandidate>, id: &str) -> (r: bool)
    ensures
        r == traced(observed_models(records@), id@),
{
    let ghost models = observed_models(records@);
    for i in 0..records.len()
        invariant
            models == observed_models(records@),
            forall|j: int| 0 <= j < i ==> (#[trigger] models[j]).memory_id != id@,
    {
        if text_eq(records[i].memory_id.as_str(), id) {
            assert(models[i as int].memory_id == id@);
            return true;
        }
    }
    false
}

/// The rank of a memory by activation; 1 where it has none.
fn rank_of(ranks: &Vec<(String, usize)>, id: &str) -> (r: usize)
    ensures
        r == match lookup(rank_models(ranks@), id@) {
            Some(rank) => rank,
            None => 1,
        },
{
    match find_rank(ranks, id) {
        Some(rank) => rank,
        None => 1,
    }
}

/// Brings one trace record in line with the pool after the join.
fn update_record(
    record: &RerankPoolObservedCandidate,
    pool: &Vec<PackPoolItem>,
    activations: &Vec<(String, Score)>,
    graph_rank_list: &Vec<(String, usize)>,
    allocation_ranks: &Vec<(String, usize)>,
    routes: &Vec<(String, Vec<AdmissionObservation>)>,
) -> (r: RerankPoolObservedCandidate)
    requires
        rank_models(graph_rank_list@) == graph_ranks(activation_models(activations@)),
    ensures
        r@ == updated_record(
            record@,
            items(pool@),
            activation_models(activations@),
            rank_models(allocation_ranks@),
            admission_models(routes@),
        ),
{
    let id = record.memory_id.as_str();
    let at = position_of(pool, id);
    let admissions = match at {
        Some(i) => clone_observations(&pool[i].admissions),
        None => match find_activation(activations, id) {
            None => clone_observations(&record.admissions),
            Some(activation) => {
                let mut kept = keep_direct(&record.admissions);
                let rank: usize = rank_of(graph_rank_list, id);
                match find_admissions(routes, id) {
                    Some(k) => {
                        append_ranked(&mut kept, &routes[k].1, rank);
                    },
                    None => {
                        append_plain(&mut kept, rank, activation);
                    },
                }
                kept
            },
        },
    };
    let admitted: bool = at.is_some();
    RerankPoolObservedCandidate {
        memory_id: record.memory_id.clone(),
        merged_rank: record.merged_rank,
        admitted,
        dropped_at: if admitted {
            None
        } else {
            Some("hybrid_cap".to_owned())
        },
        graph_allocation_rank: find_rank(allocation_ranks, id),
        admissions,
    }
}

/// Adds a record at the end of a trace, numbered by its place there.
fn push_numbered(
    trace: &mut Vec<RerankPoolObservedCandidate>,
    record: RerankPoolObservedCandidate,
)
    ensures
        observed_models(final(trace)@) == observed_models(old(trace)@).push(
            ObservedModel { merged_rank: old(trace)@.len() as int + 1, ..record@ },
        ),
{
    let ghost before = observed_models(trace@);
    trace.push(record);
    let n: usize = trace.len();
    trace[n - 1].merged_rank = n;
    assert(observed_models(trace@) =~= before.push(
        ObservedModel { merged_rank: before.len() as int + 1, ..record@ },
    ));
}

/// Brings pool and trace in line after an evidence join: graph observations get
/// their rank by activation, each trace record learns whether its memory was
/// admitted, and memories that came by the graph get records of their own.
pub fn apply_graph_admission_observations(
    merged: &mut Vec<PackPoolItem>,
    activations: &Vec<(String, Score)>,
    allocation_ranks: &Vec<(String, usize)>,
    route_admissions: &Vec<(String, Vec<AdmissionObservation>)>,
    observed: &mut Vec<RerankPoolObservedCandidate>,
)
    ensures
        items(final(merged)@) == ranked_pool(
            items(old(merged)@),
            activation_models(activations@),
        ),
        observed_models(final(observed)@) == joined_trace(
            observed_models(old(observed)@),
            items(final(merged)@),
            activation_models(activations@),
            rank_models(allocation_ranks@),
            admission_models(route_admissions@),
        ),
{
    let ghost acts = activation_models(activations@);
    let ghost ranks = rank_models(allocation_ranks@);
    let ghost routes = admission_models(route_admissions@);
    let ghost pool_before = items(merged@);
    let ghost trace_before = observed_models(observed@);
    let graph_rank_list = rank_activations(activations);
    let ghost wanted_pool = ranked_pool(pool_before, acts);
    let mut relinked: Vec<PackPoolItem> = Vec::new();
    assert(items(relinked@) =~= wanted_pool.take(0));
    for i in 0..merged.len()
        invariant
            acts == activation_models(activations@),
            pool_before == items(merged@),
            wanted_pool == ranked_pool(pool_before, acts),
            rank_models(graph_rank_list@) == graph_ranks(acts),
            items(relinked@) == wanted_pool.take(i as int),
    {
        let item = &merged[i];
        let next = match find_activation(activations, item.memory_id.as_str()) {
            Some(activation) => replace_graph_admissions(
                item,
                rank_of(&graph_rank_list, item.memory_id.as_str()),
                activation,
            ),
            None => item.clone(),
        };
        assert(next@ == wanted_pool[i as int]);
        let ghost before = relinked@;
        relinked.push(next);
        assert(items(relinked@) =~= items(before).push(wanted_pool[i as int]));
        assert(wanted_pool.take(i + 1) =~= wanted_pool.take(i as int).push(wanted_pool[i as int]));
    }
    assert(wanted_pool.take(merged@.len() as int) =~= wanted_pool);
    *merged = relinked;
    let ghost updated = trace_before.map_values(
        |r: ObservedModel| updated_record(r, wanted_pool, acts, ranks, routes),
    );
    let mut trace: Vec<RerankPoolObservedCandidate> = Vec::new();
    assert(observed_models(trace@) =~= updated.take(0));
    for i in 0..observed.len()
        invariant
            acts == activation_models(activations@),
            ranks == rank_models(allocation_ranks@),
            routes == admission_models(route_admissions@),
            items(merged@) == wanted_pool,
            trace_before == observed_models(observed@),
            rank_models(graph_rank_list@) == graph_ranks(acts),
            updated == trace_before.map_values(
                |r: ObservedModel| updated_record(r, wanted_pool, acts, ranks, routes),
            ),
            observed_models(trace@) == updated.take(i as int),
    {
        let record = update_record(
            &observed[i],
            merged,
            activations,
            &graph_rank_list,
            allocation_ranks,
            route_admissions,
        );
        assert(record@ == updated[i as int]);
        let ghost before = trace@;
        trace.push(record);
        assert(observed_models(trace@) =~= observed_models(before).push(updated[i as int]));
        assert(updated.take(i + 1) =~= updated.take(i as int).push(updated[i as int]));
    }
    assert(updated.take(observed@.len() as int) =~= updated);
    for i in 0..merged.len()
        invariant
            ranks == rank_models(allocation_ranks@),
            items(merged@) == wanted_pool,
            observed_models(trace@) == with_pool_records(updated, wanted_pool.take(i as int), ranks),
    {
        proof {
            assert(wanted_pool.take(i + 1).drop_last() =~= wanted_pool.take(i as int));
            assert(wanted_pool.take(i + 1).last() == merged@[i as int]@);
        }
        if !is_traced(&trace, merged[i].memory_id.as_str()) {
            let record = RerankPoolObservedCandidate {
                memory_id: merged[i].memory_id.clone(),
                merged_rank: 0,
                admitted: true,
                dropped_at: None,
                graph_allocation_rank: find_rank(
                    allocation_ranks,
                    merged[i].memory_id.as_str(),
                ),
                admissions: clone_observations(&merged[i].admissions),
            };
            push_numbered(&mut trace, record);
        }
    }
    assert(wanted_pool.take(merged@.len() as int) =~= wanted_pool);
    let ghost base = with_pool_records(updated, wanted_pool, ranks);
    let order = rank_order(allocation_ranks);
    let ghost sorted = in_rank_order(ranks);
    proof {
        assert(sorted.take(0) =~= Seq::empty());
        assert(positions(order@).len() == order@.len());
        assert forall|i: int| 0 <= i < order@.len() implies #[trigger] sorted[i] == ranks[order@[i] as int] by {
            assert(positions(order@)[i] == order@[i]);
        }
    }
    for i in 0..order.len()
        invariant
            acts == activation_models(activations@),
            ranks == rank_models(allocation_ranks@),
            order@.len() == allocation_ranks@.len(),
            sorted.len() == order@.len(),
            forall|k: int| 0 <= k < order@.len() ==> (#[trigger] order@[k]) < allocation_ranks@.len(),
            forall|k: int| 0 <= k < order@.len() ==> #[trigger] sorted[k] == ranks[order@[k] as int],
            routes == admission_models(route_admissions@),
            rank_models(graph_rank_list@) == graph_ranks(acts),
            observed_models(trace@) == with_capped_records(
                base,
                sorted.take(i as int),
                acts,
                routes,
            ),
    {
        let at: usize = order[i];
        proof {
            assert(sorted.take(i + 1).drop_last() =~= sorted.take(i as int));
            assert(sorted[i as int] == ranks[at as int]);
            assert(sorted.take(i + 1).last() == (
                allocation_ranks@[at as int].0@,
                allocation_ranks@[at as int].1,
            ));
        }
        let id = allocation_ranks[at].0.as_str();
        if !is_traced(&trace, id) {
            let activation: Score = match find_activation(activations, id) {
                Some(a) => a,
                None => Score { key: 0 },
            };
            let admissions = match find_admissions(route_admissions, id) {
                Some(k) => clone_observations(&route_admissions[k].1),
                None => {
                    let mut one: Vec<AdmissionObservation> = Vec::new();
                    let rank: usize = rank_of(&graph_rank_list, id);
                    append_plain(&mut one, rank, activation);
                    assert(observations(one@) =~= seq![
                        plain_graph(graph_rank(acts, id@), activation),
                    ]);
                    one
                },
            };
            let record = RerankPoolObservedCandidate {
                memory_id: allocation_ranks[at].0.clone(),
                merged_rank: 0,
                admitted: false,
                dropped_at: Some("graph_cap".to_owned()),
                graph_allocation_rank: Some(allocation_ranks[at].1),
                admissions,
            };
            push_numbered(&mut trace, record);
        }
    }
    assert(sorted.take(order@.len() as int) =~= sorted);
    *observed = trace;
}

/// After a join the trace says `admitted` of a record exactly where the pool has
/// its memory.
pub open spec fn trace_agrees(records: Seq<ObservedModel>, pool: Seq<ItemModel>) -> bool {
    forall|i: int|
        0 <= i < records.len() ==> ((#[trigger] records[i]).admitted <==> find_id(
            pool,
            records[i].memory_id,
        ) is Some) && (records[i].admitted <==> records[i].dropped_at is None)
}

proof fn lemma_pool_records(
    records: Seq<ObservedModel>,
    pool: Seq<ItemModel>,
    part: Seq<ItemModel>,
    ranks: Seq<(Seq<char>, usize)>,
)
    requires
        trace_agrees(records, pool),
        forall|i: int| 0 <= i < part.len() ==> find_id(pool, (#[trigger] part[i]).memory_id) is Some,
    ensures
        trace_agrees(with_pool_records(records, part, ranks), pool),
        forall|i: int|
            0 <= i < part.len() ==> traced(
                with_pool_records(records, part, ranks),
                (#[trigger] part[i]).memory_id,
            ),
    decreases part.len(),
{
    if part.len() > 0 {
        let rest = part.drop_last();
        assert forall|i: int| 0 <= i < rest.len() implies find_id(
            pool,
            (#[trigger] rest[i]).memory_id,
        ) is Some by {
            assert(rest[i] == part[i]);
        }
        lemma_pool_records(records, pool, rest, ranks);
        let before = with_pool_records(records, rest, ranks);
        let after = with_pool_records(records, part, ranks);
        assert(find_id(pool, part[part.len() - 1].memory_id) is Some);
        assert forall|i: int| 0 <= i < part.len() implies traced(
            after,
            (#[trigger] part[i]).memory_id,
        ) by {
            let id = part[i].memory_id;
            if i < rest.len() {
                assert(rest[i] == part[i]);
                assert(traced(before, id));
                let k = choose|k: int| 0 <= k < before.len() && (#[trigger] before[k]).memory_id
                    == id;
                assert(after[k] == before[k]);
            } else if traced(before, id) {
            } else {
                assert(after[before.len() as int].memory_id == id);
            }
        }
        assert forall|i: int| 0 <= i < after.len() implies ((#[trigger] after[i]).admitted
            <==> find_id(pool, after[i].memory_id) is Some) && (after[i].admitted
            <==> after[i].dropped_at is None) by {
            if i < before.len() {
                assert(after[i] == before[i]);
            }
        }
    }
}

proof fn lemma_capped_records(
    records: Seq<ObservedModel>,
    pool: Seq<ItemModel>,
    ranks: Seq<(Seq<char>, usize)>,
    activations: Seq<(Seq<char>, Score)>,
    routes: Seq<(Seq<char>, Seq<ObservationModel>)>,
)
    requires
        trace_agrees(records, pool),
        forall|i: int| 0 <= i < pool.len() ==> traced(records, (#[trigger] pool[i]).memory_id),
    ensures
        trace_agrees(with_capped_records(records, ranks, activations, routes), pool),
        forall|i: int|
            0 <= i < pool.len() ==> traced(
                with_capped_records(records, ranks, activations, routes),
                (#[trigger] pool[i]).memory_id,
            ),
    decreases ranks.len(),
{
    if ranks.len() > 0 {
        lemma_capped_records(records, pool, ranks.drop_last(), activations, routes);
        let before = with_capped_records(records, ranks.drop_last(), activations, routes);
        let after = with_capped_records(records, ranks, activations, routes);
        let id = ranks.last().0;
        lemma_find_id(pool, id);
        if !traced(before, id) {
            match find_id(pool, id) {
                Some(k) => {
                    assert(traced(before, pool[k].memory_id));
                },
                None => {},
            }
        }
        assert forall|i: int| 0 <= i < pool.len() implies traced(
            after,
            (#[trigger] pool[i]).memory_id,
        ) by {
            assert(traced(before, pool[i].memory_id));
            let k = choose|k: int|
                0 <= k < before.len() && (#[trigger] before[k]).memory_id == pool[i].memory_id;
            assert(after[k] == before[k]);
        }
        assert forall|i: int| 0 <= i < after.len() implies ((#[trigger] after[i]).admitted
            <==> find_id(pool, after[i].memory_id) is Some) && (after[i].admitted
            <==> after[i].dropped_at is None) by {
            if i < before.len() {
                assert(after[i] == before[i]);
            }
        }
    }
}

/// The trace after a join agrees with the pool: a record is admitted exactly
/// where the pool has its memory, it names a dropping stage exactly where it is
/// not, and every memory of the pool has a record.
pub proof fn law_trace_agrees_with_pool(
    records: Seq<ObservedModel>,
    pool: Seq<ItemModel>,
    activations: Seq<(Seq<char>, Score)>,
    ranks: Seq<(Seq<char>, usize)>,
    routes: Seq<(Seq<char>, Seq<ObservationModel>)>,
)
    ensures
        trace_agrees(joined_trace(records, pool, activations, ranks, routes), pool),
        forall|i: int|
            0 <= i < pool.len() ==> traced(
                joined_trace(records, pool, activations, ranks, routes),
                (#[trigger] pool[i]).memory_id,
            ),
{
    let updated = records.map_values(
        |r: ObservedModel| updated_record(r, pool, activations, ranks, routes),
    );
    assert forall|i: int| 0 <= i < pool.len() implies find_id(
        pool,
        (#[trigger] pool[i]).memory_id,
    ) is Some by {
        lemma_find_id(pool, pool[i].memory_id);
    }
    lemma_pool_records(updated, pool, pool, ranks);
    lemma_capped_records(
        with_pool_records(updated, pool, ranks),
        pool,
        in_rank_order(ranks),
        activations,
        routes,
    );
}

proof fn lemma_capped_records_traced(
    records: Seq<ObservedModel>,
    ranks: Seq<(Seq<char>, usize)>,
    activations: Seq<(Seq<char>, Score)>,
    routes: Seq<(Seq<char>, Seq<ObservationModel>)>,
)
    ensures
        forall|i: int|
            0 <= i < ranks.len() ==> traced(
                with_capped_records(records, ranks, activations, routes),
                (#[trigger] ranks[i]).0,
            ),
    decreases ranks.len(),
{
    if ranks.len() > 0 {
        lemma_capped_records_traced(records, ranks.drop_last(), activations, routes);
        let before = with_capped_records(records, ranks.drop_last(), activations, routes);
        let after = with_capped_records(records, ranks, activations, routes);
        assert forall|i: int| 0 <= i < ranks.len() implies traced(after, (#[trigger] ranks[i]).0) by {
            let id = ranks[i].0;
            if i < ranks.len() - 1 {
                assert(ranks.drop_last()[i] == ranks[i]);
                let k = choose|k: int|
                    0 <= k < before.len() && (#[trigger] before[k]).memory_id == id;
                assert(after[k] == before[k]);
            } else if !traced(before, id) {
                assert(after[before.len() as int].memory_id == id);
            }
        }
    }
}

/// Every memory with an allocation rank has a record in the trace, whether it found
/// room or not.
pub proof fn law_allocated_memories_are_traced(
    records: Seq<ObservedModel>,
    pool: Seq<ItemModel>,
    activations: Seq<(Seq<char>, Score)>,
    ranks: Seq<(Seq<char>, usize)>,
    routes: Seq<(Seq<char>, Seq<ObservationModel>)>,
)
    ensures
        forall|i: int|
            0 <= i < ranks.len() ==> traced(
                joined_trace(records, pool, activations, ranks, routes),
                (#[trigger] ranks[i]).0,
            ),
{
    let updated = records.map_values(
        |r: ObservedModel| updated_record(r, pool, activations, ranks, routes),
    );
    let keys = rank_keys(ranks);
    let order = sorting(keys);
    let listed = in_rank_order(ranks);
    crate::ranking::law_sorting_exists(keys);
    lemma_capped_records_traced(
        with_pool_records(updated, pool, ranks),
        listed,
        activations,
        routes,
    );
    assert forall|i: int| 0 <= i < ranks.len() implies traced(
        joined_trace(records, pool, activations, ranks, routes),
        (#[trigger] ranks[i]).0,
    ) by {
        crate::ranking::law_sorting_is_surjective(order, keys, i);
        let k = choose|k: int| 0 <= k < order.len() && order[k] == i;
        assert(listed[k] == ranks[i]);
    }
}

} // verus!
