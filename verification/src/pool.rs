//! Retrieval pools: candidates of several routes, interleaved and joined on
//! memory identity.

use vstd::prelude::*;

use crate::error::Error;
use crate::json::text_of_string;
use crate::pack_queries::{pack_fault, validate_pack_request};
use crate::ranking::Score;
use crate::requests::PackRequest;
use crate::text::{text_eq, views};

verus! {

/// Retrieval route that observed a candidate before cross-encoder reranking.
#[derive(Debug, Clone, Copy, PartialEq, Eq, PartialOrd, Ord, Structural)]
pub enum AdmissionSource {
    /// Semantic approximate-nearest-neighbor retrieval.
    Ann,
    /// Exhaustive late-interaction retrieval replacing the ANN leg.
    Maxsim,
    /// Lexical BM25 retrieval.
    Bm25,
    /// Relationship-graph expansion from a seed candidate.
    Graph,
}

/// Source that supplied the graph traversal seed.
#[derive(Debug, Clone, Copy, PartialEq, Eq, PartialOrd, Ord, Structural)]
pub enum GraphSeedSource {
    /// A direct ANN, late-interaction, or BM25 memory candidate.
    Memory,
    /// A deterministic exact query-entity match.
    Entity,
}

/// Evidence class for one graph-derived memory admission.
#[derive(Debug, Clone, Copy, PartialEq, Eq, PartialOrd, Ord, Structural)]
pub enum GraphEvidenceClass {
    /// Exact endpoint support stored on a routing relationship.
    EndpointSupport,
    /// Another active memory attached to the reached entity.
    EntityFallback,
}

/// Diagnostic-only evidence-join path observation.
pub struct GraphRouteObservation {
    /// Seed arm.
    pub seed_source: GraphSeedSource,
    /// Direct memory seed, when the memory arm supplied the foothold.
    pub seed_memory_id: Option<String>,
    /// Canonical entity id where traversal began.
    pub seed_entity_id: String,
    /// Query index that supplied an exact entity span.
    pub matched_query_index: Option<usize>,
    /// Normalized exact entity span.
    pub matched_query_span: Option<String>,
    /// One-based traversal depth.
    pub hop_depth: usize,
    /// Relationship ids in path order.
    pub relationship_ids: Vec<String>,
    /// Stored predicate names in path order.
    pub predicate_names: Vec<String>,
    /// Traversal directions in path order.
    pub traversal_directions: Vec<String>,
    /// Exact endpoint support or entity fallback.
    pub evidence_class: GraphEvidenceClass,
    /// Route outcome for this admission.
    pub route_outcome: String,
}

/// The model of a [`GraphRouteObservation`].
pub struct RouteModel {
    /// Seed arm.
    pub seed_source: GraphSeedSource,
    /// Memory seed.
    pub seed_memory_id: Option<Seq<char>>,
    /// Entity seed.
    pub seed_entity_id: Seq<char>,
    /// Query index of the matched span.
    pub matched_query_index: Option<usize>,
    /// The matched span.
    pub matched_query_span: Option<Seq<char>>,
    /// Traversal depth.
    pub hop_depth: usize,
    /// Relationship ids in path order.
    pub relationship_ids: Seq<Seq<char>>,
    /// Predicates in path order.
    pub predicate_names: Seq<Seq<char>>,
    /// Directions in path order.
    pub traversal_directions: Seq<Seq<char>>,
    /// Evidence class.
    pub evidence_class: GraphEvidenceClass,
    /// Outcome.
    pub route_outcome: Seq<char>,
}

impl View for GraphRouteObservation {
    type V = RouteModel;

    open spec fn view(&self) -> RouteModel {
        RouteModel {
            seed_source: self.seed_source,
            seed_memory_id: text_of_string(self.seed_memory_id),
            seed_entity_id: self.seed_entity_id@,
            matched_query_index: self.matched_query_index,
            matched_query_span: text_of_string(self.matched_query_span),
            hop_depth: self.hop_depth,
            relationship_ids: views(self.relationship_ids@),
            predicate_names: views(self.predicate_names@),
            traversal_directions: views(self.traversal_directions@),
            evidence_class: self.evidence_class,
            route_outcome: self.route_outcome@,
        }
    }
}

/// One route-specific observation of a candidate before pool truncation.
pub struct AdmissionObservation {
    /// Retrieval route.
    pub source: AdmissionSource,
    /// Zero-based query or deterministic variant index.
    pub query_index: usize,
    /// One-based rank within the route-local result list.
    pub source_rank: usize,
    /// Expansion seed for graph observations.
    pub seed_memory_id: Option<String>,
    /// Graph activation when the route is [`AdmissionSource::Graph`].
    pub activation: Option<Score>,
    /// Evidence-join path details. `None` for direct observations.
    pub graph_route: Option<GraphRouteObservation>,
}

/// The model of an [`AdmissionObservation`].
pub struct ObservationModel {
    /// Retrieval route.
    pub source: AdmissionSource,
    /// Query index.
    pub query_index: usize,
    /// Rank within the route.
    pub source_rank: usize,
    /// Expansion seed.
    pub seed_memory_id: Option<Seq<char>>,
    /// Graph activation.
    pub activation: Option<Score>,
    /// Path details.
    pub graph_route: Option<RouteModel>,
}

/// The model of an optional route.
pub open spec fn route_model(route: Option<GraphRouteObservation>) -> Option<RouteModel> {
    match route {
        Some(r) => Some(r@),
        None => None,
    }
}

impl View for AdmissionObservation {
    type V = ObservationModel;

    open spec fn view(&self) -> ObservationModel {
        ObservationModel {
            source: self.source,
            query_index: self.query_index,
            source_rank: self.source_rank,
            seed_memory_id: text_of_string(self.seed_memory_id),
            activation: self.activation,
            graph_route: route_model(self.graph_route),
        }
    }
}

/// One scored candidate from the pack retrieval pool before reranking.
pub struct PackPoolItem {
    /// Candidate memory id.
    pub memory_id: String,
    /// Retrieval score.
    pub score: Score,
    /// Every retrieval route that observed this memory before reranking.
    pub admissions: Vec<AdmissionObservation>,
}

/// The model of a [`PackPoolItem`].
pub struct ItemModel {
    /// Candidate memory id.
    pub memory_id: Seq<char>,
    /// Retrieval score.
    pub score: Score,
    /// Observations.
    pub admissions: Seq<ObservationModel>,
}

/// The models of observations.
pub open spec fn observations(list: Seq<AdmissionObservation>) -> Seq<ObservationModel> {
    list.map_values(|o: AdmissionObservation| o@)
}

impl View for PackPoolItem {
    type V = ItemModel;

    open spec fn view(&self) -> ItemModel {
        ItemModel {
            memory_id: self.memory_id@,
            score: self.score,
            admissions: observations(self.admissions@),
        }
    }
}

/// The models of pool items.
pub open spec fn items(list: Seq<PackPoolItem>) -> Seq<ItemModel> {
    list.map_values(|i: PackPoolItem| i@)
}

/// A copy of a list of strings.
pub fn clone_texts(list: &Vec<String>) -> (r: Vec<String>)
    ensures
        views(r@) == views(list@),
{
    let mut out: Vec<String> = Vec::new();
    for i in 0..list.len()
        invariant
            views(out@) == views(list@).take(i as int),
    {
        let ghost before = out@;
        out.push(list[i].clone());
        assert(views(out@) =~= views(before).push(list@[i as int]@));
        assert(views(list@).take(i + 1) =~= views(list@).take(i as int).push(list@[i as int]@));
    }
    assert(views(list@).take(list@.len() as int) =~= views(list@));
    out
}

/// A copy of an optional string.
pub fn clone_text(value: &Option<String>) -> (r: Option<String>)
    ensures
        text_of_string(r) == text_of_string(*value),
{
    match value {
        Some(text) => Some(text.clone()),
        None => None,
    }
}

impl Clone for GraphRouteObservation {
    fn clone(&self) -> (r: Self)
        ensures
            r@ == self@,
    {
        GraphRouteObservation {
            seed_source: self.seed_source,
            seed_memory_id: clone_text(&self.seed_memory_id),
            seed_entity_id: self.seed_entity_id.clone(),
            matched_query_index: self.matched_query_index,
            matched_query_span: clone_text(&self.matched_query_span),
            hop_depth: self.hop_depth,
            relationship_ids: clone_texts(&self.relationship_ids),
            predicate_names: clone_texts(&self.predicate_names),
            traversal_directions: clone_texts(&self.traversal_directions),
            evidence_class: self.evidence_class,
            route_outcome: self.route_outcome.clone(),
        }
    }
}

impl Clone for AdmissionObservation {
    fn clone(&self) -> (r: Self)
        ensures
            r@ == self@,
    {
        AdmissionObservation {
            source: self.source,
            query_index: self.query_index,
            source_rank: self.source_rank,
            seed_memory_id: clone_text(&self.seed_memory_id),
            activation: self.activation,
            graph_route: match &self.graph_route {
                Some(route) => Some(route.clone()),
                None => None,
            },
        }
    }
}

/// A copy of a list of observations.
pub fn clone_observations(list: &Vec<AdmissionObservation>) -> (r: Vec<AdmissionObservation>)
    ensures
        observations(r@) == observations(list@),
{
    let mut out: Vec<AdmissionObservation> = Vec::new();
    for i in 0..list.len()
        invariant
            observations(out@) == observations(list@).take(i as int),
    {
        let ghost before = out@;
        out.push(list[i].clone());
        assert(observations(out@) =~= observations(before).push(list@[i as int]@));
        assert(observations(list@).take(i + 1) =~= observations(list@).take(i as int).push(list@[i as int]@));
    }
    assert(observations(list@).take(list@.len() as int) =~= observations(list@));
    out
}

impl Clone for PackPoolItem {
    fn clone(&self) -> (r: Self)
        ensures
            r@ == self@,
    {
        PackPoolItem {
            memory_id: self.memory_id.clone(),
            score: self.score,
            admissions: clone_observations(&self.admissions),
        }
    }
}

/// Whether two optional strings are equal.
pub fn same_text(a: &Option<String>, b: &Option<String>) -> (r: bool)
    ensures
        r == (text_of_string(*a) == text_of_string(*b)),
{
    match (a, b) {
        (Some(x), Some(y)) => text_eq(x.as_str(), y.as_str()),
        (None, None) => true,
        _ => false,
    }
}

/// Whether two lists of strings are equal.
pub fn same_texts(a: &Vec<String>, b: &Vec<String>) -> (r: bool)
    ensures
        r == (views(a@) == views(b@)),
{
    if a.len() != b.len() {
        assert(views(a@).len() != views(b@).len());
        return false;
    }
    for i in 0..a.len()
        invariant
            a@.len() == b@.len(),
            forall|j: int| 0 <= j < i ==> views(a@)[j] == views(b@)[j],
    {
        if !text_eq(a[i].as_str(), b[i].as_str()) {
            assert(views(a@)[i as int] != views(b@)[i as int]);
            return false;
        }
    }
    assert(views(a@) =~= views(b@));
    true
}

/// Whether two routes are the same.
fn same_route(a: &GraphRouteObservation, b: &GraphRouteObservation) -> (r: bool)
    ensures
        r == (a@ == b@),
{
    let same_index: bool = match (a.matched_query_index, b.matched_query_index) {
        (Some(x), Some(y)) => x == y,
        (None, None) => true,
        _ => false,
    };
    a.seed_source == b.seed_source && same_text(&a.seed_memory_id, &b.seed_memory_id) && text_eq(
        a.seed_entity_id.as_str(),
        b.seed_entity_id.as_str(),
    ) && same_index && same_text(&a.matched_query_span, &b.matched_query_span) && a.hop_depth
        == b.hop_depth && same_texts(&a.relationship_ids, &b.relationship_ids) && same_texts(
        &a.predicate_names,
        &b.predicate_names,
    ) && same_texts(&a.traversal_directions, &b.traversal_directions) && a.evidence_class
        == b.evidence_class && text_eq(a.route_outcome.as_str(), b.route_outcome.as_str())
}

/// Whether two observations are the same.
pub fn same_observation(a: &AdmissionObservation, b: &AdmissionObservation) -> (r: bool)
    ensures
        r == (a@ == b@),
{
    let same_activation: bool = match (a.activation, b.activation) {
        (Some(x), Some(y)) => x == y,
        (None, None) => true,
        _ => false,
    };
    let same_path: bool = match (&a.graph_route, &b.graph_route) {
        (Some(x), Some(y)) => same_route(x, y),
        (None, None) => true,
        _ => false,
    };
    a.source == b.source && a.query_index == b.query_index && a.source_rank == b.source_rank
        && same_text(&a.seed_memory_id, &b.seed_memory_id) && same_activation && same_path
}

/// The observation of a direct retrieval route.
pub open spec fn direct_observation(
    source: AdmissionSource,
    query_index: usize,
    source_rank: usize,
) -> ObservationModel {
    ObservationModel {
        source,
        query_index,
        source_rank,
        seed_memory_id: None,
        activation: None,
        graph_route: None,
    }
}

/// `more` appended to `have`, what `have` holds already left out.
pub open spec fn joined_observations(
    have: Seq<ObservationModel>,
    more: Seq<ObservationModel>,
) -> Seq<ObservationModel>
    decreases more.len(),
{
    if more.len() == 0 {
        have
    } else {
        let before = joined_observations(have, more.drop_last());
        if before.contains(more.last()) {
            before
        } else {
            before.push(more.last())
        }
    }
}

impl PackPoolItem {
    /// A candidate that one direct route observed.
    pub fn direct_candidate(
        memory_id: String,
        score: Score,
        source: AdmissionSource,
        query_index: usize,
        source_rank: usize,
    ) -> (r: Self)
        ensures
            r@ == (ItemModel {
                memory_id: memory_id@,
                score,
                admissions: seq![direct_observation(source, query_index, source_rank)],
            }),
    {
        let mut admissions: Vec<AdmissionObservation> = Vec::new();
        admissions.push(
            AdmissionObservation {
                source,
                query_index,
                source_rank,
                seed_memory_id: None,
                activation: None,
                graph_route: None,
            },
        );
        let r = PackPoolItem { memory_id, score, admissions };
        assert(r@.admissions =~= seq![direct_observation(source, query_index, source_rank)]);
        r
    }

    /// Takes over the observations of another item that are not held yet.
    pub fn merge_admissions_from(&mut self, other: &PackPoolItem)
        ensures
            final(self)@ == (ItemModel {
                admissions: joined_observations(old(self)@.admissions, other@.admissions),
                ..old(self)@
            }),
    {
        let ghost before = self@;
        let ghost more = other@.admissions;
        let mut merged = clone_observations(&self.admissions);
        for i in 0..other.admissions.len()
            invariant
                more == observations(other.admissions@),
                observations(merged@) == joined_observations(
                    before.admissions,
                    more.take(i as int),
                ),
        {
            let mut known: bool = false;
            let mut k: usize = 0;
            while k < merged.len() && !known
                invariant
                    i < other.admissions.len(),
                    k <= merged.len(),
                    known ==> observations(merged@).contains(other.admissions@[i as int]@),
                    !known ==> forall|j: int|
                        0 <= j < k ==> observations(merged@)[j] != other.admissions@[i as int]@,
                decreases merged.len() - k,
            {
                if same_observation(&merged[k], &other.admissions[i]) {
                    assert(observations(merged@)[k as int] == other.admissions@[i as int]@);
                    known = true;
                }
                k = k + 1;
            }
            proof {
                let next = more.take(i + 1);
                assert(next.drop_last() =~= more.take(i as int));
                assert(next.last() == other.admissions@[i as int]@);
            }
            if !known {
                let ghost old_merged = merged@;
                merged.push(other.admissions[i].clone());
                assert(observations(merged@) =~= observations(old_merged).push(
                    other.admissions@[i as int]@,
                ));
            }
        }
        assert(more.take(more.len() as int) =~= more);
        self.admissions = merged;
    }
}

/// The first position of an item with the given id; none where there is no such item.
pub open spec fn find_id(pool: Seq<ItemModel>, id: Seq<char>) -> Option<int>
    decreases pool.len(),
{
    if pool.len() == 0 {
        None
    } else {
        match find_id(pool.drop_last(), id) {
            Some(i) => Some(i),
            None => if pool.last().memory_id == id {
                Some(pool.len() - 1)
            } else {
                None
            },
        }
    }
}

/// A found position holds the id, and no earlier one does.
pub proof fn lemma_find_id(pool: Seq<ItemModel>, id: Seq<char>)
    ensures
        match find_id(pool, id) {
            Some(i) => 0 <= i < pool.len() && pool[i].memory_id == id && forall|j: int|
                0 <= j < i ==> pool[j].memory_id != id,
            None => forall|j: int| 0 <= j < pool.len() ==> pool[j].memory_id != id,
        },
    decreases pool.len(),
{
    if pool.len() > 0 {
        lemma_find_id(pool.drop_last(), id);
        assert forall|j: int| 0 <= j < pool.len() - 1 implies pool[j] == pool.drop_last()[j] by {}
    }
}

/// A position with the id before which none has it is the found one.
pub proof fn lemma_find_id_at(pool: Seq<ItemModel>, id: Seq<char>, i: int)
    requires
        0 <= i < pool.len(),
        pool[i].memory_id == id,
        forall|j: int| 0 <= j < i ==> pool[j].memory_id != id,
    ensures
        find_id(pool, id) == Some(i),
{
    lemma_find_id(pool, id);
}

/// The position of the item with the given id.
pub fn position_of(pool: &Vec<PackPoolItem>, id: &str) -> (r: Option<usize>)
    ensures
        match r {
            Some(i) => find_id(items(pool@), id@) == Some(i as int) && i < pool@.len(),
            None => find_id(items(pool@), id@) is None,
        },
{
    for i in 0..pool.len()
        invariant
            forall|j: int| 0 <= j < i ==> items(pool@)[j].memory_id != id@,
    {
        if text_eq(pool[i].memory_id.as_str(), id) {
            proof {
                assert(items(pool@)[i as int].memory_id == id@);
                lemma_find_id_at(items(pool@), id@, i as int);
            }
            return Some(i);
        }
    }
    proof {
        lemma_find_id(items(pool@), id@);
    }
    None
}

/// The pool after one more observed item: joined with the item of the same
/// memory, or appended where there is room.
pub open spec fn absorb(pool: Seq<ItemModel>, item: ItemModel, cap: nat) -> Seq<ItemModel> {
    match find_id(pool, item.memory_id) {
        Some(i) => pool.update(
            i,
            ItemModel {
                admissions: joined_observations(pool[i].admissions, item.admissions),
                ..pool[i]
            },
        ),
        None => if pool.len() < cap {
            pool.push(item)
        } else {
            pool
        },
    }
}

/// The pool after a row of observed items.
pub open spec fn absorb_all(
    pool: Seq<ItemModel>,
    observed: Seq<ItemModel>,
    cap: nat,
) -> Seq<ItemModel>
    decreases observed.len(),
{
    if observed.len() == 0 {
        pool
    } else {
        absorb(absorb_all(pool, observed.drop_last(), cap), observed.last(), cap)
    }
}

/// Adds one observed item to a pool.
pub fn absorb_item(pool: &mut Vec<PackPoolItem>, item: &PackPoolItem, cap: usize)
    ensures
        items(final(pool)@) == absorb(items(old(pool)@), item@, cap as nat),
{
    let ghost before = items(pool@);
    match position_of(pool, item.memory_id.as_str()) {
        Some(i) => {
            let mut joined = pool[i].clone();
            joined.merge_admissions_from(item);
            pool[i] = joined;
            assert(items(pool@) =~= absorb(before, item@, cap as nat));
        },
        None => {
            if pool.len() < cap {
                pool.push(item.clone());
                assert(items(pool@) =~= before.push(item@));
            }
        },
    }
}

/// The items at rank `rank` of each list, in the order of the lists.
pub open spec fn rank_row<A>(lists: Seq<Seq<A>>, rank: int) -> Seq<A>
    decreases lists.len(),
{
    if lists.len() == 0 {
        Seq::empty()
    } else {
        let before = rank_row(lists.drop_last(), rank);
        if rank < lists.last().len() {
            before.push(lists.last()[rank])
        } else {
            before
        }
    }
}

/// The first `ranks` ranks of all lists, rank by rank.
pub open spec fn round_robin<A>(lists: Seq<Seq<A>>, ranks: nat) -> Seq<A>
    decreases ranks,
{
    if ranks == 0 {
        Seq::empty()
    } else {
        round_robin(lists, (ranks - 1) as nat) + rank_row(lists, ranks - 1)
    }
}

/// The length of the longest list.
pub open spec fn longest<A>(lists: Seq<Seq<A>>) -> nat
    decreases lists.len(),
{
    if lists.len() == 0 {
        0
    } else {
        let before = longest(lists.drop_last());
        if lists.last().len() > before {
            lists.last().len()
        } else {
            before
        }
    }
}

/// All items of all lists: rank 1 of each list, then rank 2 of each, and so on.
pub open spec fn interleaved<A>(lists: Seq<Seq<A>>) -> Seq<A> {
    round_robin(lists, longest(lists))
}

/// The models of several pools.
pub open spec fn pools(list: Seq<Vec<PackPoolItem>>) -> Seq<Seq<ItemModel>> {
    list.map_values(|p: Vec<PackPoolItem>| items(p@))
}

proof fn lemma_absorb_all_step(pool: Seq<ItemModel>, row: Seq<ItemModel>, item: ItemModel, cap: nat)
    ensures
        absorb_all(pool, row.push(item), cap) == absorb(absorb_all(pool, row, cap), item, cap),
{
    assert(row.push(item).drop_last() =~= row);
}

/// Absorbing two rows one after the other is absorbing their concatenation.
pub proof fn lemma_absorb_all_concat(
    pool: Seq<ItemModel>,
    a: Seq<ItemModel>,
    b: Seq<ItemModel>,
    cap: nat,
)
    ensures
        absorb_all(pool, a + b, cap) == absorb_all(absorb_all(pool, a, cap), b, cap),
    decreases b.len(),
{
    if b.len() == 0 {
        assert(a + b =~= a);
    } else {
        lemma_absorb_all_concat(pool, a, b.drop_last(), cap);
        assert((a + b).drop_last() =~= a + b.drop_last());
    }
}

/// Adds the items at one rank of several pools to a pool.
fn absorb_row(merged: &mut Vec<PackPoolItem>, lists: &Vec<Vec<PackPoolItem>>, rank: usize, cap: usize)
    ensures
        items(final(merged)@) == absorb_all(
            items(old(merged)@),
            rank_row(pools(lists@), rank as int),
            cap as nat,
        ),
{
    let ghost before = items(merged@);
    let ghost models = pools(lists@);
    for k in 0..lists.len()
        invariant
            models == pools(lists@),
            items(merged@) == absorb_all(
                before,
                rank_row(models.take(k as int), rank as int),
                cap as nat,
            ),
    {
        proof {
            let next = models.take(k + 1);
            assert(next.drop_last() =~= models.take(k as int));
            assert(next.last() == items(lists@[k as int]@));
            if rank < lists@[k as int]@.len() {
                lemma_absorb_all_step(
                    before,
                    rank_row(models.take(k as int), rank as int),
                    next.last()[rank as int],
                    cap as nat,
                );
            }
        }
        if rank < lists[k].len() {
            absorb_item(merged, &lists[k][rank], cap);
        }
    }
    assert(models.take(lists@.len() as int) =~= models);
}

/// The length of the longest of several pools.
fn longest_of(lists: &Vec<Vec<PackPoolItem>>) -> (r: usize)
    ensures
        r == longest(pools(lists@)),
{
    let mut best: usize = 0;
    let ghost models = pools(lists@);
    for k in 0..lists.len()
        invariant
            models == pools(lists@),
            best == longest(models.take(k as int)),
    {
        proof {
            let next = models.take(k + 1);
            assert(next.drop_last() =~= models.take(k as int));
            assert(next.last() == items(lists@[k as int]@));
        }
        if lists[k].len() > best {
            best = lists[k].len();
        }
    }
    assert(models.take(lists@.len() as int) =~= models);
    best
}

/// Interleaves per-query candidate pools rank by rank, joining items of one
/// memory, up to `cap` memories.
pub fn interleave_pools(lists: &Vec<Vec<PackPoolItem>>, cap: usize) -> (r: Vec<PackPoolItem>)
    ensures
        items(r@) == absorb_all(Seq::empty(), interleaved(pools(lists@)), cap as nat),
{
    let mut merged: Vec<PackPoolItem> = Vec::new();
    let max_len: usize = longest_of(lists);
    let ghost models = pools(lists@);
    assert(items(merged@) =~= Seq::empty());
    for rank in 0..max_len
        invariant
            models == pools(lists@),
            items(merged@) == absorb_all(
                Seq::empty(),
                round_robin(models, rank as nat),
                cap as nat,
            ),
    {
        proof {
            lemma_absorb_all_concat(
                Seq::empty(),
                round_robin(models, rank as nat),
                rank_row(models, rank as int),
                cap as nat,
            );
        }
        absorb_row(&mut merged, lists, rank, cap);
    }
    merged
}

/// Whether no two items of the pool are of one memory.
pub open spec fn distinct_ids(pool: Seq<ItemModel>) -> bool {
    forall|i: int, j: int|
        0 <= i < j < pool.len() ==> (#[trigger] pool[i]).memory_id != (#[trigger] pool[j]).memory_id
}

/// Absorbing keeps one item for each memory, never exceeds the cap, and keeps
/// the memories of the pool in place.
pub proof fn law_absorb_keeps_pool(pool: Seq<ItemModel>, observed: Seq<ItemModel>, cap: nat)
    requires
        distinct_ids(pool),
    ensures
        distinct_ids(absorb_all(pool, observed, cap)),
        pool.len() <= cap ==> absorb_all(pool, observed, cap).len() <= cap,
        absorb_all(pool, observed, cap).len() >= pool.len(),
        forall|i: int|
            0 <= i < pool.len() ==> (#[trigger] absorb_all(pool, observed, cap)[i]).memory_id
                == pool[i].memory_id,
    decreases observed.len(),
{
    if observed.len() > 0 {
        law_absorb_keeps_pool(pool, observed.drop_last(), cap);
        let mid = absorb_all(pool, observed.drop_last(), cap);
        let item = observed.last();
        lemma_find_id(mid, item.memory_id);
        let after = absorb(mid, item, cap);
        assert forall|i: int, j: int| 0 <= i < j < after.len() implies (#[trigger] after[i]).memory_id
            != (#[trigger] after[j]).memory_id by {
            if j < mid.len() {
                assert(after[i].memory_id == mid[i].memory_id);
                assert(after[j].memory_id == mid[j].memory_id);
            } else {
                assert(after[i] == mid[i]);
            }
        }
    }
}

/// With room for all of them, every observed memory is in the pool.
pub proof fn law_absorb_admits(pool: Seq<ItemModel>, observed: Seq<ItemModel>, cap: nat)
    requires
        pool.len() + observed.len() <= cap,
    ensures
        absorb_all(pool, observed, cap).len() <= pool.len() + observed.len(),
        forall|k: int|
            0 <= k < observed.len() ==> find_id(
                absorb_all(pool, observed, cap),
                (#[trigger] observed[k]).memory_id,
            ) is Some,
    decreases observed.len(),
{
    if observed.len() > 0 {
        let rest = observed.drop_last();
        law_absorb_admits(pool, rest, cap);
        let mid = absorb_all(pool, rest, cap);
        let item = observed.last();
        let after = absorb(mid, item, cap);
        lemma_find_id(mid, item.memory_id);
        assert forall|k: int| 0 <= k < observed.len() implies find_id(
            after,
            (#[trigger] observed[k]).memory_id,
        ) is Some by {
            let id = observed[k].memory_id;
            lemma_find_id(after, id);
            if k < rest.len() {
                assert(rest[k] == observed[k]);
                lemma_find_id(mid, id);
                let at = find_id(mid, id).unwrap();
                assert(after[at].memory_id == id);
            } else {
                match find_id(mid, id) {
                    Some(at) => {
                        assert(after[at].memory_id == id);
                    },
                    None => {
                        assert(after[mid.len() as int].memory_id == id);
                    },
                }
            }
        }
    }
}

/// Observations are joined without repetition.
pub proof fn law_joined_observations_are_distinct(
    have: Seq<ObservationModel>,
    more: Seq<ObservationModel>,
)
    requires
        have.no_duplicates(),
    ensures
        joined_observations(have, more).no_duplicates(),
        forall|o: ObservationModel| #[trigger]
            joined_observations(have, more).contains(o) <==> have.contains(o) || more.contains(o),
    decreases more.len(),
{
    if more.len() > 0 {
        let rest = more.drop_last();
        law_joined_observations_are_distinct(have, rest);
        let before = joined_observations(have, rest);
        let after = joined_observations(have, more);
        assert(more =~= rest.push(more.last()));
        assert forall|o: ObservationModel| #[trigger]
            after.contains(o) <==> have.contains(o) || more.contains(o) by {
            crate::order::lemma_push_contains(rest, more.last(), o);
            crate::order::lemma_push_contains(before, more.last(), o);
            assert(before.contains(o) <==> have.contains(o) || rest.contains(o));
        }
        if !before.contains(more.last()) {
            assert forall|i: int, j: int|
                0 <= i < after.len() && 0 <= j < after.len() && i != j implies after[i]
                != after[j] by {
                if i == before.len() {
                    assert(before[j] == after[j]);
                    assert(before.contains(after[j]));
                } else if j == before.len() {
                    assert(before[i] == after[i]);
                    assert(before.contains(after[i]));
                } else {
                    assert(before[i] != before[j]);
                }
            }
        }
    } else {
        assert forall|o: ObservationModel| !more.contains(o) by {}
    }
}

/// The hits of one query, in rank order.
pub struct QueryHits {
    /// Whether the query was run on its embedding.
    pub embedded: bool,
    /// Memory ids with their retrieval scores.
    pub hits: Vec<(String, Score)>,
}

/// The route that the hits of a query came by.
pub open spec fn hits_source(embedded: bool) -> AdmissionSource {
    if embedded {
        AdmissionSource::Ann
    } else {
        AdmissionSource::Bm25
    }
}

/// The candidates that the hits of query `query_index` stand for.
pub open spec fn direct_list(query: QueryHits, query_index: usize) -> Seq<ItemModel> {
    Seq::new(
        query.hits@.len(),
        |i: int|
            ItemModel {
                memory_id: query.hits@[i].0@,
                score: query.hits@[i].1,
                admissions: seq![
                    direct_observation(
                        hits_source(query.embedded),
                        query_index,
                        (i + 1) as usize,
                    ),
                ],
            },
    )
}

/// The candidates of all queries.
pub open spec fn direct_lists(queries: Seq<QueryHits>) -> Seq<Seq<ItemModel>> {
    Seq::new(queries.len(), |q: int| direct_list(queries[q], q as usize))
}

/// The candidates of one query.
fn direct_pool(query: &QueryHits, query_index: usize) -> (r: Vec<PackPoolItem>)
    ensures
        items(r@) == direct_list(*query, query_index),
{
    let source = if query.embedded {
        AdmissionSource::Ann
    } else {
        AdmissionSource::Bm25
    };
    let mut out: Vec<PackPoolItem> = Vec::new();
    let ghost wanted = direct_list(*query, query_index);
    for i in 0..query.hits.len()
        invariant
            wanted == direct_list(*query, query_index),
            source == hits_source(query.embedded),
            items(out@) == wanted.take(i as int),
    {
        let ghost before = out@;
        out.push(
            PackPoolItem::direct_candidate(
                query.hits[i].0.clone(),
                query.hits[i].1,
                source,
                query_index,
                i + 1,
            ),
        );
        proof {
            assert(items(out@) =~= items(before).push(wanted[i as int]));
            assert(wanted.take(i + 1) =~= wanted.take(i as int).push(wanted[i as int]));
        }
    }
    assert(wanted.take(query.hits@.len() as int) =~= wanted);
    out
}

/// Builds the deduplicated, scored candidate pool of a pack from the hits of its
/// queries, up to as many memories as the request asks for.
pub fn build_pack_pool(request: &PackRequest, queries: &Vec<QueryHits>) -> (r: Result<
    Vec<PackPoolItem>,
    Error,
>)
    ensures
        match r {
            Ok(pool) => pack_fault(*request) is None && items(pool@) == absorb_all(
                Seq::empty(),
                interleaved(direct_lists(queries@)),
                request.max_memories as nat,
            ),
            Err(e) => pack_fault(*request) == Some(e@),
        },
{
    if let Err(e) = validate_pack_request(request) {
        return Err(e);
    }
    Ok(pool_of_hits(queries, request.max_memories))
}

/// The deduplicated, scored candidates: the hits of all queries rank by rank, hits
/// of one memory joined, up to `max_memories` memories. No precision floor is
/// applied.
pub fn pool_of_hits(queries: &Vec<QueryHits>, max_memories: usize) -> (r: Vec<PackPoolItem>)
    ensures
        items(r@) == absorb_all(
            Seq::empty(),
            interleaved(direct_lists(queries@)),
            max_memories as nat,
        ),
{
    let mut lists: Vec<Vec<PackPoolItem>> = Vec::new();
    let ghost wanted = direct_lists(queries@);
    for q in 0..queries.len()
        invariant
            wanted == direct_lists(queries@),
            pools(lists@) == wanted.take(q as int),
    {
        let ghost before = lists@;
        let list = direct_pool(&queries[q], q);
        lists.push(list);
        proof {
            assert(pools(lists@) =~= pools(before).push(wanted[q as int]));
            assert(wanted.take(q + 1) =~= wanted.take(q as int).push(wanted[q as int]));
        }
    }
    assert(wanted.take(queries@.len() as int) =~= wanted);
    interleave_pools(&lists, max_memories)
}

/// Two pools as lists to interleave.
pub open spec fn two_pools(a: Seq<ItemModel>, b: Seq<ItemModel>) -> Seq<Seq<ItemModel>> {
    seq![a, b]
}

/// The pool after `ranks` ranks of two pools: rank by rank, until a rank ends
/// with a full pool.
pub open spec fn merged_ranks(
    a: Seq<ItemModel>,
    b: Seq<ItemModel>,
    cap: nat,
    ranks: nat,
) -> Seq<ItemModel>
    decreases ranks,
{
    if ranks == 0 {
        Seq::empty()
    } else {
        let before = merged_ranks(a, b, cap, (ranks - 1) as nat);
        if ranks > 1 && before.len() >= cap {
            before
        } else {
            absorb_all(before, rank_row(two_pools(a, b), ranks - 1), cap)
        }
    }
}

/// The larger of two lengths.
pub open spec fn longer(a: nat, b: nat) -> nat {
    if a > b {
        a
    } else {
        b
    }
}

/// Two pools merged up to `cap` memories.
pub open spec fn merged_pools(a: Seq<ItemModel>, b: Seq<ItemModel>, cap: nat) -> Seq<ItemModel> {
    merged_ranks(a, b, cap, longer(a.len(), b.len()))
}

proof fn lemma_two_row(a: Seq<ItemModel>, b: Seq<ItemModel>, rank: int)
    ensures
        rank_row(two_pools(a, b), rank) == (if rank < a.len() {
            seq![a[rank]]
        } else {
            Seq::empty()
        }) + (if rank < b.len() {
            seq![b[rank]]
        } else {
            Seq::empty()
        }),
{
    let two = two_pools(a, b);
    let one = two.drop_last();
    let none = one.drop_last();
    assert(two.last() == b);
    assert(one.last() == a);
    assert(none.len() == 0);
    assert(rank_row(none, rank) =~= Seq::empty());
    let first: Seq<ItemModel> = if rank < a.len() {
        seq![a[rank]]
    } else {
        Seq::empty()
    };
    assert(rank_row(one, rank) =~= first);
    let second: Seq<ItemModel> = if rank < b.len() {
        seq![b[rank]]
    } else {
        Seq::empty()
    };
    assert(rank_row(two, rank) =~= first + second);
}

proof fn lemma_absorb_one(pool: Seq<ItemModel>, item: ItemModel, cap: nat)
    ensures
        absorb_all(pool, seq![item], cap) == absorb(pool, item, cap),
        absorb_all(pool, Seq::empty(), cap) == pool,
{
    assert(seq![item].drop_last() =~= Seq::empty());
    assert(absorb_all(pool, seq![item].drop_last(), cap) == pool);
}

proof fn lemma_merged_stays(a: Seq<ItemModel>, b: Seq<ItemModel>, cap: nat, from: nat, to: nat)
    requires
        0 < from <= to,
        merged_ranks(a, b, cap, from).len() >= cap,
    ensures
        merged_ranks(a, b, cap, to) == merged_ranks(a, b, cap, from),
    decreases to,
{
    if from < to {
        lemma_merged_stays(a, b, cap, from, (to - 1) as nat);
    }
}

/// Merges a primary pool with its lexical safety net, rank by rank, joining
/// items of one memory; it ends with the rank that fills the pool.
pub fn merge_rerank_pools(
    ann_pool: &Vec<PackPoolItem>,
    bm25_pool: &Vec<PackPoolItem>,
    max_candidates: usize,
) -> (r: Vec<PackPoolItem>)
    ensures
        items(r@) == merged_pools(items(ann_pool@), items(bm25_pool@), max_candidates as nat),
{
    let ghost a = items(ann_pool@);
    let ghost b = items(bm25_pool@);
    let ghost cap = max_candidates as nat;
    let mut merged: Vec<PackPoolItem> = Vec::new();
    let max_len: usize = if ann_pool.len() > bm25_pool.len() {
        ann_pool.len()
    } else {
        bm25_pool.len()
    };
    assert(items(merged@) =~= Seq::empty());
    let mut rank: usize = 0;
    while rank < max_len
        invariant_except_break
            rank > 0 ==> merged@.len() < cap,
        invariant
            a == items(ann_pool@),
            b == items(bm25_pool@),
            cap == max_candidates,
            max_len == longer(a.len(), b.len()),
            rank <= max_len,
            items(merged@) == merged_ranks(a, b, cap, rank as nat),
        ensures
            items(merged@) == merged_ranks(a, b, cap, max_len as nat),
        decreases max_len - rank,
    {
        let ghost before = items(merged@);
        let ghost first: Seq<ItemModel> = if rank < a.len() {
            seq![a[rank as int]]
        } else {
            Seq::empty()
        };
        let ghost second: Seq<ItemModel> = if rank < b.len() {
            seq![b[rank as int]]
        } else {
            Seq::empty()
        };
        proof {
            lemma_two_row(a, b, rank as int);
            lemma_absorb_all_concat(before, first, second, cap);
            if rank < a.len() {
                lemma_absorb_one(before, a[rank as int], cap);
            } else {
                lemma_absorb_one(before, b[rank as int], cap);
            }
        }
        if rank < ann_pool.len() {
            absorb_item(&mut merged, &ann_pool[rank], max_candidates);
        }
        assert(items(merged@) == absorb_all(before, first, cap));
        proof {
            if rank < b.len() {
                lemma_absorb_one(items(merged@), b[rank as int], cap);
            } else {
                lemma_absorb_one(items(merged@), a[rank as int], cap);
            }
        }
        if rank < bm25_pool.len() {
            absorb_item(&mut merged, &bm25_pool[rank], max_candidates);
        }
        rank = rank + 1;
        if merged.len() >= max_candidates {
            proof {
                lemma_merged_stays(a, b, cap, rank as nat, max_len as nat);
            }
            break;
        }
    }
    merged
}

/// ID-only diagnostic record for one candidate observed during pool assembly.
pub struct RerankPoolObservedCandidate {
    /// Candidate memory id.
    pub memory_id: String,
    /// One-based position in the unbounded interleave.
    pub merged_rank: usize,
    /// Whether this candidate reached the exact reranker input pool.
    pub admitted: bool,
    /// Stage that excluded the candidate, or `None` when admitted.
    pub dropped_at: Option<String>,
    /// One-based position in the graph-allocation order; `None` where the memory
    /// consumed no graph allocation slot.
    pub graph_allocation_rank: Option<usize>,
    /// Every route that observed the candidate.
    pub admissions: Vec<AdmissionObservation>,
}

/// The model of a [`RerankPoolObservedCandidate`].
pub struct ObservedModel {
    /// Candidate memory id.
    pub memory_id: Seq<char>,
    /// Position in the unbounded interleave.
    pub merged_rank: int,
    /// Whether it was admitted.
    pub admitted: bool,
    /// Stage that excluded it.
    pub dropped_at: Option<Seq<char>>,
    /// Position in the graph-allocation order.
    pub graph_allocation_rank: Option<usize>,
    /// Observations.
    pub admissions: Seq<ObservationModel>,
}

impl View for RerankPoolObservedCandidate {
    type V = ObservedModel;

    open spec fn view(&self) -> ObservedModel {
        ObservedModel {
            memory_id: self.memory_id@,
            merged_rank: self.merged_rank as int,
            admitted: self.admitted,
            dropped_at: text_of_string(self.dropped_at),
            graph_allocation_rank: self.graph_allocation_rank,
            admissions: observations(self.admissions@),
        }
    }
}

/// The models of observed candidates.
pub open spec fn observed_models(
    list: Seq<RerankPoolObservedCandidate>,
) -> Seq<ObservedModel> {
    list.map_values(|o: RerankPoolObservedCandidate| o@)
}

/// The trace record of the item at position `index` of the unbounded merge.
pub open spec fn trace_record(all: Seq<ItemModel>, index: int, cap: nat) -> ObservedModel {
    ObservedModel {
        memory_id: all[index].memory_id,
        merged_rank: index + 1,
        admitted: index < cap,
        dropped_at: if index < cap {
            None
        } else {
            Some("hybrid_cap"@)
        },
        graph_allocation_rank: None,
        admissions: all[index].admissions,
    }
}

/// Merges two pools without bound, admits the first `max_candidates` memories,
/// and records every observed one with its fate.
pub fn merge_rerank_pools_with_trace(
    ann_pool: &Vec<PackPoolItem>,
    bm25_pool: &Vec<PackPoolItem>,
    max_candidates: usize,
) -> (r: (Vec<PackPoolItem>, Vec<RerankPoolObservedCandidate>))
    ensures
        ({
            let total = if ann_pool@.len() + bm25_pool@.len() <= usize::MAX {
                (ann_pool@.len() + bm25_pool@.len()) as nat
            } else {
                usize::MAX as nat
            };
            let all = merged_pools(items(ann_pool@), items(bm25_pool@), total);
            let kept = if max_candidates < all.len() {
                max_candidates as int
            } else {
                all.len() as int
            };
            &&& items(r.0@) == all.take(kept)
            &&& observed_models(r.1@) == Seq::new(
                all.len(),
                |i: int| trace_record(all, i, max_candidates as nat),
            )
        }),
{
    let total: usize = ann_pool.len().saturating_add(bm25_pool.len());
    let all = merge_rerank_pools(ann_pool, bm25_pool, total);
    let ghost models = items(all@);
    let ghost records = Seq::new(
        models.len(),
        |i: int| trace_record(models, i, max_candidates as nat),
    );
    let mut admitted: Vec<PackPoolItem> = Vec::new();
    let mut observed: Vec<RerankPoolObservedCandidate> = Vec::new();
    assert(items(admitted@) =~= models.take(0));
    assert(observed_models(observed@) =~= records.take(0));
    for index in 0..all.len()
        invariant
            models == items(all@),
            records == Seq::new(
                models.len(),
                |i: int| trace_record(models, i, max_candidates as nat),
            ),
            items(admitted@) == models.take(
                if max_candidates < index {
                    max_candidates as int
                } else {
                    index as int
                },
            ),
            observed_models(observed@) == records.take(index as int),
    {
        let keep: bool = index < max_candidates;
        let ghost before = observed@;
        let ghost chosen = admitted@;
        if keep {
            admitted.push(all[index].clone());
            assert(items(admitted@) =~= items(chosen).push(models[index as int]));
            assert(models.take(index + 1) =~= models.take(index as int).push(
                models[index as int],
            ));
        }
        observed.push(
            RerankPoolObservedCandidate {
                memory_id: all[index].memory_id.clone(),
                merged_rank: index + 1,
                admitted: keep,
                dropped_at: if keep {
                    None
                } else {
                    Some("hybrid_cap".to_owned())
                },
                graph_allocation_rank: None,
                admissions: clone_observations(&all[index].admissions),
            },
        );
        proof {
            assert(observed_models(observed@) =~= observed_models(before).push(
                records[index as int],
            ));
            assert(records.take(index + 1) =~= records.take(index as int).push(
                records[index as int],
            ));
        }
    }
    assert(records.take(models.len() as int) =~= records);
    (admitted, observed)
}

/// The admitted candidates of a merge are the first of all observed ones, and a
/// record says `admitted` exactly for them.
pub proof fn law_trace_matches_admission(all: Seq<ItemModel>, cap: nat, index: int)
    requires
        0 <= index < all.len(),
    ensures
        trace_record(all, index, cap).admitted <==> index < cap,
        trace_record(all, index, cap).dropped_at is None <==> index < cap,
        trace_record(all, index, cap).memory_id == all[index].memory_id,
{
}

/// A merge of two pools holds each memory once and no more than the cap.
pub proof fn law_merge_is_bounded(
    a: Seq<ItemModel>,
    b: Seq<ItemModel>,
    cap: nat,
    ranks: nat,
)
    ensures
        distinct_ids(merged_ranks(a, b, cap, ranks)),
        merged_ranks(a, b, cap, ranks).len() <= cap,
    decreases ranks,
{
    if ranks > 0 {
        law_merge_is_bounded(a, b, cap, (ranks - 1) as nat);
        law_absorb_keeps_pool(
            merged_ranks(a, b, cap, (ranks - 1) as nat),
            rank_row(two_pools(a, b), ranks - 1),
            cap,
        );
    }
}

} // verus!
