//! The routes by which an evidence join reaches memories, kept one for each
//! memory and seed.

use vstd::prelude::*;

use crate::order::{text_less, text_lt};
use crate::pool::{
    same_text, GraphEvidenceClass, GraphRouteObservation, GraphSeedSource, RouteModel,
};
use crate::ranking::{zero_place, Score, LOWEST_SCORE_KEY};
use crate::text::{text_eq, views};

verus! {

/// A route to a memory with the activation that arrives there.
pub struct EvidenceCandidateRoute {
    /// Activation at the end of the route.
    pub activation: Score,
    /// Whether the activation is a zero with a minus sign.
    pub negative_zero: bool,
    /// The route.
    pub route: GraphRouteObservation,
}

/// The model of an [`EvidenceCandidateRoute`].
pub struct EntryModel {
    /// Activation at the end of the route.
    pub activation: Score,
    /// Whether the activation is a zero with a minus sign.
    pub negative_zero: bool,
    /// The route.
    pub route: RouteModel,
}

impl View for EvidenceCandidateRoute {
    type V = EntryModel;

    open spec fn view(&self) -> EntryModel {
        EntryModel {
            activation: self.activation,
            negative_zero: self.negative_zero,
            route: self.route@,
        }
    }
}

impl Clone for EvidenceCandidateRoute {
    fn clone(&self) -> (r: Self)
        ensures
            r@ == self@,
    {
        EvidenceCandidateRoute {
            activation: self.activation,
            negative_zero: self.negative_zero,
            route: self.route.clone(),
        }
    }
}

/// A reached memory with its best route from each seed, in the order of the seeds.
pub struct EvidenceCandidate {
    /// The memory.
    pub memory_id: String,
    /// Its routes.
    pub routes: Vec<EvidenceCandidateRoute>,
}

/// The model of an [`EvidenceCandidate`].
pub struct CandidateModel {
    /// The memory.
    pub memory_id: Seq<char>,
    /// Its routes.
    pub routes: Seq<EntryModel>,
}

/// The models of routes.
pub open spec fn entries(list: Seq<EvidenceCandidateRoute>) -> Seq<EntryModel> {
    list.map_values(|e: EvidenceCandidateRoute| e@)
}

impl View for EvidenceCandidate {
    type V = CandidateModel;

    open spec fn view(&self) -> CandidateModel {
        CandidateModel { memory_id: self.memory_id@, routes: entries(self.routes@) }
    }
}

/// The models of reached memories.
pub open spec fn candidates(list: Seq<EvidenceCandidate>) -> Seq<CandidateModel> {
    list.map_values(|c: EvidenceCandidate| c@)
}

/// The place of a seed arm.
pub open spec fn arm_rank(source: GraphSeedSource) -> int {
    match source {
        GraphSeedSource::Memory => 0,
        GraphSeedSource::Entity => 1,
    }
}

/// The place of an evidence class: exact support stands before fallback.
pub open spec fn class_rank(class: GraphEvidenceClass) -> int {
    match class {
        GraphEvidenceClass::EndpointSupport => 0,
        GraphEvidenceClass::EntityFallback => 1,
    }
}

/// Order of optional texts: what is absent comes first.
pub open spec fn optional_less(a: Option<Seq<char>>, b: Option<Seq<char>>) -> bool {
    match (a, b) {
        (None, Some(_)) => true,
        (Some(x), Some(y)) => text_less(x, y),
        _ => false,
    }
}

/// Order of routes by their seed: arm, then memory, then entity.
pub open spec fn seed_less(a: RouteModel, b: RouteModel) -> bool {
    if a.seed_source != b.seed_source {
        arm_rank(a.seed_source) < arm_rank(b.seed_source)
    } else if a.seed_memory_id != b.seed_memory_id {
        optional_less(a.seed_memory_id, b.seed_memory_id)
    } else {
        text_less(a.seed_entity_id, b.seed_entity_id)
    }
}

/// Whether two routes start at the same seed.
pub open spec fn same_seed(a: RouteModel, b: RouteModel) -> bool {
    &&& a.seed_source == b.seed_source
    &&& a.seed_memory_id == b.seed_memory_id
    &&& a.seed_entity_id == b.seed_entity_id
}

/// Lexicographic order of lists of texts.
pub open spec fn texts_before(a: Seq<Seq<char>>, b: Seq<Seq<char>>) -> bool
    decreases a.len(),
{
    if b.len() == 0 {
        false
    } else if a.len() == 0 {
        true
    } else if a[0] != b[0] {
        text_less(a[0], b[0])
    } else {
        texts_before(a.drop_first(), b.drop_first())
    }
}

/// Whether a route is preferred to another: exact support, then fewer hops, then
/// more activation, a zero without a minus sign before one with it, then the
/// smaller path.
pub open spec fn better_route(a: EntryModel, b: EntryModel) -> bool {
    if a.route.evidence_class != b.route.evidence_class {
        class_rank(a.route.evidence_class) < class_rank(b.route.evidence_class)
    } else if a.route.hop_depth != b.route.hop_depth {
        a.route.hop_depth < b.route.hop_depth
    } else if a.activation != b.activation {
        a.activation.key > b.activation.key
    } else if zero_place(a.activation, a.negative_zero) != zero_place(
        b.activation,
        b.negative_zero,
    ) {
        zero_place(a.activation, a.negative_zero) < zero_place(b.activation, b.negative_zero)
    } else {
        texts_before(a.route.relationship_ids, b.route.relationship_ids)
    }
}

/// Whether one list of texts stands before another.
fn texts_lt(a: &Vec<String>, b: &Vec<String>) -> (r: bool)
    ensures
        r == texts_before(views(a@), views(b@)),
{
    let ghost x = views(a@);
    let ghost y = views(b@);
    let mut i: usize = 0;
    assert(x.skip(0) =~= x);
    assert(y.skip(0) =~= y);
    while i < a.len() && i < b.len() && text_eq(a[i].as_str(), b[i].as_str())
        invariant
            x == views(a@),
            y == views(b@),
            i <= a.len(),
            i <= b.len(),
            texts_before(x, y) == texts_before(x.skip(i as int), y.skip(i as int)),
        decreases a.len() - i,
    {
        proof {
            assert(x.skip(i as int).drop_first() =~= x.skip(i + 1));
            assert(y.skip(i as int).drop_first() =~= y.skip(i + 1));
            assert(x[i as int] == y[i as int]);
        }
        i = i + 1;
    }
    if i >= b.len() {
        false
    } else if i >= a.len() {
        true
    } else {
        assert(x.skip(i as int)[0] == a@[i as int]@);
        assert(y.skip(i as int)[0] == b@[i as int]@);
        text_lt(a[i].as_str(), b[i].as_str())
    }
}

/// Whether a route is preferred to another.
pub fn evidence_route_is_better(
    candidate: &EvidenceCandidateRoute,
    existing: &EvidenceCandidateRoute,
) -> (r: bool)
    ensures
        r == better_route(candidate@, existing@),
{
    if candidate.route.evidence_class != existing.route.evidence_class {
        candidate.route.evidence_class == GraphEvidenceClass::EndpointSupport
    } else if candidate.route.hop_depth != existing.route.hop_depth {
        candidate.route.hop_depth < existing.route.hop_depth
    } else if candidate.activation != existing.activation {
        candidate.activation.key > existing.activation.key
    } else if candidate.activation.key == 0 && candidate.negative_zero != existing.negative_zero {
        existing.negative_zero
    } else {
        texts_lt(&candidate.route.relationship_ids, &existing.route.relationship_ids)
    }
}

/// Whether the seed of one route stands before that of another.
fn seed_lt(a: &GraphRouteObservation, b: &GraphRouteObservation) -> (r: bool)
    ensures
        r == seed_less(a@, b@),
{
    if a.seed_source != b.seed_source {
        a.seed_source == GraphSeedSource::Memory
    } else if !same_text(&a.seed_memory_id, &b.seed_memory_id) {
        match (&a.seed_memory_id, &b.seed_memory_id) {
            (None, Some(_)) => true,
            (Some(x), Some(y)) => text_lt(x.as_str(), y.as_str()),
            _ => false,
        }
    } else {
        text_lt(a.seed_entity_id.as_str(), b.seed_entity_id.as_str())
    }
}

/// Whether two routes start at the same seed.
fn seed_eq(a: &GraphRouteObservation, b: &GraphRouteObservation) -> (r: bool)
    ensures
        r == same_seed(a@, b@),
{
    a.seed_source == b.seed_source && same_text(&a.seed_memory_id, &b.seed_memory_id) && text_eq(
        a.seed_entity_id.as_str(),
        b.seed_entity_id.as_str(),
    )
}

/// The number of routes at the front of the list whose seed stands before that of `route`.
pub open spec fn seed_place(list: Seq<EntryModel>, route: RouteModel) -> int
    decreases list.len(),
{
    if list.len() > 0 && seed_less(list[0].route, route) {
        1 + seed_place(list.drop_first(), route)
    } else {
        0
    }
}

/// The number of candidates at the front of the list whose id stands before `id`.
pub open spec fn id_place(list: Seq<CandidateModel>, id: Seq<char>) -> int
    decreases list.len(),
{
    if list.len() > 0 && text_less(list[0].memory_id, id) {
        1 + id_place(list.drop_first(), id)
    } else {
        0
    }
}

/// The routes after one more was found: one route for each seed, the preferred one.
pub open spec fn with_route(list: Seq<EntryModel>, entry: EntryModel) -> Seq<EntryModel> {
    let at = seed_place(list, entry.route);
    if at < list.len() && same_seed(list[at].route, entry.route) {
        if better_route(entry, list[at]) {
            list.update(at, entry)
        } else {
            list
        }
    } else {
        list.insert(at, entry)
    }
}

/// The candidates after a route to `id` was found.
pub open spec fn recorded(
    list: Seq<CandidateModel>,
    id: Seq<char>,
    entry: EntryModel,
) -> Seq<CandidateModel> {
    let at = id_place(list, id);
    if at < list.len() && list[at].memory_id == id {
        list.update(
            at,
            CandidateModel { memory_id: id, routes: with_route(list[at].routes, entry) },
        )
    } else {
        list.insert(at, CandidateModel { memory_id: id, routes: seq![entry] })
    }
}

/// The place of a seed is a place of the list.
pub proof fn lemma_seed_place_bound(list: Seq<EntryModel>, route: RouteModel)
    ensures
        0 <= seed_place(list, route) <= list.len(),
    decreases list.len(),
{
    if list.len() > 0 && seed_less(list[0].route, route) {
        lemma_seed_place_bound(list.drop_first(), route);
    }
}

/// Adds a route to a list with one route for each seed.
fn record_route(routes: &mut Vec<EvidenceCandidateRoute>, entry: EvidenceCandidateRoute)
    ensures
        entries(final(routes)@) == with_route(entries(old(routes)@), entry@),
{
    let ghost list = entries(routes@);
    let mut at: usize = 0;
    assert(list.skip(0) =~= list);
    while at < routes.len() && seed_lt(&routes[at].route, &entry.route)
        invariant
            list == entries(routes@),
            at <= routes.len(),
            seed_place(list, entry@.route) == at + seed_place(list.skip(at as int), entry@.route),
        decreases routes.len() - at,
    {
        proof {
            assert(list.skip(at as int).drop_first() =~= list.skip(at + 1));
            assert(list.skip(at as int)[0] == routes@[at as int]@);
        }
        at = at + 1;
    }
    proof {
        if at < routes@.len() {
            assert(list.skip(at as int)[0] == routes@[at as int]@);
        }
    }
    if at < routes.len() && seed_eq(&routes[at].route, &entry.route) {
        if evidence_route_is_better(&entry, &routes[at]) {
            routes[at] = entry;
            assert(entries(routes@) =~= list.update(at as int, entry@));
        }
    } else {
        routes.insert(at, entry);
        assert(entries(routes@) =~= list.insert(at as int, entry@));
    }
}

/// Records a route to a memory: candidates in ascending order of their ids, each
/// with its best route from every seed.
pub fn record_evidence_candidate(
    list: &mut Vec<EvidenceCandidate>,
    memory_id: &str,
    activation: Score,
    negative_zero: bool,
    route: GraphRouteObservation,
)
    ensures
        candidates(final(list)@) == recorded(
            candidates(old(list)@),
            memory_id@,
            EntryModel { activation, negative_zero, route: route@ },
        ),
{
    let ghost models = candidates(list@);
    let entry = EvidenceCandidateRoute { activation, negative_zero, route };
    let mut at: usize = 0;
    assert(models.skip(0) =~= models);
    while at < list.len() && text_lt(list[at].memory_id.as_str(), memory_id)
        invariant
            models == candidates(list@),
            at <= list.len(),
            id_place(models, memory_id@) == at + id_place(models.skip(at as int), memory_id@),
        decreases list.len() - at,
    {
        proof {
            assert(models.skip(at as int).drop_first() =~= models.skip(at + 1));
            assert(models.skip(at as int)[0] == list@[at as int]@);
        }
        at = at + 1;
    }
    proof {
        if at < list@.len() {
            assert(models.skip(at as int)[0] == list@[at as int]@);
        }
    }
    if at < list.len() && text_eq(list[at].memory_id.as_str(), memory_id) {
        let ghost wanted = recorded(models, memory_id@, entry@);
        let mut routes: Vec<EvidenceCandidateRoute> = Vec::new();
        let ghost held = entries(list@[at as int].routes@);
        let count: usize = list[at].routes.len();
        for i in 0..count
            invariant
                models == candidates(list@),
                at < list@.len(),
                held == entries(list@[at as int].routes@),
                count == held.len(),
                entries(routes@) == held.take(i as int),
        {
            let ghost before = routes@;
            routes.push(list[at].routes[i].clone());
            assert(entries(routes@) =~= entries(before).push(held[i as int]));
            assert(held.take(i + 1) =~= held.take(i as int).push(held[i as int]));
        }
        assert(held.take(count as int) =~= held);
        record_route(&mut routes, entry);
        list[at] = EvidenceCandidate { memory_id: memory_id.to_owned(), routes };
        assert(candidates(list@) =~= wanted);
    } else {
        let ghost wanted = recorded(models, memory_id@, entry@);
        let mut routes: Vec<EvidenceCandidateRoute> = Vec::new();
        routes.push(entry);
        assert(entries(routes@) =~= seq![entry@]);
        list.insert(at, EvidenceCandidate { memory_id: memory_id.to_owned(), routes });
        assert(candidates(list@) =~= wanted);
    }
}

/// Whether the candidates stand in ascending order of their ids and each has a route.
pub open spec fn candidates_wf(list: Seq<CandidateModel>) -> bool {
    &&& forall|i: int, j: int|
        0 <= i < j < list.len() ==> text_less(
            (#[trigger] list[i]).memory_id,
            (#[trigger] list[j]).memory_id,
        )
    &&& forall|i: int| 0 <= i < list.len() ==> (#[trigger] list[i]).routes.len() > 0
}

/// Before the place of an id stand smaller ids, and at it none.
pub proof fn lemma_id_place(list: Seq<CandidateModel>, id: Seq<char>)
    ensures
        0 <= id_place(list, id) <= list.len(),
        forall|i: int| 0 <= i < id_place(list, id) ==> text_less((#[trigger] list[i]).memory_id, id),
        id_place(list, id) < list.len() ==> !text_less(list[id_place(list, id)].memory_id, id),
    decreases list.len(),
{
    if list.len() > 0 && text_less(list[0].memory_id, id) {
        let rest = list.drop_first();
        lemma_id_place(rest, id);
        assert forall|i: int| 0 <= i < id_place(list, id) implies text_less(
            (#[trigger] list[i]).memory_id,
            id,
        ) by {
            if i > 0 {
                assert(rest[i - 1] == list[i]);
            }
        }
    }
}

/// Recording a route keeps the candidates in order, each with a route, and
/// changes only the candidate of that memory.
pub proof fn law_recorded_keeps_order(
    list: Seq<CandidateModel>,
    id: Seq<char>,
    entry: EntryModel,
)
    requires
        candidates_wf(list),
    ensures
        candidates_wf(recorded(list, id, entry)),
        exists|i: int|
            0 <= i < recorded(list, id, entry).len() && recorded(list, id, entry)[i].memory_id == id,
{
    lemma_id_place(list, id);
    let at = id_place(list, id);
    let after = recorded(list, id, entry);
    if at < list.len() && list[at].memory_id == id {
        lemma_seed_place_bound(list[at].routes, entry.route);
        assert(with_route(list[at].routes, entry).len() > 0);
        assert forall|i: int, j: int| 0 <= i < j < after.len() implies text_less(
            (#[trigger] after[i]).memory_id,
            (#[trigger] after[j]).memory_id,
        ) by {
            assert(after[i].memory_id == list[i].memory_id);
            assert(after[j].memory_id == list[j].memory_id);
            assert(text_less(list[i].memory_id, list[j].memory_id));
        }
        assert forall|i: int| 0 <= i < after.len() implies (#[trigger] after[i]).routes.len() > 0 by {
            assert(list[i].routes.len() > 0);
        }
        assert(after[at].memory_id == id);
    } else {
        if at < list.len() {
            crate::order::lemma_less_total(list[at].memory_id, id);
        }
        assert forall|i: int, j: int| 0 <= i < j < after.len() implies text_less(
            (#[trigger] after[i]).memory_id,
            (#[trigger] after[j]).memory_id,
        ) by {
            if j == at {
                assert(after[i] == list[i]);
            } else if i == at {
                assert(after[j] == list[j - 1]);
                if j - 1 > at {
                    assert(text_less(list[at].memory_id, list[j - 1].memory_id));
                    crate::order::lemma_less_transitive(
                        id,
                        list[at].memory_id,
                        list[j - 1].memory_id,
                    );
                }
            } else if j < at {
                assert(after[i] == list[i] && after[j] == list[j]);
            } else if i < at {
                assert(after[i] == list[i] && after[j] == list[j - 1]);
                assert(text_less(list[i].memory_id, list[j - 1].memory_id));
            } else {
                assert(after[i] == list[i - 1] && after[j] == list[j - 1]);
                assert(text_less(list[i - 1].memory_id, list[j - 1].memory_id));
            }
        }
        assert forall|i: int| 0 <= i < after.len() implies (#[trigger] after[i]).routes.len() > 0 by {
            if i < at {
                assert(after[i] == list[i]);
            } else if i > at {
                assert(after[i] == list[i - 1]);
            }
        }
        assert(after[at].memory_id == id);
    }
}

/// The preferred one of the first routes of a list.
pub open spec fn best_entry(list: Seq<EntryModel>) -> EntryModel
    decreases list.len(),
{
    if list.len() <= 1 {
        list[0]
    } else {
        let best = best_entry(list.drop_last());
        if better_route(list.last(), best) {
            list.last()
        } else {
            best
        }
    }
}

proof fn lemma_texts_before_transitive(
    a: Seq<Seq<char>>,
    b: Seq<Seq<char>>,
    c: Seq<Seq<char>>,
)
    requires
        texts_before(a, b),
        texts_before(b, c),
    ensures
        texts_before(a, c),
    decreases a.len(),
{
    if a.len() > 0 && b.len() > 0 && c.len() > 0 {
        if a[0] == b[0] && b[0] == c[0] {
            lemma_texts_before_transitive(a.skip(1), b.skip(1), c.skip(1));
        } else if a[0] != b[0] && b[0] != c[0] {
            crate::order::lemma_less_transitive(a[0], b[0], c[0]);
            if a[0] == c[0] {
                crate::order::lemma_less_irreflexive(a[0]);
            }
        }
    }
}

proof fn lemma_better_is_transitive(a: EntryModel, b: EntryModel, c: EntryModel)
    requires
        better_route(a, b),
        better_route(b, c),
    ensures
        better_route(a, c),
{
    if a.route.evidence_class == b.route.evidence_class && b.route.evidence_class
        == c.route.evidence_class && a.route.hop_depth == b.route.hop_depth && b.route.hop_depth
        == c.route.hop_depth && a.activation == b.activation && b.activation == c.activation
        && zero_place(a.activation, a.negative_zero) == zero_place(b.activation, b.negative_zero)
        && zero_place(b.activation, b.negative_zero) == zero_place(c.activation, c.negative_zero) {
        lemma_texts_before_transitive(
            a.route.relationship_ids,
            b.route.relationship_ids,
            c.route.relationship_ids,
        );
    }
}

proof fn lemma_better_is_irreflexive(a: Seq<Seq<char>>)
    ensures
        !texts_before(a, a),
    decreases a.len(),
{
    if a.len() > 0 {
        lemma_better_is_irreflexive(a.skip(1));
    }
}

/// The preferred route is one of the routes, and none of them is better.
pub proof fn law_best_route_is_best(list: Seq<EntryModel>)
    requires
        list.len() > 0,
    ensures
        list.contains(best_entry(list)),
        forall|i: int| 0 <= i < list.len() ==> !better_route(#[trigger] list[i], best_entry(list)),
    decreases list.len(),
{
    if list.len() == 1 {
        assert(list[0] == best_entry(list));
        lemma_better_is_irreflexive(list[0].route.relationship_ids);
    } else {
        let rest = list.drop_last();
        law_best_route_is_best(rest);
        let before = best_entry(rest);
        let best = best_entry(list);
        let k = choose|k: int| 0 <= k < rest.len() && rest[k] == before;
        assert(list[k] == before);
        assert(list[list.len() - 1] == list.last());
        lemma_better_is_irreflexive(list.last().route.relationship_ids);
        assert forall|i: int| 0 <= i < list.len() implies !better_route(
            #[trigger] list[i],
            best,
        ) by {
            if i < rest.len() {
                assert(rest[i] == list[i]);
                if better_route(list.last(), before) && better_route(list[i], list.last()) {
                    lemma_better_is_transitive(list[i], list.last(), before);
                }
            }
        }
    }
}

/// The greatest activation of a list of routes; the lowest finite one where there
/// are none.
pub open spec fn top_activation(list: Seq<EntryModel>) -> Score
    decreases list.len(),
{
    if list.len() == 0 {
        Score { key: LOWEST_SCORE_KEY }
    } else {
        let best = top_activation(list.drop_last());
        if list.last().activation.key > best.key {
            list.last().activation
        } else {
            best
        }
    }
}

/// The position of the preferred route.
pub fn best_route(routes: &Vec<EvidenceCandidateRoute>) -> (r: usize)
    requires
        routes@.len() > 0,
    ensures
        r < routes@.len(),
        routes@[r as int]@ == best_entry(entries(routes@)),
{
    let ghost list = entries(routes@);
    let mut best: usize = 0;
    let mut i: usize = 1;
    while i < routes.len()
        invariant
            list == entries(routes@),
            1 <= i <= routes.len(),
            best < i,
            routes@[best as int]@ == best_entry(list.take(i as int)),
        decreases routes.len() - i,
    {
        proof {
            assert(list.take(i + 1).drop_last() =~= list.take(i as int));
            assert(list.take(i + 1).last() == routes@[i as int]@);
        }
        if evidence_route_is_better(&routes[i], &routes[best]) {
            best = i;
        }
        i = i + 1;
    }
    assert(list.take(routes@.len() as int) =~= list);
    best
}

/// The greatest activation of the routes; the lowest finite one where there are
/// none.
pub fn max_activation(routes: &Vec<EvidenceCandidateRoute>) -> (r: Score)
    ensures
        r == top_activation(entries(routes@)),
{
    let ghost list = entries(routes@);
    let mut best: Score = Score { key: LOWEST_SCORE_KEY };
    let mut i: usize = 0;
    while i < routes.len()
        invariant
            list == entries(routes@),
            i <= routes.len(),
            best == top_activation(list.take(i as int)),
        decreases routes.len() - i,
    {
        proof {
            assert(list.take(i + 1).drop_last() =~= list.take(i as int));
            assert(list.take(i + 1).last() == routes@[i as int]@);
        }
        if routes[i].activation.key > best.key {
            best = routes[i].activation;
        }
        i = i + 1;
    }
    assert(list.take(routes@.len() as int) =~= list);
    best
}

} // verus!
