//! Bounded traversal of routing relationships from one seed.

use vstd::prelude::*;

use crate::error::{invalid3, Error, Fault};
use crate::evidence::{EvidenceGraphSeed, SeedModel};
use crate::json::{
    json_bool, json_bool_member, json_fault, json_has, json_has_member, json_number,
    json_number_member, json_parse_error, json_text, json_text_member, text_of_string,
};
use crate::order::TextSet;
use crate::pool::{
    clone_text, clone_texts, GraphEvidenceClass, GraphRouteObservation, RouteModel,
};
use crate::ranking::Score;
use crate::routes::{candidates, record_evidence_candidate, recorded, CandidateModel, EntryModel, EvidenceCandidate};
use crate::text::{list_contains, text_eq, views};
use crate::vocabulary::MAX_GRAPH_NEIGHBOR_EDGES;

verus! {

/// Relationships examined for one seed at most.
pub const GRAPH_EXPANSION_MAX_EDGES: usize = MAX_GRAPH_NEIGHBOR_EDGES;

/// Hops from a seed at most.
pub const MAX_EVIDENCE_HOPS: usize = 2;

/// What the routing metadata of a relationship says.
pub struct RoutingMetadata {
    /// Whether the relationship takes part in routing, where it says so.
    pub routing: Option<bool>,
    /// The routing contract that it names.
    pub contract: Option<String>,
    /// The version of the contract.
    pub contract_version: Option<u64>,
    /// Whether it names an object memory, which the contract no longer has.
    pub names_object_memory: bool,
}

/// The model of [`RoutingMetadata`].
pub struct RoutingModel {
    /// Whether the relationship takes part in routing.
    pub routing: Option<bool>,
    /// The routing contract.
    pub contract: Option<Seq<char>>,
    /// The version of the contract.
    pub contract_version: Option<u64>,
    /// Whether it names an object memory.
    pub names_object_memory: bool,
}

impl View for RoutingMetadata {
    type V = RoutingModel;

    open spec fn view(&self) -> RoutingModel {
        RoutingModel {
            routing: self.routing,
            contract: text_of_string(self.contract),
            contract_version: self.contract_version,
            names_object_memory: self.names_object_memory,
        }
    }
}

/// An active relationship at an entity that is being expanded, with what was
/// looked up about it.
pub struct EvidenceEdge {
    /// Relationship id.
    pub id: String,
    /// Subject entity id.
    pub subject_entity_id: String,
    /// Subject entity key.
    pub subject_entity_key: String,
    /// Stored predicate.
    pub relation_type: String,
    /// Object entity id.
    pub object_entity_id: String,
    /// Object entity key.
    pub object_entity_key: String,
    /// The memory that is the evidence of the relationship.
    pub memory_id: Option<String>,
    /// Stored metadata.
    pub metadata_json: Option<String>,
    /// Whether that memory is active, current and in the space of the seed.
    pub support_valid: bool,
    /// The activation that arrives over the relationship.
    pub activation: Score,
    /// Whether the activation is a zero with a minus sign.
    pub negative_zero: bool,
    /// The memories attached to the entity at the other end, in order.
    pub neighbor_memory_ids: Vec<String>,
}

/// The model of an [`EvidenceEdge`].
pub struct EdgeModel {
    /// Relationship id.
    pub id: Seq<char>,
    /// Subject entity id.
    pub subject_entity_id: Seq<char>,
    /// Subject entity key.
    pub subject_entity_key: Seq<char>,
    /// Stored predicate.
    pub relation_type: Seq<char>,
    /// Object entity id.
    pub object_entity_id: Seq<char>,
    /// Object entity key.
    pub object_entity_key: Seq<char>,
    /// Evidence memory.
    pub memory_id: Option<Seq<char>>,
    /// Stored metadata.
    pub metadata_json: Option<Seq<char>>,
    /// Whether the evidence memory is valid.
    pub support_valid: bool,
    /// Arriving activation.
    pub activation: Score,
    /// Whether the activation is a zero with a minus sign.
    pub negative_zero: bool,
    /// Memories at the other end.
    pub neighbor_memory_ids: Seq<Seq<char>>,
}

impl View for EvidenceEdge {
    type V = EdgeModel;

    open spec fn view(&self) -> EdgeModel {
        EdgeModel {
            id: self.id@,
            subject_entity_id: self.subject_entity_id@,
            subject_entity_key: self.subject_entity_key@,
            relation_type: self.relation_type@,
            object_entity_id: self.object_entity_id@,
            object_entity_key: self.object_entity_key@,
            memory_id: text_of_string(self.memory_id),
            metadata_json: text_of_string(self.metadata_json),
            support_valid: self.support_valid,
            activation: self.activation,
            negative_zero: self.negative_zero,
            neighbor_memory_ids: views(self.neighbor_memory_ids@),
        }
    }
}

/// The models of relationships.
pub open spec fn edges(list: Seq<EvidenceEdge>) -> Seq<EdgeModel> {
    list.map_values(|e: EvidenceEdge| e@)
}

/// A relationship that a route may take.
pub struct QualifiedEvidenceRelationship {
    /// Relationship id.
    pub relationship_id: String,
    /// Stored predicate.
    pub predicate_name: String,
    /// The entity at the other end.
    pub neighbor_entity_id: String,
    /// Its key.
    pub neighbor_entity_key: String,
    /// The memory that is the evidence.
    pub target_memory_id: String,
    /// `forward` from subject to object, or `reverse`.
    pub direction: String,
}

/// The model of a [`QualifiedEvidenceRelationship`].
pub struct QualifiedModel {
    /// Relationship id.
    pub relationship_id: Seq<char>,
    /// Stored predicate.
    pub predicate_name: Seq<char>,
    /// The entity at the other end.
    pub neighbor_entity_id: Seq<char>,
    /// Its key.
    pub neighbor_entity_key: Seq<char>,
    /// The memory that is the evidence.
    pub target_memory_id: Seq<char>,
    /// Direction.
    pub direction: Seq<char>,
}

impl View for QualifiedEvidenceRelationship {
    type V = QualifiedModel;

    open spec fn view(&self) -> QualifiedModel {
        QualifiedModel {
            relationship_id: self.relationship_id@,
            predicate_name: self.predicate_name@,
            neighbor_entity_id: self.neighbor_entity_id@,
            neighbor_entity_key: self.neighbor_entity_key@,
            target_memory_id: self.target_memory_id@,
            direction: self.direction@,
        }
    }
}

/// What a failure of a routing relationship is reported as.
pub open spec fn routing_fault(id: Seq<char>, what: Seq<char>) -> Fault {
    Fault::InvalidRequest("routing relationship "@ + id + what)
}

/// Whether and how a route may take a relationship away from an entity, given
/// what the routing metadata says.
pub open spec fn qualify(
    current: Seq<char>,
    edge: EdgeModel,
    metadata: RoutingModel,
) -> Result<Option<QualifiedModel>, Fault> {
    if metadata.routing != Some(true) {
        Ok(None)
    } else if metadata.contract != Some("evidence_join_v2"@) || metadata.contract_version != Some(
        2u64,
    ) {
        Err(routing_fault(edge.id, " must use evidence_join_v2 contract version 2"@))
    } else if metadata.names_object_memory {
        Err(
            routing_fault(
                edge.id,
                " uses removed object_memory_id; memory_id is the sole evidence id"@,
            ),
        )
    } else if edge.relation_type == "related_to"@ {
        Ok(None)
    } else if edge.memory_id is None {
        Err(routing_fault(edge.id, " is missing evidence memory_id"@))
    } else if !edge.support_valid {
        Err(
            routing_fault(
                edge.id,
                " has invalid evidence memory "@ + edge.memory_id.unwrap(),
            ),
        )
    } else if edge.subject_entity_id == current {
        Ok(
            Some(
                QualifiedModel {
                    relationship_id: edge.id,
                    predicate_name: edge.relation_type,
                    neighbor_entity_id: edge.object_entity_id,
                    neighbor_entity_key: edge.object_entity_key,
                    target_memory_id: edge.memory_id.unwrap(),
                    direction: "forward"@,
                },
            ),
        )
    } else if edge.object_entity_id == current {
        Ok(
            Some(
                QualifiedModel {
                    relationship_id: edge.id,
                    predicate_name: edge.relation_type,
                    neighbor_entity_id: edge.subject_entity_id,
                    neighbor_entity_key: edge.subject_entity_key,
                    target_memory_id: edge.memory_id.unwrap(),
                    direction: "reverse"@,
                },
            ),
        )
    } else {
        Ok(None)
    }
}

/// The model of a qualification.
pub open spec fn qualified_result(
    r: Result<Option<QualifiedEvidenceRelationship>, Error>,
) -> Result<Option<QualifiedModel>, Fault> {
    match r {
        Ok(Some(q)) => Ok(Some(q@)),
        Ok(None) => Ok(None),
        Err(e) => Err(e@),
    }
}

/// Whether an optional text is the given one.
fn is_text(value: &Option<String>, wanted: &str) -> (r: bool)
    ensures
        r == (text_of_string(*value) == Some(wanted@)),
{
    match value {
        Some(text) => text_eq(text.as_str(), wanted),
        None => false,
    }
}

/// Decides whether and how a route may take a relationship away from an entity,
/// given what its routing metadata says.
pub fn qualify_relationship(
    current_entity_id: &str,
    edge: &EvidenceEdge,
    metadata: &RoutingMetadata,
) -> (r: Result<Option<QualifiedEvidenceRelationship>, Error>)
    ensures
        qualified_result(r) == qualify(current_entity_id@, edge@, metadata@),
{
    let routing: bool = match metadata.routing {
        Some(flag) => flag,
        None => false,
    };
    if !routing {
        return Ok(None);
    }
    let version_fits: bool = match metadata.contract_version {
        Some(version) => version == 2,
        None => false,
    };
    if !is_text(&metadata.contract, "evidence_join_v2") || !version_fits {
        return Err(
            invalid3(
                "routing relationship ",
                edge.id.as_str(),
                " must use evidence_join_v2 contract version 2",
            ),
        );
    }
    if metadata.names_object_memory {
        return Err(
            invalid3(
                "routing relationship ",
                edge.id.as_str(),
                " uses removed object_memory_id; memory_id is the sole evidence id",
            ),
        );
    }
    if text_eq(edge.relation_type.as_str(), "related_to") {
        return Ok(None);
    }
    let evidence = match &edge.memory_id {
        Some(id) => id.clone(),
        None => {
            return Err(
                invalid3(
                    "routing relationship ",
                    edge.id.as_str(),
                    " is missing evidence memory_id",
                ),
            );
        },
    };
    if !edge.support_valid {
        let what = crate::error::concat(" has invalid evidence memory ", evidence.as_str());
        return Err(invalid3("routing relationship ", edge.id.as_str(), what.as_str()));
    }
    if text_eq(edge.subject_entity_id.as_str(), current_entity_id) {
        Ok(
            Some(
                QualifiedEvidenceRelationship {
                    relationship_id: edge.id.clone(),
                    predicate_name: edge.relation_type.clone(),
                    neighbor_entity_id: edge.object_entity_id.clone(),
                    neighbor_entity_key: edge.object_entity_key.clone(),
                    target_memory_id: evidence,
                    direction: "forward".to_owned(),
                },
            ),
        )
    } else if text_eq(edge.object_entity_id.as_str(), current_entity_id) {
        Ok(
            Some(
                QualifiedEvidenceRelationship {
                    relationship_id: edge.id.clone(),
                    predicate_name: edge.relation_type.clone(),
                    neighbor_entity_id: edge.subject_entity_id.clone(),
                    neighbor_entity_key: edge.subject_entity_key.clone(),
                    target_memory_id: evidence,
                    direction: "reverse".to_owned(),
                },
            ),
        )
    } else {
        Ok(None)
    }
}

/// What the JSON parser makes of routing metadata.
pub open spec fn routing_of(text: Seq<char>) -> RoutingModel {
    RoutingModel {
        routing: json_bool(text, "routing"@),
        contract: json_text(text, "routing_contract"@),
        contract_version: json_number(text, "routing_contract_version"@),
        names_object_memory: json_has(text, "object_memory_id"@),
    }
}

/// Reads the routing metadata of a relationship.
pub fn read_routing_metadata(relationship_id: &str, metadata_json: &str) -> (r: Result<
    RoutingMetadata,
    Error,
>)
    ensures
        match r {
            Ok(m) => json_fault(metadata_json@) is None && m@ == routing_of(metadata_json@),
            Err(e) => json_fault(metadata_json@) matches Some(what) && e@ == routing_fault(
                relationship_id@,
                " has invalid metadata_json: "@ + what,
            ),
        },
{
    match json_parse_error(metadata_json) {
        Some(what) => {
            let tail = crate::error::concat(" has invalid metadata_json: ", what.as_str());
            Err(invalid3("routing relationship ", relationship_id, tail.as_str()))
        },
        None => Ok(
            RoutingMetadata {
                routing: json_bool_member(metadata_json, "routing"),
                contract: json_text_member(metadata_json, "routing_contract"),
                contract_version: json_number_member(metadata_json, "routing_contract_version"),
                names_object_memory: json_has_member(metadata_json, "object_memory_id"),
            },
        ),
    }
}

/// Whether and how a route may take a relationship away from an entity.
pub open spec fn qualified(current: Seq<char>, edge: EdgeModel) -> Result<
    Option<QualifiedModel>,
    Fault,
> {
    match edge.metadata_json {
        None => Ok(None),
        Some(text) => match json_fault(text) {
            Some(what) => Err(routing_fault(edge.id, " has invalid metadata_json: "@ + what)),
            None => qualify(current, edge, routing_of(text)),
        },
    }
}

/// Decides whether and how a route may take a relationship away from an entity:
/// it must be a typed routing relationship of the current contract with valid
/// evidence; a broken contract is an error.
pub fn qualified_evidence_relationship(current_entity_id: &str, edge: &EvidenceEdge) -> (r: Result<
    Option<QualifiedEvidenceRelationship>,
    Error,
>)
    ensures
        qualified_result(r) == qualified(current_entity_id@, edge@),
{
    match &edge.metadata_json {
        None => Ok(None),
        Some(text) => match read_routing_metadata(edge.id.as_str(), text.as_str()) {
            Err(e) => Err(e),
            Ok(metadata) => qualify_relationship(current_entity_id, edge, &metadata),
        },
    }
}

/// An entity that a traversal has reached and not yet expanded.
pub struct EvidenceTraversalState {
    /// The entity.
    pub entity_id: String,
    /// Hops from the seed.
    pub depth: usize,
    /// Activation at the entity.
    pub activation: Score,
    /// Whether the activation is a zero with a minus sign.
    pub negative_zero: bool,
    /// Relationships on the way, in order.
    pub relationship_ids: Vec<String>,
    /// Their predicates.
    pub predicate_names: Vec<String>,
    /// Their directions.
    pub traversal_directions: Vec<String>,
}

/// The model of an [`EvidenceTraversalState`].
pub struct StateModel {
    /// The entity.
    pub entity_id: Seq<char>,
    /// Hops from the seed.
    pub depth: int,
    /// Activation at the entity.
    pub activation: Score,
    /// Whether the activation is a zero with a minus sign.
    pub negative_zero: bool,
    /// Relationships on the way.
    pub relationship_ids: Seq<Seq<char>>,
    /// Their predicates.
    pub predicate_names: Seq<Seq<char>>,
    /// Their directions.
    pub traversal_directions: Seq<Seq<char>>,
}

impl View for EvidenceTraversalState {
    type V = StateModel;

    open spec fn view(&self) -> StateModel {
        StateModel {
            entity_id: self.entity_id@,
            depth: self.depth as int,
            activation: self.activation,
            negative_zero: self.negative_zero,
            relationship_ids: views(self.relationship_ids@),
            predicate_names: views(self.predicate_names@),
            traversal_directions: views(self.traversal_directions@),
        }
    }
}

/// The models of states.
pub open spec fn states(list: Seq<EvidenceTraversalState>) -> Seq<StateModel> {
    list.map_values(|s: EvidenceTraversalState| s@)
}

/// A traversal from one seed.
pub struct EvidenceTraversal {
    /// The seed.
    pub seed: EvidenceGraphSeed,
    /// Entities to expand, the first one next.
    pub frontier: Vec<EvidenceTraversalState>,
    /// Entities reached so far.
    pub reached: Vec<String>,
    /// Relationships examined so far.
    pub examined_edges: usize,
}

/// The model of an [`EvidenceTraversal`] and of the candidates found with it.
pub struct WalkModel {
    /// The seed.
    pub seed: SeedModel,
    /// Entities to expand.
    pub frontier: Seq<StateModel>,
    /// Entities reached so far.
    pub reached: Seq<Seq<char>>,
    /// Relationships examined so far.
    pub examined_edges: int,
    /// Memories reached so far.
    pub found: Seq<CandidateModel>,
}

/// The model of a traversal and the candidates found with it.
pub open spec fn walk_model(t: EvidenceTraversal, found: Seq<EvidenceCandidate>) -> WalkModel {
    WalkModel {
        seed: t.seed@,
        frontier: states(t.frontier@),
        reached: views(t.reached@),
        examined_edges: t.examined_edges as int,
        found: candidates(found),
    }
}

/// A route that ends with the last relationship of a state.
pub open spec fn route_of(
    seed: SeedModel,
    state: StateModel,
    class: GraphEvidenceClass,
) -> RouteModel {
    RouteModel {
        seed_source: seed.source,
        seed_memory_id: seed.memory_id,
        seed_entity_id: seed.entity_id,
        matched_query_index: seed.matched_query_index,
        matched_query_span: seed.matched_query_span,
        hop_depth: state.depth as usize,
        relationship_ids: state.relationship_ids,
        predicate_names: state.predicate_names,
        traversal_directions: state.traversal_directions,
        evidence_class: class,
        route_outcome: "active"@,
    }
}

/// The state one hop further over a qualified relationship.
pub open spec fn next_state(state: StateModel, edge: EdgeModel, q: QualifiedModel) -> StateModel {
    StateModel {
        entity_id: q.neighbor_entity_id,
        depth: state.depth + 1,
        activation: edge.activation,
        negative_zero: edge.negative_zero,
        relationship_ids: state.relationship_ids.push(q.relationship_id),
        predicate_names: state.predicate_names.push(q.predicate_name),
        traversal_directions: state.traversal_directions.push(q.direction),
    }
}

/// The candidates after the memories at the other end were recorded as fallback.
pub open spec fn with_fallbacks(
    found: Seq<CandidateModel>,
    ids: Seq<Seq<char>>,
    target: Seq<char>,
    entry: EntryModel,
) -> Seq<CandidateModel>
    decreases ids.len(),
{
    if ids.len() == 0 {
        found
    } else {
        let before = with_fallbacks(found, ids.drop_last(), target, entry);
        if ids.last() == target {
            before
        } else {
            recorded(before, ids.last(), entry)
        }
    }
}

/// The walk after one relationship of the expanded state was examined.
pub open spec fn step(
    walk: WalkModel,
    state: StateModel,
    edge: EdgeModel,
    eligible: Seq<Seq<char>>,
) -> Result<WalkModel, Fault> {
    let counted = WalkModel { examined_edges: walk.examined_edges + 1, ..walk };
    if state.relationship_ids.contains(edge.id) {
        Ok(counted)
    } else {
        match qualified(state.entity_id, edge) {
            Err(fault) => Err(fault),
            Ok(None) => Ok(counted),
            Ok(Some(q)) => {
                let next = next_state(state, edge, q);
                let support = EntryModel {
                    activation: edge.activation,
                    negative_zero: edge.negative_zero,
                    route: route_of(walk.seed, next, GraphEvidenceClass::EndpointSupport),
                };
                let fallback = EntryModel {
                    activation: edge.activation,
                    negative_zero: edge.negative_zero,
                    route: route_of(walk.seed, next, GraphEvidenceClass::EntityFallback),
                };
                let supported = if eligible.contains(q.target_memory_id) {
                    recorded(walk.found, q.target_memory_id, support)
                } else {
                    walk.found
                };
                let found = with_fallbacks(
                    supported,
                    edge.neighbor_memory_ids,
                    q.target_memory_id,
                    fallback,
                );
                if next.depth < MAX_EVIDENCE_HOPS && !walk.reached.contains(q.neighbor_entity_id) {
                    Ok(
                        WalkModel {
                            frontier: walk.frontier.push(next),
                            reached: walk.reached.push(q.neighbor_entity_id),
                            found,
                            ..counted
                        },
                    )
                } else {
                    Ok(WalkModel { found, ..counted })
                }
            },
        }
    }
}

/// The walk after all relationships of the expanded state were examined, or the
/// first fault among them.
pub open spec fn expand(
    walk: WalkModel,
    state: StateModel,
    list: Seq<EdgeModel>,
    eligible: Seq<Seq<char>>,
) -> Result<WalkModel, Fault>
    decreases list.len(),
{
    if list.len() == 0 {
        Ok(walk)
    } else {
        match expand(walk, state, list.drop_last(), eligible) {
            Err(fault) => Err(fault),
            Ok(before) => step(before, state, list.last(), eligible),
        }
    }
}

/// The route observation that ends at a state.
fn evidence_route_observation(
    seed: &EvidenceGraphSeed,
    state: &EvidenceTraversalState,
    evidence_class: GraphEvidenceClass,
) -> (r: GraphRouteObservation)
    ensures
        r@ == route_of(seed@, state@, evidence_class),
{
    GraphRouteObservation {
        seed_source: seed.source,
        seed_memory_id: clone_text(&seed.memory_id),
        seed_entity_id: seed.entity_id.clone(),
        matched_query_index: seed.matched_query_index,
        matched_query_span: clone_text(&seed.matched_query_span),
        hop_depth: state.depth,
        relationship_ids: clone_texts(&state.relationship_ids),
        predicate_names: clone_texts(&state.predicate_names),
        traversal_directions: clone_texts(&state.traversal_directions),
        evidence_class,
        route_outcome: "active".to_owned(),
    }
}

/// A copy of a list with one more text.
fn extended(list: &Vec<String>, more: &str) -> (r: Vec<String>)
    ensures
        views(r@) == views(list@).push(more@),
{
    let mut out = clone_texts(list);
    let ghost before = out@;
    out.push(more.to_owned());
    assert(views(out@) =~= views(before).push(more@));
    out
}

/// Records the memories at the other end of a relationship as fallback.
fn record_fallbacks(
    found: &mut Vec<EvidenceCandidate>,
    ids: &Vec<String>,
    target: &str,
    seed: &EvidenceGraphSeed,
    state: &EvidenceTraversalState,
)
    ensures
        candidates(final(found)@) == with_fallbacks(
            candidates(old(found)@),
            views(ids@),
            target@,
            EntryModel {
                activation: state.activation,
                negative_zero: state.negative_zero,
                route: route_of(seed@, state@, GraphEvidenceClass::EntityFallback),
            },
        ),
{
    let ghost base = candidates(found@);
    let ghost models = views(ids@);
    let ghost entry = EntryModel {
        activation: state.activation,
        negative_zero: state.negative_zero,
        route: route_of(seed@, state@, GraphEvidenceClass::EntityFallback),
    };
    for i in 0..ids.len()
        invariant
            models == views(ids@),
            entry == (EntryModel {
                activation: state.activation,
                negative_zero: state.negative_zero,
                route: route_of(seed@, state@, GraphEvidenceClass::EntityFallback),
            }),
            candidates(found@) == with_fallbacks(base, models.take(i as int), target@, entry),
    {
        proof {
            assert(models.take(i + 1).drop_last() =~= models.take(i as int));
            assert(models.take(i + 1).last() == ids@[i as int]@);
        }
        if !text_eq(ids[i].as_str(), target) {
            record_evidence_candidate(
                found,
                ids[i].as_str(),
                state.activation,
                state.negative_zero,
                evidence_route_observation(seed, state, GraphEvidenceClass::EntityFallback),
            );
        }
    }
    assert(models.take(ids@.len() as int) =~= models);
}

impl EvidenceTraversal {
    /// A traversal that is about to expand its seed.
    pub fn new(seed: EvidenceGraphSeed) -> (r: Self)
        ensures
            r.seed@ == seed@,
            states(r.frontier@) == seq![
                StateModel {
                    entity_id: seed@.entity_id,
                    depth: 0,
                    activation: seed@.score,
                    negative_zero: false,
                    relationship_ids: Seq::empty(),
                    predicate_names: Seq::empty(),
                    traversal_directions: Seq::empty(),
                },
            ],
            views(r.reached@) == seq![seed@.entity_id],
            r.examined_edges == 0,
    {
        let mut frontier: Vec<EvidenceTraversalState> = Vec::new();
        frontier.push(
            EvidenceTraversalState {
                entity_id: seed.entity_id.clone(),
                depth: 0,
                activation: seed.score,
                negative_zero: false,
                relationship_ids: Vec::new(),
                predicate_names: Vec::new(),
                traversal_directions: Vec::new(),
            },
        );
        let mut reached: Vec<String> = Vec::new();
        reached.push(seed.entity_id.clone());
        proof {
            let first = StateModel {
                entity_id: seed@.entity_id,
                depth: 0,
                activation: seed@.score,
                negative_zero: false,
                relationship_ids: Seq::<Seq<char>>::empty(),
                predicate_names: Seq::<Seq<char>>::empty(),
                traversal_directions: Seq::<Seq<char>>::empty(),
            };
            assert(frontier@[0]@.relationship_ids =~= first.relationship_ids);
            assert(frontier@[0]@.predicate_names =~= first.predicate_names);
            assert(frontier@[0]@.traversal_directions =~= first.traversal_directions);
            assert(states(frontier@) =~= seq![first]);
            assert(views(reached@) =~= seq![seed@.entity_id]);
        }
        EvidenceTraversal { seed, frontier, reached, examined_edges: 0 }
    }

    /// Whether an entity waits that may still be expanded.
    pub open spec fn can_expand(&self) -> bool {
        self.examined_edges < GRAPH_EXPANSION_MAX_EDGES && exists|i: int|
            0 <= i < self.frontier@.len() && (#[trigger] self.frontier@[i]).depth
                < MAX_EVIDENCE_HOPS
    }

    /// Takes the next entity to expand. Entities at the last hop are dropped, and
    /// all of them once the budget of relationships is used up.
    pub fn next_expansion(&mut self) -> (r: Option<EvidenceTraversalState>)
        ensures
            final(self).seed == old(self).seed,
            final(self).reached == old(self).reached,
            final(self).examined_edges == old(self).examined_edges,
            r is Some <==> old(self).can_expand(),
            match r {
                Some(state) => exists|i: int|
                    0 <= i < old(self).frontier@.len() && state@ == #[trigger] states(
                        old(self).frontier@,
                    )[i] && state.depth < MAX_EVIDENCE_HOPS && (forall|j: int|
                        0 <= j < i ==> (#[trigger] old(self).frontier@[j]).depth
                            >= MAX_EVIDENCE_HOPS) && final(self).frontier@
                        == old(self).frontier@.skip(i + 1),
                None => final(self).frontier@.len() == 0,
            },
    {
        let ghost start = self.frontier@;
        let ghost mut dropped: int = 0;
        assert(start.skip(0) =~= start);
        while self.frontier.len() > 0
            invariant
                self.seed == old(self).seed,
                self.reached == old(self).reached,
                self.examined_edges == old(self).examined_edges,
                start == old(self).frontier@,
                0 <= dropped <= start.len(),
                self.frontier@ == start.skip(dropped),
                self.examined_edges < GRAPH_EXPANSION_MAX_EDGES ==> forall|j: int|
                    0 <= j < dropped ==> (#[trigger] start[j]).depth >= MAX_EVIDENCE_HOPS,
            decreases self.frontier@.len(),
        {
            let state = self.frontier.remove(0);
            proof {
                assert(state == start[dropped]);
                assert(self.frontier@ =~= start.skip(dropped + 1));
            }
            if state.depth < MAX_EVIDENCE_HOPS && self.examined_edges < GRAPH_EXPANSION_MAX_EDGES {
                proof {
                    assert(state@ == states(start)[dropped]);
                    assert(old(self).frontier@[dropped].depth < MAX_EVIDENCE_HOPS);
                }
                return Some(state);
            }
            proof {
                dropped = dropped + 1;
            }
        }
        None
    }

    /// How many relationships the next expansion may examine.
    pub fn remaining_edges(&self) -> (r: usize)
        ensures
            r == if self.examined_edges < GRAPH_EXPANSION_MAX_EDGES {
                (GRAPH_EXPANSION_MAX_EDGES - self.examined_edges) as usize
            } else {
                0
            },
    {
        if self.examined_edges < GRAPH_EXPANSION_MAX_EDGES {
            GRAPH_EXPANSION_MAX_EDGES - self.examined_edges
        } else {
            0
        }
    }

    /// Examines one relationship of the expanded state.
    fn absorb_edge(
        &mut self,
        state: &EvidenceTraversalState,
        edge: &EvidenceEdge,
        eligible: &TextSet,
        found: &mut Vec<EvidenceCandidate>,
    ) -> (r: Result<(), Error>)
        requires
            old(self).examined_edges < GRAPH_EXPANSION_MAX_EDGES,
            state.depth < MAX_EVIDENCE_HOPS,
            eligible.wf(),
        ensures
            match r {
                Ok(_) => step(walk_model(*old(self), old(found)@), state@, edge@, eligible@) == Ok::<
                    WalkModel,
                    Fault,
                >(walk_model(*final(self), final(found)@)),
                Err(e) => step(walk_model(*old(self), old(found)@), state@, edge@, eligible@)
                    == Err::<WalkModel, Fault>(e@),
            },
    {
        let ghost walk = walk_model(*self, found@);
        self.examined_edges = self.examined_edges + 1;
        if list_contains(state.relationship_ids.as_slice(), edge.id.as_str()) {
            return Ok(());
        }
        let route = match qualified_evidence_relationship(state.entity_id.as_str(), edge) {
            Err(e) => {
                return Err(e);
            },
            Ok(None) => {
                return Ok(());
            },
            Ok(Some(route)) => route,
        };
        let ghost q = route@;
        let next = EvidenceTraversalState {
            entity_id: route.neighbor_entity_id.clone(),
            depth: state.depth + 1,
            activation: edge.activation,
            negative_zero: edge.negative_zero,
            relationship_ids: extended(&state.relationship_ids, route.relationship_id.as_str()),
            predicate_names: extended(&state.predicate_names, route.predicate_name.as_str()),
            traversal_directions: extended(&state.traversal_directions, route.direction.as_str()),
        };
        assert(next@ == next_state(state@, edge@, q));
        if eligible.contains(route.target_memory_id.as_str()) {
            record_evidence_candidate(
                found,
                route.target_memory_id.as_str(),
                edge.activation,
                edge.negative_zero,
                evidence_route_observation(&self.seed, &next, GraphEvidenceClass::EndpointSupport),
            );
        }
        record_fallbacks(
            found,
            &edge.neighbor_memory_ids,
            route.target_memory_id.as_str(),
            &self.seed,
            &next,
        );
        if next.depth < MAX_EVIDENCE_HOPS && !list_contains(
            self.reached.as_slice(),
            route.neighbor_entity_id.as_str(),
        ) {
            let ghost reached = self.reached@;
            let ghost frontier = self.frontier@;
            self.reached.push(route.neighbor_entity_id);
            self.frontier.push(next);
            proof {
                assert(views(self.reached@) =~= views(reached).push(q.neighbor_entity_id));
                assert(states(self.frontier@) =~= states(frontier).push(next@));
            }
        }
        Ok(())
    }

    /// Follows the relationships of an expanded entity: memories that qualified
    /// relationships support or reach are recorded as candidates, and entities
    /// one hop away wait for their turn. The first broken relationship ends it.
    pub fn traverse_evidence_seed(
        &mut self,
        state: &EvidenceTraversalState,
        list: &Vec<EvidenceEdge>,
        eligible: &TextSet,
        found: &mut Vec<EvidenceCandidate>,
    ) -> (r: Result<(), Error>)
        requires
            old(self).examined_edges + list@.len() <= GRAPH_EXPANSION_MAX_EDGES,
            state.depth < MAX_EVIDENCE_HOPS,
            eligible.wf(),
        ensures
            match r {
                Ok(_) => expand(
                    walk_model(*old(self), old(found)@),
                    state@,
                    edges(list@),
                    eligible@,
                ) == Ok::<WalkModel, Fault>(walk_model(*final(self), final(found)@)),
                Err(e) => expand(
                    walk_model(*old(self), old(found)@),
                    state@,
                    edges(list@),
                    eligible@,
                ) == Err::<WalkModel, Fault>(e@),
            },
    {
        let ghost start = walk_model(*self, found@);
        let ghost models = edges(list@);
        let ghost examined = self.examined_edges as int;
        for i in 0..list.len()
            invariant
                models == edges(list@),
                start == walk_model(*old(self), old(found)@),
                state.depth < MAX_EVIDENCE_HOPS,
                eligible.wf(),
                self.examined_edges == examined + i,
                examined + list@.len() <= GRAPH_EXPANSION_MAX_EDGES,
                expand(start, state@, models.take(i as int), eligible@) == Ok::<WalkModel, Fault>(
                    walk_model(*self, found@),
                ),
        {
            proof {
                assert(models.take(i + 1).drop_last() =~= models.take(i as int));
                assert(models.take(i + 1).last() == list@[i as int]@);
            }
            match self.absorb_edge(state, &list[i], eligible, found) {
                Ok(_) => {},
                Err(e) => {
                    proof {
                        lemma_expand_stays(start, state@, models, eligible@, i + 1, e@);
                        assert(models.take(models.len() as int) =~= models);
                    }
                    return Err(e);
                },
            }
        }
        assert(models.take(models.len() as int) =~= models);
        Ok(())
    }
}

proof fn lemma_expand_stays(
    walk: WalkModel,
    state: StateModel,
    list: Seq<EdgeModel>,
    eligible: Seq<Seq<char>>,
    n: int,
    fault: Fault,
)
    requires
        0 <= n <= list.len(),
        expand(walk, state, list.take(n), eligible) == Err::<WalkModel, Fault>(fault),
    ensures
        expand(walk, state, list, eligible) == Err::<WalkModel, Fault>(fault),
    decreases list.len() - n,
{
    if n == list.len() {
        assert(list.take(n) =~= list);
    } else {
        assert(list.take(n + 1).drop_last() =~= list.take(n));
        lemma_expand_stays(walk, state, list, eligible, n + 1, fault);
    }
}

/// Whether the path of a state has one relationship, predicate and direction for
/// each hop, and no relationship twice.
pub open spec fn path_wf(state: StateModel) -> bool {
    &&& 0 <= state.depth
    &&& state.relationship_ids.len() == state.depth
    &&& state.predicate_names.len() == state.depth
    &&& state.traversal_directions.len() == state.depth
    &&& state.relationship_ids.no_duplicates()
}

/// Whether a route is one or two hops long and its path fits its length.
pub open spec fn route_wf(route: RouteModel) -> bool {
    &&& 1 <= route.hop_depth <= MAX_EVIDENCE_HOPS
    &&& route.relationship_ids.len() == route.hop_depth
    &&& route.predicate_names.len() == route.hop_depth
    &&& route.traversal_directions.len() == route.hop_depth
    &&& route.relationship_ids.no_duplicates()
}

/// Whether every route to a memory is well formed and the candidates stand in order.
pub open spec fn found_wf(found: Seq<CandidateModel>) -> bool {
    &&& crate::routes::candidates_wf(found)
    &&& forall|i: int, k: int|
        0 <= i < found.len() && 0 <= k < found[i].routes.len() ==> route_wf(
            (#[trigger] found[i].routes[k]).route,
        )
}

/// Whether a walk keeps its bounds: no more relationships than the budget, no
/// entity waiting at the last hop, every path and route well formed.
pub open spec fn walk_wf(walk: WalkModel) -> bool {
    &&& 0 <= walk.examined_edges <= GRAPH_EXPANSION_MAX_EDGES
    &&& forall|i: int|
        0 <= i < walk.frontier.len() ==> path_wf(#[trigger] walk.frontier[i])
            && walk.frontier[i].depth < MAX_EVIDENCE_HOPS
    &&& found_wf(walk.found)
}

proof fn lemma_recorded_wf(found: Seq<CandidateModel>, id: Seq<char>, entry: EntryModel)
    requires
        found_wf(found),
        route_wf(entry.route),
    ensures
        found_wf(recorded(found, id, entry)),
{
    crate::routes::law_recorded_keeps_order(found, id, entry);
    let after = recorded(found, id, entry);
    let at = crate::routes::id_place(found, id);
    crate::routes::lemma_id_place(found, id);
    assert forall|i: int, k: int|
        0 <= i < after.len() && 0 <= k < after[i].routes.len() implies route_wf(
        (#[trigger] after[i].routes[k]).route,
    ) by {
        if at < found.len() && found[at].memory_id == id {
            if i == at {
                let list = found[at].routes;
                let place = crate::routes::seed_place(list, entry.route);
                crate::routes::lemma_seed_place_bound(list, entry.route);
                let all = crate::routes::with_route(list, entry);
                assert(after[i].routes == all);
                if place < list.len() && crate::routes::same_seed(list[place].route, entry.route) {
                    if k != place {
                        assert(all[k] == found[at].routes[k]);
                    } else if all[k] != entry {
                        assert(all[k] == found[at].routes[k]);
                    }
                } else if k < place {
                    assert(all[k] == found[at].routes[k]);
                } else if k > place {
                    assert(all[k] == found[at].routes[k - 1]);
                }
            } else {
                assert(after[i] == found[i]);
                assert(route_wf(found[i].routes[k].route));
            }
        } else if i < at {
            assert(after[i] == found[i]);
            assert(route_wf(found[i].routes[k].route));
        } else if i > at {
            assert(after[i] == found[i - 1]);
            assert(route_wf(found[i - 1].routes[k].route));
        } else {
            assert(after[i].routes == seq![entry]);
        }
    }
}

proof fn lemma_fallbacks_wf(
    found: Seq<CandidateModel>,
    ids: Seq<Seq<char>>,
    target: Seq<char>,
    entry: EntryModel,
)
    requires
        found_wf(found),
        route_wf(entry.route),
    ensures
        found_wf(with_fallbacks(found, ids, target, entry)),
    decreases ids.len(),
{
    if ids.len() > 0 {
        lemma_fallbacks_wf(found, ids.drop_last(), target, entry);
        if ids.last() != target {
            lemma_recorded_wf(
                with_fallbacks(found, ids.drop_last(), target, entry),
                ids.last(),
                entry,
            );
        }
    }
}

proof fn lemma_step_wf(
    walk: WalkModel,
    state: StateModel,
    edge: EdgeModel,
    eligible: Seq<Seq<char>>,
)
    requires
        walk_wf(walk),
        walk.examined_edges < GRAPH_EXPANSION_MAX_EDGES,
        path_wf(state),
        state.depth < MAX_EVIDENCE_HOPS,
    ensures
        match step(walk, state, edge, eligible) {
            Ok(after) => walk_wf(after) && after.examined_edges == walk.examined_edges + 1,
            Err(_) => true,
        },
{
    if !state.relationship_ids.contains(edge.id) {
        match qualified(state.entity_id, edge) {
            Ok(Some(q)) => {
                let next = next_state(state, edge, q);
                assert(q.relationship_id == edge.id);
                assert(next.relationship_ids.no_duplicates()) by {
                    let ids = next.relationship_ids;
                    assert forall|i: int, j: int|
                        0 <= i < ids.len() && 0 <= j < ids.len() && i != j implies ids[i]
                        != ids[j] by {
                        if i == state.relationship_ids.len() {
                            assert(state.relationship_ids.contains(ids[j]));
                        } else if j == state.relationship_ids.len() {
                            assert(state.relationship_ids.contains(ids[i]));
                        }
                    }
                }
                let support = EntryModel {
                    activation: edge.activation,
                    negative_zero: edge.negative_zero,
                    route: route_of(walk.seed, next, GraphEvidenceClass::EndpointSupport),
                };
                let fallback = EntryModel {
                    activation: edge.activation,
                    negative_zero: edge.negative_zero,
                    route: route_of(walk.seed, next, GraphEvidenceClass::EntityFallback),
                };
                lemma_recorded_wf(walk.found, q.target_memory_id, support);
                let supported = if eligible.contains(q.target_memory_id) {
                    recorded(walk.found, q.target_memory_id, support)
                } else {
                    walk.found
                };
                lemma_fallbacks_wf(
                    supported,
                    edge.neighbor_memory_ids,
                    q.target_memory_id,
                    fallback,
                );
            },
            _ => {},
        }
    }
}

/// A traversal stays within its bounds: whatever relationships are examined, no
/// more than the budget are counted, no entity beyond the first hop waits for
/// expansion, and every recorded route is one or two hops long without taking a
/// relationship twice.
pub proof fn law_traversal_is_bounded(
    walk: WalkModel,
    state: StateModel,
    list: Seq<EdgeModel>,
    eligible: Seq<Seq<char>>,
)
    requires
        walk_wf(walk),
        walk.examined_edges + list.len() <= GRAPH_EXPANSION_MAX_EDGES,
        path_wf(state),
        state.depth < MAX_EVIDENCE_HOPS,
    ensures
        match expand(walk, state, list, eligible) {
            Ok(after) => walk_wf(after) && after.examined_edges == walk.examined_edges
                + list.len(),
            Err(_) => true,
        },
    decreases list.len(),
{
    if list.len() > 0 {
        law_traversal_is_bounded(walk, state, list.drop_last(), eligible);
        match expand(walk, state, list.drop_last(), eligible) {
            Ok(before) => {
                lemma_step_wf(before, state, list.last(), eligible);
            },
            Err(_) => {},
        }
    }
}

} // verus!
