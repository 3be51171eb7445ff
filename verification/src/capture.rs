//! Entities and relationships that come with a memory.

use vstd::prelude::*;

use crate::entities::{
    graph_value_fault, normal_aliases, normalize_entity_aliases, normalize_required_graph_value,
    EntityUpsertRequest,
};
use crate::error::{invalid, invalid2, invalid3, verdict, Error, Fault};
use crate::json::{
    as_text, json_object, json_quoted, member_names, member_texts, text_of_string, JsonMember,
};
use crate::memory::text_json;
use crate::order::{lemma_less_at, text_less};
use crate::pool::{clone_text, clone_texts};
use crate::ranking::{in_unit_range, is_in_unit_range, Score};
use crate::records::{is_plain, plain_object, ImportJson};
use crate::relationships::RelationshipUpsertRequest;
use crate::remember::{JsonDocument, RememberRequest};
use crate::text::{decimal, decimal_of, joined, list_contains, text_eq, trim, trimmed, views};
use crate::validate::{
    first_of, metadata_fault, refused_if, validate_optional_metadata_value,
};
use crate::vocabulary::{MAX_CAPTURE_ENTITIES, MAX_CAPTURE_RELATIONSHIPS, STATUS_ACTIVE};

verus! {

/// An entity that comes with a memory.
pub struct GraphCaptureEntity {
    /// Key.
    pub entity_key: String,
    /// Type.
    pub entity_type: String,
    /// Name.
    pub canonical_name: String,
    /// Aliases.
    pub aliases: Vec<String>,
}

/// A relationship that comes with a memory.
pub struct GraphCaptureRelationship {
    /// Key of the one entity.
    pub subject_entity_key: String,
    /// Type.
    pub relation_type: String,
    /// Key of the other.
    pub object_entity_key: String,
    /// Confidence.
    pub confidence: Score,
}

/// What comes with a memory.
pub struct GraphCapture {
    /// What found it.
    pub extractor: String,
    /// The version of what found it.
    pub extractor_version: Option<String>,
    /// Entities.
    pub entities: Vec<GraphCaptureEntity>,
    /// Relationships between them.
    pub relationships: Vec<GraphCaptureRelationship>,
}

/// Whether a key is that of an entity.
pub open spec fn declared(entities: Seq<GraphCaptureEntity>, key: Seq<char>) -> bool {
    exists|i: int| 0 <= i < entities.len() && trimmed((#[trigger] entities[i]).entity_key@) == key
}

/// The fault of one entity.
pub open spec fn captured_entity_fault(entity: GraphCaptureEntity) -> Option<Fault> {
    first_of(
        graph_value_fault("entity_key"@, Some(entity.entity_key@)),
        first_of(
            graph_value_fault("entity_type"@, Some(entity.entity_type@)),
            first_of(
                graph_value_fault("canonical_name"@, Some(entity.canonical_name@)),
                crate::records::fault_of(normal_aliases(views(entity.aliases@))),
            ),
        ),
    )
}

/// The fault of entities.
pub open spec fn captured_entities_fault(entities: Seq<GraphCaptureEntity>) -> Option<Fault>
    decreases entities.len(),
{
    if entities.len() == 0 {
        None
    } else {
        let last = entities.last();
        first_of(
            captured_entities_fault(entities.drop_last()),
            first_of(
                captured_entity_fault(last),
                refused_if(
                    declared(entities.drop_last(), trimmed(last.entity_key@)),
                    "graph.entities contains duplicate entity_key: "@ + last.entity_key@,
                ),
            ),
        )
    }
}

/// Whether two relationships say the same.
pub open spec fn same_edge(a: GraphCaptureRelationship, b: GraphCaptureRelationship) -> bool {
    &&& trimmed(a.subject_entity_key@) == trimmed(b.subject_entity_key@)
    &&& trimmed(a.relation_type@) == trimmed(b.relation_type@)
    &&& trimmed(a.object_entity_key@) == trimmed(b.object_entity_key@)
}

/// Whether one of the relationships says the same as another.
pub open spec fn said(
    relationships: Seq<GraphCaptureRelationship>,
    edge: GraphCaptureRelationship,
) -> bool {
    exists|i: int| 0 <= i < relationships.len() && same_edge(#[trigger] relationships[i], edge)
}

/// The fault of one relationship on its own.
pub open spec fn captured_edge_fault(
    entities: Seq<GraphCaptureEntity>,
    edge: GraphCaptureRelationship,
) -> Option<Fault> {
    first_of(
        refused_if(
            edge.relation_type@ == "related_to"@,
            "graph relationships must use a typed predicate, not related_to"@,
        ),
        first_of(
            refused_if(
                edge.subject_entity_key@ == edge.object_entity_key@,
                "graph relationship endpoints must be different entities"@,
            ),
            first_of(
                refused_if(
                    !declared(entities, trimmed(edge.subject_entity_key@)) || !declared(
                        entities,
                        trimmed(edge.object_entity_key@),
                    ),
                    "graph relationship endpoints must be declared in graph.entities"@,
                ),
                refused_if(
                    !in_unit_range(edge.confidence),
                    "graph relationship confidence must be between 0.0 and 1.0"@,
                ),
            ),
        ),
    )
}

/// The fault of relationships.
pub open spec fn captured_edges_fault(
    entities: Seq<GraphCaptureEntity>,
    edges: Seq<GraphCaptureRelationship>,
) -> Option<Fault>
    decreases edges.len(),
{
    if edges.len() == 0 {
        None
    } else {
        first_of(
            captured_edges_fault(entities, edges.drop_last()),
            first_of(
                captured_edge_fault(entities, edges.last()),
                refused_if(
                    said(edges.drop_last(), edges.last()),
                    "graph.relationships contains a duplicate typed edge"@,
                ),
            ),
        )
    }
}

/// The fault of what comes with a memory.
pub open spec fn capture_fault(graph: GraphCapture) -> Option<Fault> {
    first_of(
        refused_if(
            graph.entities@.len() == 0 || graph.entities@.len() > MAX_CAPTURE_ENTITIES,
            "graph.entities must contain 1..="@ + decimal(MAX_CAPTURE_ENTITIES as nat)
                + " values"@,
        ),
        first_of(
            refused_if(
                graph.relationships@.len() > MAX_CAPTURE_RELATIONSHIPS,
                "graph.relationships must contain at most "@ + decimal(
                    MAX_CAPTURE_RELATIONSHIPS as nat,
                ) + " values"@,
            ),
            first_of(
                metadata_fault("graph.extractor"@, Some(graph.extractor@)),
                first_of(
                    metadata_fault(
                        "graph.extractor_version"@,
                        text_of_string(graph.extractor_version),
                    ),
                    first_of(
                        captured_entities_fault(graph.entities@),
                        captured_edges_fault(graph.entities@, graph.relationships@),
                    ),
                ),
            ),
        ),
    )
}

proof fn lemma_entities_prefix(entities: Seq<GraphCaptureEntity>, n: int)
    requires
        0 <= n <= entities.len(),
        captured_entities_fault(entities.take(n)) is Some,
    ensures
        captured_entities_fault(entities) == captured_entities_fault(entities.take(n)),
    decreases entities.len() - n,
{
    if n < entities.len() {
        assert(entities.take(n + 1).drop_last() =~= entities.take(n));
        lemma_entities_prefix(entities, n + 1);
    } else {
        assert(entities.take(n) =~= entities);
    }
}

proof fn lemma_edges_prefix(
    entities: Seq<GraphCaptureEntity>,
    edges: Seq<GraphCaptureRelationship>,
    n: int,
)
    requires
        0 <= n <= edges.len(),
        captured_edges_fault(entities, edges.take(n)) is Some,
    ensures
        captured_edges_fault(entities, edges) == captured_edges_fault(entities, edges.take(n)),
    decreases edges.len() - n,
{
    if n < edges.len() {
        assert(edges.take(n + 1).drop_last() =~= edges.take(n));
        lemma_edges_prefix(entities, edges, n + 1);
    } else {
        assert(edges.take(n) =~= edges);
    }
}

fn check_captured_entity(entity: &GraphCaptureEntity) -> (r: Result<(), Error>)
    ensures
        verdict(r) == captured_entity_fault(*entity),
{
    if let Err(e) = normalize_required_graph_value("entity_key", entity.entity_key.as_str()) {
        return Err(e);
    }
    if let Err(e) = normalize_required_graph_value("entity_type", entity.entity_type.as_str()) {
        return Err(e);
    }
    if let Err(e) = normalize_required_graph_value(
        "canonical_name",
        entity.canonical_name.as_str(),
    ) {
        return Err(e);
    }
    match normalize_entity_aliases(&entity.aliases) {
        Ok(_) => Ok(()),
        Err(e) => Err(e),
    }
}

fn is_declared(entities: &Vec<GraphCaptureEntity>, n: usize, key: &str) -> (r: bool)
    requires
        n <= entities@.len(),
    ensures
        r == declared(entities@.take(n as int), key@),
{
    let ghost all = entities@.take(n as int);
    for i in 0..n
        invariant
            n <= entities@.len(),
            all == entities@.take(n as int),
            forall|k: int| 0 <= k < i ==> trimmed((#[trigger] all[k]).entity_key@) != key@,
    {
        assert(all[i as int] == entities@[i as int]);
        if text_eq(trim(entities[i].entity_key.as_str()), key) {
            assert(trimmed(all[i as int].entity_key@) == key@);
            return true;
        }
    }
    false
}

fn check_captured_entities(entities: &Vec<GraphCaptureEntity>) -> (r: Result<(), Error>)
    ensures
        verdict(r) == captured_entities_fault(entities@),
{
    let ghost all = entities@;
    for i in 0..entities.len()
        invariant
            all == entities@,
            captured_entities_fault(all.take(i as int)) is None,
    {
        proof {
            assert(all.take(i + 1).drop_last() =~= all.take(i as int));
            assert(all.take(i + 1).last() == all[i as int]);
            if captured_entities_fault(all.take(i + 1)) is Some {
                lemma_entities_prefix(all, i + 1);
            }
        }
        let entity = &entities[i];
        if let Err(e) = check_captured_entity(entity) {
            return Err(e);
        }
        if is_declared(entities, i, trim(entity.entity_key.as_str())) {
            return Err(
                invalid2(
                    "graph.entities contains duplicate entity_key: ",
                    entity.entity_key.as_str(),
                ),
            );
        }
    }
    assert(all.take(entities@.len() as int) =~= all);
    Ok(())
}

fn check_captured_edge(
    entities: &Vec<GraphCaptureEntity>,
    edge: &GraphCaptureRelationship,
) -> (r: Result<(), Error>)
    ensures
        verdict(r) == captured_edge_fault(entities@, *edge),
{
    assert(entities@.take(entities@.len() as int) =~= entities@);
    if text_eq(edge.relation_type.as_str(), "related_to") {
        return Err(invalid("graph relationships must use a typed predicate, not related_to"));
    }
    if text_eq(edge.subject_entity_key.as_str(), edge.object_entity_key.as_str()) {
        return Err(invalid("graph relationship endpoints must be different entities"));
    }
    if !is_declared(entities, entities.len(), trim(edge.subject_entity_key.as_str()))
        || !is_declared(entities, entities.len(), trim(edge.object_entity_key.as_str())) {
        return Err(invalid("graph relationship endpoints must be declared in graph.entities"));
    }
    if !is_in_unit_range(edge.confidence) {
        return Err(invalid("graph relationship confidence must be between 0.0 and 1.0"));
    }
    Ok(())
}

fn is_same_edge(a: &GraphCaptureRelationship, b: &GraphCaptureRelationship) -> (r: bool)
    ensures
        r == same_edge(*a, *b),
{
    text_eq(trim(a.subject_entity_key.as_str()), trim(b.subject_entity_key.as_str())) && text_eq(
        trim(a.relation_type.as_str()),
        trim(b.relation_type.as_str()),
    ) && text_eq(trim(a.object_entity_key.as_str()), trim(b.object_entity_key.as_str()))
}

fn is_said(edges: &Vec<GraphCaptureRelationship>, n: usize) -> (r: bool)
    requires
        n < edges@.len(),
    ensures
        r == said(edges@.take(n as int), edges@[n as int]),
{
    let ghost all = edges@.take(n as int);
    for i in 0..n
        invariant
            n < edges@.len(),
            all == edges@.take(n as int),
            forall|k: int| 0 <= k < i ==> !same_edge(#[trigger] all[k], edges@[n as int]),
    {
        assert(all[i as int] == edges@[i as int]);
        if is_same_edge(&edges[i], &edges[n]) {
            assert(same_edge(all[i as int], edges@[n as int]));
            return true;
        }
    }
    false
}

fn check_captured_edges(
    entities: &Vec<GraphCaptureEntity>,
    edges: &Vec<GraphCaptureRelationship>,
) -> (r: Result<(), Error>)
    ensures
        verdict(r) == captured_edges_fault(entities@, edges@),
{
    let ghost all = edges@;
    for i in 0..edges.len()
        invariant
            all == edges@,
            captured_edges_fault(entities@, all.take(i as int)) is None,
    {
        proof {
            assert(all.take(i + 1).drop_last() =~= all.take(i as int));
            assert(all.take(i + 1).last() == all[i as int]);
            if captured_edges_fault(entities@, all.take(i + 1)) is Some {
                lemma_edges_prefix(entities@, all, i + 1);
            }
        }
        if let Err(e) = check_captured_edge(entities, &edges[i]) {
            return Err(e);
        }
        if is_said(edges, i) {
            return Err(invalid("graph.relationships contains a duplicate typed edge"));
        }
    }
    assert(all.take(edges@.len() as int) =~= all);
    Ok(())
}

/// The fault of what may come with a memory.
pub open spec fn optional_capture_fault(graph: Option<GraphCapture>) -> Option<Fault> {
    match graph {
        Some(g) => capture_fault(g),
        None => None,
    }
}

/// Checks what may come with a memory.
pub fn validate_graph_capture(graph: &Option<GraphCapture>) -> (r: Result<(), Error>)
    ensures
        verdict(r) == optional_capture_fault(*graph),
{
    let graph = match graph {
        Some(graph) => graph,
        None => {
            return Ok(());
        },
    };
    if graph.entities.len() == 0 || graph.entities.len() > MAX_CAPTURE_ENTITIES {
        let number = decimal_of(MAX_CAPTURE_ENTITIES as u64);
        return Err(invalid3("graph.entities must contain 1..=", number.as_str(), " values"));
    }
    if graph.relationships.len() > MAX_CAPTURE_RELATIONSHIPS {
        let number = decimal_of(MAX_CAPTURE_RELATIONSHIPS as u64);
        return Err(
            invalid3("graph.relationships must contain at most ", number.as_str(), " values"),
        );
    }
    if let Err(e) = validate_optional_metadata_value(
        "graph.extractor",
        Some(graph.extractor.as_str()),
    ) {
        return Err(e);
    }
    if let Err(e) = validate_optional_metadata_value(
        "graph.extractor_version",
        as_text(&graph.extractor_version),
    ) {
        return Err(e);
    }
    if let Err(e) = check_captured_entities(&graph.entities) {
        return Err(e);
    }
    check_captured_edges(&graph.entities, &graph.relationships)
}

/// In what is accepted, no two entities have one key, every relationship is
/// between two of the entities and has a type of its own, and none is said twice.
pub proof fn law_capture_is_typed(graph: GraphCapture, i: int, j: int)
    requires
        capture_fault(graph) is None,
    ensures
        0 <= i < j < graph.entities@.len() ==> trimmed(graph.entities@[i].entity_key@) != trimmed(
            graph.entities@[j].entity_key@,
        ),
        0 <= i < graph.relationships@.len() ==> {
            let edge = graph.relationships@[i];
            &&& edge.relation_type@ != "related_to"@
            &&& edge.subject_entity_key@ != edge.object_entity_key@
            &&& declared(graph.entities@, trimmed(edge.subject_entity_key@))
            &&& declared(graph.entities@, trimmed(edge.object_entity_key@))
            &&& in_unit_range(edge.confidence)
        },
        0 <= i < j < graph.relationships@.len() ==> !same_edge(
            graph.relationships@[i],
            graph.relationships@[j],
        ),
{
    if 0 <= i < j < graph.entities@.len() {
        lemma_accepted_entity(graph.entities@, i, j);
    }
    if 0 <= i < graph.relationships@.len() {
        lemma_accepted_edge(graph.entities@, graph.relationships@, i, i);
    }
    if 0 <= i < j < graph.relationships@.len() {
        lemma_accepted_edge(graph.entities@, graph.relationships@, i, j);
    }
}

proof fn lemma_accepted_entity(entities: Seq<GraphCaptureEntity>, i: int, j: int)
    requires
        captured_entities_fault(entities) is None,
        0 <= i < j < entities.len(),
    ensures
        trimmed(entities[i].entity_key@) != trimmed(entities[j].entity_key@),
    decreases entities.len(),
{
    let rest = entities.drop_last();
    if j < rest.len() {
        lemma_accepted_entity(rest, i, j);
    } else {
        assert(rest[i] == entities[i]);
    }
}

proof fn lemma_accepted_edge(
    entities: Seq<GraphCaptureEntity>,
    edges: Seq<GraphCaptureRelationship>,
    i: int,
    j: int,
)
    requires
        captured_edges_fault(entities, edges) is None,
        0 <= i <= j < edges.len(),
    ensures
        captured_edge_fault(entities, edges[j]) is None,
        i < j ==> !same_edge(edges[i], edges[j]),
    decreases edges.len(),
{
    let rest = edges.drop_last();
    if j < rest.len() {
        lemma_accepted_edge(entities, rest, i, j);
    } else if i < j {
        assert(rest[i] == edges[i]);
    }
}

/// What the store knows of an entity.
pub struct CaptureKeyFacts {
    /// The active entity with its key.
    pub exact_key: Option<String>,
    /// The active entities that its name or an alias of it leads to.
    pub matches: Vec<String>,
}

/// Whether all texts of a list are one.
pub open spec fn uniform(list: Seq<Seq<char>>) -> bool {
    forall|i: int| 0 <= i < list.len() ==> #[trigger] list[i] == list[0]
}

/// The entity of the store that an entity stands for.
pub open spec fn resolved_key(
    entity: GraphCaptureEntity,
    facts: CaptureKeyFacts,
) -> Result<Seq<char>, Fault> {
    match facts.exact_key {
        Some(key) => Ok(key@),
        None => if !uniform(views(facts.matches@)) {
            Err(
                Fault::InvalidRequest(
                    "graph entity "@ + entity.entity_key@
                        + " matches multiple canonical entities"@,
                ),
            )
        } else if facts.matches@.len() > 0 {
            Ok(facts.matches@[0]@)
        } else {
            Ok(entity.entity_key@)
        },
    }
}

fn resolve_key(entity: &GraphCaptureEntity, facts: &CaptureKeyFacts) -> (r: Result<String, Error>)
    ensures
        match r {
            Ok(key) => resolved_key(*entity, *facts) is Ok && resolved_key(*entity, *facts)->Ok_0
                == key@,
            Err(e) => resolved_key(*entity, *facts) is Err && resolved_key(*entity, *facts)->Err_0
                == e@,
        },
{
    match &facts.exact_key {
        Some(key) => Ok(key.clone()),
        None => {
            let ghost list = views(facts.matches@);
            for i in 0..facts.matches.len()
                invariant
                    list == views(facts.matches@),
                    facts.exact_key is None,
                    forall|k: int| 0 <= k < i ==> #[trigger] list[k] == list[0],
            {
                assert(list[i as int] == facts.matches@[i as int]@);
                assert(list[0] == facts.matches@[0]@);
                if !text_eq(facts.matches[i].as_str(), facts.matches[0].as_str()) {
                    assert(!uniform(list));
                    return Err(
                        invalid3(
                            "graph entity ",
                            entity.entity_key.as_str(),
                            " matches multiple canonical entities",
                        ),
                    );
                }
            }
            assert(uniform(list));
            if facts.matches.len() > 0 {
                Ok(facts.matches[0].clone())
            } else {
                Ok(entity.entity_key.clone())
            }
        },
    }
}

/// The entities of the store that the first `n` entities stand for, each once.
pub open spec fn resolved_keys(
    entities: Seq<GraphCaptureEntity>,
    facts: Seq<CaptureKeyFacts>,
    n: nat,
) -> Result<Seq<Seq<char>>, Fault>
    decreases n,
{
    if n == 0 {
        Ok(Seq::empty())
    } else {
        match resolved_keys(entities, facts, (n - 1) as nat) {
            Err(fault) => Err(fault),
            Ok(before) => match resolved_key(entities[n - 1], facts[n - 1]) {
                Err(fault) => Err(fault),
                Ok(key) => if before.contains(key) {
                    Err(
                        Fault::InvalidRequest(
                            "multiple graph entities resolve to canonical entity "@ + key,
                        ),
                    )
                } else {
                    Ok(before.push(key))
                },
            },
        }
    }
}

proof fn lemma_resolved_prefix(
    entities: Seq<GraphCaptureEntity>,
    facts: Seq<CaptureKeyFacts>,
    n: nat,
    m: nat,
)
    requires
        n <= m,
        resolved_keys(entities, facts, n) is Err,
    ensures
        resolved_keys(entities, facts, m) == resolved_keys(entities, facts, n),
    decreases m,
{
    if n < m {
        lemma_resolved_prefix(entities, facts, n, (m - 1) as nat);
    }
}

/// Finds the entities of the store that the entities of a capture stand for.
pub fn resolve_graph_capture_keys(graph: &GraphCapture, facts: &Vec<CaptureKeyFacts>) -> (r: Result<
    Vec<String>,
    Error,
>)
    requires
        facts@.len() == graph.entities@.len(),
    ensures
        match r {
            Ok(keys) => resolved_keys(graph.entities@, facts@, facts@.len()) is Ok
                && resolved_keys(graph.entities@, facts@, facts@.len())->Ok_0 == views(keys@),
            Err(e) => resolved_keys(graph.entities@, facts@, facts@.len()) is Err && resolved_keys(
                graph.entities@,
                facts@,
                facts@.len(),
            )->Err_0 == e@,
        },
{
    let mut keys: Vec<String> = Vec::new();
    assert(views(keys@) =~= Seq::empty());
    for i in 0..graph.entities.len()
        invariant
            facts@.len() == graph.entities@.len(),
            resolved_keys(graph.entities@, facts@, i as nat) is Ok,
            resolved_keys(graph.entities@, facts@, i as nat)->Ok_0 == views(keys@),
    {
        proof {
            if resolved_keys(graph.entities@, facts@, (i + 1) as nat) is Err {
                lemma_resolved_prefix(graph.entities@, facts@, (i + 1) as nat, facts@.len());
            }
        }
        let key = match resolve_key(&graph.entities[i], &facts[i]) {
            Ok(key) => key,
            Err(e) => {
                return Err(e);
            },
        };
        if list_contains(keys.as_slice(), key.as_str()) {
            return Err(
                invalid2(
                    "multiple graph entities resolve to canonical entity ",
                    key.as_str(),
                ),
            );
        }
        let ghost before = keys@;
        let ghost text = key@;
        keys.push(key);
        assert(views(keys@) =~= views(before).push(text));
    }
    Ok(keys)
}

/// No two entities of a capture stand for one entity of the store.
pub proof fn law_resolved_keys_are_distinct(
    entities: Seq<GraphCaptureEntity>,
    facts: Seq<CaptureKeyFacts>,
    n: nat,
)
    requires
        resolved_keys(entities, facts, n) is Ok,
    ensures
        resolved_keys(entities, facts, n)->Ok_0.len() == n,
        forall|i: int, j: int|
            0 <= i < j < n ==> #[trigger] resolved_keys(entities, facts, n)->Ok_0[i]
                != #[trigger] resolved_keys(entities, facts, n)->Ok_0[j],
    decreases n,
{
    if n > 0 {
        law_resolved_keys_are_distinct(entities, facts, (n - 1) as nat);
    }
}

/// The metadata of an entity that came with a memory.
pub open spec fn captured_entity_metadata(
    extractor: Seq<char>,
    version: Option<Seq<char>>,
) -> Seq<char> {
    seq!['{'] + joined(
        seq![
            json_quoted("extractor"@) + seq![':'] + json_quoted(extractor),
            json_quoted("extractor_version"@) + seq![':'] + text_json(version),
            json_quoted("origin"@) + seq![':'] + json_quoted("automatic_capture"@),
        ],
        seq![','],
    ) + seq!['}']
}

fn version_member(graph: &GraphCapture) -> (r: JsonMember)
    ensures
        crate::json::member_text(r) == text_json(text_of_string(graph.extractor_version)),
{
    match &graph.extractor_version {
        Some(version) => JsonMember::Text(version.clone()),
        None => JsonMember::Null,
    }
}

/// The members of the metadata of what came with a memory.
fn captured_members(graph: &GraphCapture) -> (r: Vec<(String, ImportJson)>)
    ensures
        forall|i: int| 0 <= i < r@.len() ==> is_plain((#[trigger] r@[i]).1),
{
    let version = match &graph.extractor_version {
        Some(text) => ImportJson::Text(text.clone()),
        None => ImportJson::Null,
    };
    let mut members: Vec<(String, ImportJson)> = Vec::new();
    members.push(("extractor".to_owned(), ImportJson::Text(graph.extractor.clone())));
    members.push(("extractor_version".to_owned(), version));
    members.push(("origin".to_owned(), ImportJson::Text("automatic_capture".to_owned())));
    members
}

/// The members of the metadata of a relationship that came with a memory.
fn captured_edge_members(graph: &GraphCapture) -> (r: Vec<(String, ImportJson)>)
    ensures
        forall|i: int| 0 <= i < r@.len() ==> is_plain((#[trigger] r@[i]).1),
{
    let mut members = captured_members(graph);
    members.push(("routing".to_owned(), ImportJson::Bool(true)));
    members.push(
        ("routing_contract".to_owned(), ImportJson::Text("evidence_join_v2".to_owned())),
    );
    members.push(("routing_contract_version".to_owned(), ImportJson::Integer(2)));
    members
}

/// Writes the metadata of an entity that came with a memory.
pub fn captured_entity_metadata_json(graph: &GraphCapture) -> (r: String)
    ensures
        r@ == captured_entity_metadata(
            graph.extractor@,
            text_of_string(graph.extractor_version),
        ),
{
    let mut members: Vec<(String, JsonMember)> = Vec::new();
    members.push(("extractor".to_owned(), JsonMember::Text(graph.extractor.clone())));
    members.push(("extractor_version".to_owned(), version_member(graph)));
    members.push(("origin".to_owned(), JsonMember::Text("automatic_capture".to_owned())));
    proof {
        reveal_strlit("extractor");
        reveal_strlit("extractor_version");
        reveal_strlit("origin");
        let names = member_names(members@);
        assert(names.len() == 3);
        lemma_less_at(names[0], names[1], 9);
        lemma_less_at(names[0], names[2], 0);
        lemma_less_at(names[1], names[2], 0);
        assert(member_texts(members@) =~= seq![
            json_quoted("extractor"@) + seq![':'] + json_quoted(graph.extractor@),
            json_quoted("extractor_version"@) + seq![':'] + text_json(
                text_of_string(graph.extractor_version),
            ),
            json_quoted("origin"@) + seq![':'] + json_quoted("automatic_capture"@),
        ]);
    }
    json_object(members)
}

/// The metadata of a relationship that came with a memory.
pub open spec fn captured_edge_metadata(
    extractor: Seq<char>,
    version: Option<Seq<char>>,
) -> Seq<char> {
    seq!['{'] + joined(
        seq![
            json_quoted("extractor"@) + seq![':'] + json_quoted(extractor),
            json_quoted("extractor_version"@) + seq![':'] + text_json(version),
            json_quoted("origin"@) + seq![':'] + json_quoted("automatic_capture"@),
            json_quoted("routing"@) + seq![':'] + "true"@,
            json_quoted("routing_contract"@) + seq![':'] + json_quoted("evidence_join_v2"@),
            json_quoted("routing_contract_version"@) + seq![':'] + decimal(2),
        ],
        seq![','],
    ) + seq!['}']
}

/// Writes the metadata of a relationship that came with a memory.
pub fn captured_edge_metadata_json(graph: &GraphCapture) -> (r: String)
    ensures
        r@ == captured_edge_metadata(graph.extractor@, text_of_string(graph.extractor_version)),
{
    let mut members: Vec<(String, JsonMember)> = Vec::new();
    members.push(("extractor".to_owned(), JsonMember::Text(graph.extractor.clone())));
    members.push(("extractor_version".to_owned(), version_member(graph)));
    members.push(("origin".to_owned(), JsonMember::Text("automatic_capture".to_owned())));
    members.push(("routing".to_owned(), JsonMember::Bool(true)));
    members.push(("routing_contract".to_owned(), JsonMember::Text("evidence_join_v2".to_owned())));
    members.push(("routing_contract_version".to_owned(), JsonMember::Number(2)));
    proof {
        reveal_strlit("extractor");
        reveal_strlit("extractor_version");
        reveal_strlit("origin");
        reveal_strlit("routing");
        reveal_strlit("routing_contract");
        reveal_strlit("routing_contract_version");
        let names = member_names(members@);
        assert(names.len() == 6);
        assert forall|i: int, j: int| 0 <= i < j < names.len() implies text_less(
            #[trigger] names[i],
            #[trigger] names[j],
        ) by {
            if i == 0 && j == 1 {
                lemma_less_at(names[i], names[j], 9);
            } else if i == 3 {
                lemma_less_at(names[i], names[j], 7);
            } else if i == 4 {
                lemma_less_at(names[i], names[j], 16);
            } else {
                lemma_less_at(names[i], names[j], 0);
            }
        }
        assert(member_texts(members@) =~= seq![
            json_quoted("extractor"@) + seq![':'] + json_quoted(graph.extractor@),
            json_quoted("extractor_version"@) + seq![':'] + text_json(
                text_of_string(graph.extractor_version),
            ),
            json_quoted("origin"@) + seq![':'] + json_quoted("automatic_capture"@),
            json_quoted("routing"@) + seq![':'] + "true"@,
            json_quoted("routing_contract"@) + seq![':'] + json_quoted("evidence_join_v2"@),
            json_quoted("routing_contract_version"@) + seq![':'] + decimal(2),
        ]);
    }
    json_object(members)
}

/// What the store holds of an entity.
pub struct ExistingEntity {
    /// Type.
    pub entity_type: Option<String>,
    /// Name.
    pub canonical_name: String,
}

/// Whether a request writes an entity that came with a memory.
pub open spec fn writes_captured_entity(
    graph: GraphCapture,
    i: int,
    key: Seq<char>,
    existing: Option<ExistingEntity>,
    space: Seq<char>,
    confidence: Score,
    source_episode_id: Option<Seq<char>>,
    r: EntityUpsertRequest,
) -> bool {
    let entity = graph.entities@[i];
    &&& text_of_string(r.space) == Some(space)
    &&& r.entity_key@ == key
    &&& match existing {
        Some(old) => {
            &&& text_of_string(r.entity_type) == match old.entity_type {
                Some(found) => Some(found@),
                None => Some(entity.entity_type@),
            }
            &&& r.canonical_name@ == old.canonical_name@
            &&& views(r.aliases@) == views(entity.aliases@).push(entity.canonical_name@)
        },
        None => {
            &&& text_of_string(r.entity_type) == Some(entity.entity_type@)
            &&& r.canonical_name@ == entity.canonical_name@
            &&& views(r.aliases@) == views(entity.aliases@)
        },
    }
    &&& text_of_string(r.status) == Some(STATUS_ACTIVE@)
    &&& r.confidence == confidence
    &&& text_of_string(r.source_episode_id) == source_episode_id
    &&& r.metadata_json matches Some(document) && document.holds_object() && document.text@
        == captured_entity_metadata(graph.extractor@, text_of_string(graph.extractor_version))
    &&& !r.include_source
}

/// The request that writes an entity that came with a memory: an entity of the
/// store keeps its name and its type, and the name in the capture becomes an
/// alias of it.
pub fn capture_entity_request(
    graph: &GraphCapture,
    i: usize,
    key: &str,
    existing: &Option<ExistingEntity>,
    space: &str,
    remember: &RememberRequest,
) -> (r: EntityUpsertRequest)
    requires
        i < graph.entities@.len(),
    ensures
        writes_captured_entity(
            *graph,
            i as int,
            key@,
            *existing,
            space@,
            remember.confidence,
            text_of_string(remember.source_episode_id),
            r,
        ),
{
    let entity = &graph.entities[i];
    let mut aliases = clone_texts(&entity.aliases);
    let ghost before = aliases@;
    let mut entity_type = Some(entity.entity_type.clone());
    let mut canonical_name = entity.canonical_name.clone();
    if let Some(old_entity) = existing {
        aliases.push(entity.canonical_name.clone());
        assert(views(aliases@) =~= views(before).push(entity.canonical_name@));
        canonical_name = old_entity.canonical_name.clone();
        if let Some(found) = &old_entity.entity_type {
            entity_type = Some(found.clone());
        }
    }
    EntityUpsertRequest {
        space: Some(space.to_owned()),
        entity_key: key.to_owned(),
        entity_type,
        canonical_name,
        aliases,
        status: Some(STATUS_ACTIVE.to_owned()),
        confidence: remember.confidence,
        source_episode_id: clone_text(&remember.source_episode_id),
        metadata_json: Some(
            JsonDocument {
                text: captured_entity_metadata_json(graph),
                parsed: Some(plain_object(captured_members(graph))),
            },
        ),
        include_source: false,
    }
}

/// The place of the entity with a key as it is written.
pub open spec fn place_of(entities: Seq<GraphCaptureEntity>, key: Seq<char>) -> Option<int>
    decreases entities.len(),
{
    if entities.len() == 0 {
        None
    } else {
        match place_of(entities.drop_last(), key) {
            Some(i) => Some(i),
            None => if entities.last().entity_key@ == key {
                Some(entities.len() - 1)
            } else {
                None
            },
        }
    }
}

fn find_place(entities: &Vec<GraphCaptureEntity>, key: &str) -> (r: Option<usize>)
    ensures
        match r {
            Some(i) => place_of(entities@, key@) == Some(i as int) && i < entities@.len(),
            None => place_of(entities@, key@) is None,
        },
{
    let ghost all = entities@;
    let mut found: Option<usize> = None;
    for i in 0..entities.len()
        invariant
            all == entities@,
            match found {
                Some(k) => place_of(all.take(i as int), key@) == Some(k as int) && k < i,
                None => place_of(all.take(i as int), key@) is None,
            },
    {
        assert(all.take(i + 1).drop_last() =~= all.take(i as int));
        assert(all.take(i + 1).last() == all[i as int]);
        if found.is_none() && text_eq(entities[i].entity_key.as_str(), key) {
            found = Some(i);
        }
    }
    assert(all.take(entities@.len() as int) =~= all);
    found
}

/// Whether a request writes a relationship that came with a memory.
pub open spec fn writes_captured_edge(
    graph: GraphCapture,
    i: int,
    subject: Seq<char>,
    object: Seq<char>,
    space: Seq<char>,
    memory_id: Seq<char>,
    remember: RememberRequest,
    r: RelationshipUpsertRequest,
) -> bool {
    let edge = graph.relationships@[i];
    &&& text_of_string(r.space) == Some(space)
    &&& r.subject_entity_id is None
    &&& text_of_string(r.subject_entity_key) == Some(subject)
    &&& r.relation_type@ == edge.relation_type@
    &&& r.object_entity_id is None
    &&& text_of_string(r.object_entity_key) == Some(object)
    &&& text_of_string(r.memory_id) == Some(memory_id)
    &&& text_of_string(r.source_episode_id) == text_of_string(remember.source_episode_id)
    &&& text_of_string(r.status) == Some(STATUS_ACTIVE@)
    &&& r.confidence == edge.confidence
    &&& text_of_string(r.observed_at) == text_of_string(remember.observed_at)
    &&& text_of_string(r.valid_from) == text_of_string(remember.valid_from)
    &&& text_of_string(r.valid_to) == text_of_string(remember.valid_to)
    &&& r.metadata_json matches Some(document) && document.holds_object() && document.text@
        == captured_edge_metadata(graph.extractor@, text_of_string(graph.extractor_version))
    &&& !r.include_source
}

/// Whether the ends of every relationship are written as the keys of entities are.
pub open spec fn ends_written(graph: GraphCapture, i: int) -> bool {
    let edge = graph.relationships@[i];
    &&& place_of(graph.entities@, edge.subject_entity_key@) is Some
    &&& place_of(graph.entities@, edge.object_entity_key@) is Some
}

/// Tests [`ends_written`].
pub fn are_ends_written(graph: &GraphCapture, i: usize) -> (r: bool)
    requires
        i < graph.relationships@.len(),
    ensures
        r == ends_written(*graph, i as int),
{
    let edge = &graph.relationships[i];
    find_place(&graph.entities, edge.subject_entity_key.as_str()).is_some() && find_place(
        &graph.entities,
        edge.object_entity_key.as_str(),
    ).is_some()
}

/// The request that writes a relationship that came with a memory, between the
/// entities of the store that its ends stand for.
pub fn capture_relationship_request(
    graph: &GraphCapture,
    i: usize,
    keys: &Vec<String>,
    space: &str,
    memory_id: &str,
    remember: &RememberRequest,
) -> (r: Result<RelationshipUpsertRequest, Error>)
    requires
        i < graph.relationships@.len(),
        keys@.len() == graph.entities@.len(),
        ends_written(*graph, i as int),
    ensures
        ({
            let edge = graph.relationships@[i as int];
            let subject = keys@[place_of(graph.entities@, edge.subject_entity_key@)->0]@;
            let object = keys@[place_of(graph.entities@, edge.object_entity_key@)->0]@;
            match r {
                Ok(request) => subject != object && writes_captured_edge(
                    *graph,
                    i as int,
                    subject,
                    object,
                    space@,
                    memory_id@,
                    *remember,
                    request,
                ),
                Err(e) => subject == object && e@ == Fault::InvalidRequest(
                    "graph relationship endpoints resolve to the same canonical entity"@,
                ),
            }
        }),
{
    let edge = &graph.relationships[i];
    let subject_at = find_place(&graph.entities, edge.subject_entity_key.as_str());
    let object_at = find_place(&graph.entities, edge.object_entity_key.as_str());
    let subject = match subject_at {
        Some(at) => keys[at].as_str(),
        None => "",
    };
    let object = match object_at {
        Some(at) => keys[at].as_str(),
        None => "",
    };
    if text_eq(subject, object) {
        return Err(
            invalid("graph relationship endpoints resolve to the same canonical entity"),
        );
    }
    Ok(
        RelationshipUpsertRequest {
            space: Some(space.to_owned()),
            subject_entity_id: None,
            subject_entity_key: Some(subject.to_owned()),
            relation_type: edge.relation_type.clone(),
            object_entity_id: None,
            object_entity_key: Some(object.to_owned()),
            memory_id: Some(memory_id.to_owned()),
            source_episode_id: clone_text(&remember.source_episode_id),
            status: Some(STATUS_ACTIVE.to_owned()),
            confidence: edge.confidence,
            observed_at: clone_text(&remember.observed_at),
            valid_from: clone_text(&remember.valid_from),
            valid_to: clone_text(&remember.valid_to),
            metadata_json: Some(
                JsonDocument {
                    text: captured_edge_metadata_json(graph),
                    parsed: Some(plain_object(captured_edge_members(graph))),
                },
            ),
            include_source: false,
        },
    )
}

/// What was written of what came with a memory.
pub struct GraphCaptureStatus {
    /// The contract that its relationships are routed by.
    pub routing_contract: &'static str,
    /// How many entities.
    pub entities: usize,
    /// How many relationships.
    pub relationships: usize,
}

/// Whether a status tells what was written.
pub open spec fn tells_capture(graph: Option<GraphCapture>, r: Option<GraphCaptureStatus>) -> bool {
    match (graph, r) {
        (Some(g), Some(status)) => {
            &&& status.routing_contract@ == "evidence_join_v2"@
            &&& status.entities == g.entities@.len()
            &&& status.relationships == g.relationships@.len()
        },
        (None, None) => true,
        _ => false,
    }
}

/// Tells what was written of what came with a memory.
pub fn graph_capture_status(graph: &Option<GraphCapture>) -> (r: Option<GraphCaptureStatus>)
    ensures
        tells_capture(*graph, r),
{
    match graph {
        Some(g) => Some(
            GraphCaptureStatus {
                routing_contract: "evidence_join_v2",
                entities: g.entities.len(),
                relationships: g.relationships.len(),
            },
        ),
        None => None,
    }
}

} // verus!
