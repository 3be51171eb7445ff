//! Requests to write relationships, and merging one entity into another.

use vstd::prelude::*;

use crate::entities::{
    core_of, graph_metadata_fault, graph_value_fault, normalize_optional_graph_value,
    normalize_optional_json_object, normalize_required_graph_value, or_kept, or_kept_text,
};
use crate::error::{invalid, invalid2, not_found, verdict, Error, Fault};
use crate::json::{as_text, text_of, text_of_string};
use crate::pool::clone_text;
use crate::ranking::{in_unit_range, is_in_unit_range, Score};
use crate::remember::{document_of, JsonDocument};
use crate::spaces::{normalize_space_name, space_name_fault};
use crate::text::trimmed;
use crate::validate::{first_of, refused_if, timestamp_fault, validate_optional_timestamp};
use crate::vocabulary::{
    is_supported_relationship_status, supported_relationship_status, DEFAULT_SPACE, STATUS_ACTIVE,
};
use crate::writing::{text_or, text_or_default};

verus! {

/// Request to create or update a relationship.
pub struct RelationshipUpsertRequest {
    /// Space.
    pub space: Option<String>,
    /// Subject by id.
    pub subject_entity_id: Option<String>,
    /// Subject by key.
    pub subject_entity_key: Option<String>,
    /// Type.
    pub relation_type: String,
    /// Object by id.
    pub object_entity_id: Option<String>,
    /// Object by key.
    pub object_entity_key: Option<String>,
    /// Memory that supports it.
    pub memory_id: Option<String>,
    /// Source episode.
    pub source_episode_id: Option<String>,
    /// Status.
    pub status: Option<String>,
    /// Confidence.
    pub confidence: Score,
    /// Observation time.
    pub observed_at: Option<String>,
    /// Start of validity.
    pub valid_from: Option<String>,
    /// End of validity.
    pub valid_to: Option<String>,
    /// Metadata.
    pub metadata_json: Option<JsonDocument>,
    /// Whether the source comes back.
    pub include_source: bool,
}

/// A request that was checked.
pub struct PreparedRelationshipUpsertRequest {
    /// Space.
    pub space: String,
    /// Subject by id.
    pub subject_entity_id: Option<String>,
    /// Subject by key.
    pub subject_entity_key: Option<String>,
    /// Type.
    pub relation_type: String,
    /// Object by id.
    pub object_entity_id: Option<String>,
    /// Object by key.
    pub object_entity_key: Option<String>,
    /// Memory that supports it.
    pub memory_id: Option<String>,
    /// Source episode.
    pub source_episode_id: Option<String>,
    /// Status.
    pub status: String,
    /// Confidence.
    pub confidence: Score,
    /// Observation time.
    pub observed_at: Option<String>,
    /// Start of validity.
    pub valid_from: Option<String>,
    /// End of validity.
    pub valid_to: Option<String>,
    /// Metadata.
    pub metadata_json: Option<String>,
    /// Whether the source comes back.
    pub include_source: bool,
}

/// The fault of an entity that is named twice or not at all.
pub open spec fn endpoint_fault(
    left_name: Seq<char>,
    left: Option<Seq<char>>,
    right_name: Seq<char>,
    right: Option<Seq<char>>,
) -> Option<Fault> {
    refused_if(
        left is Some == right is Some,
        "exactly one of "@ + left_name + " or "@ + right_name + " is required"@,
    )
}

/// Checks that an entity is named in exactly one way.
pub fn validate_exactly_one_endpoint(
    left_name: &str,
    left: &Option<String>,
    right_name: &str,
    right: &Option<String>,
) -> (r: Result<(), Error>)
    ensures
        verdict(r) == endpoint_fault(
            left_name@,
            text_of_string(*left),
            right_name@,
            text_of_string(*right),
        ),
{
    if left.is_some() == right.is_some() {
        let mut message = crate::error::concat4("exactly one of ", left_name, " or ", right_name);
        message.append(" is required");
        Err(invalid(message.as_str()))
    } else {
        Ok(())
    }
}

/// The fault of an entity that is named by id or key.
pub open spec fn named_entity_fault(
    id_name: Seq<char>,
    id: Option<Seq<char>>,
    key_name: Seq<char>,
    key: Option<Seq<char>>,
) -> Option<Fault> {
    first_of(
        graph_value_fault(id_name, id),
        first_of(
            graph_value_fault(key_name, key),
            endpoint_fault(id_name, core_of(id), key_name, core_of(key)),
        ),
    )
}

/// Reads an entity that is named by id or key.
pub fn normalize_named_entity(
    id_name: &str,
    id: Option<&str>,
    key_name: &str,
    key: Option<&str>,
) -> (r: Result<(Option<String>, Option<String>), Error>)
    ensures
        match r {
            Ok((a, b)) => {
                &&& named_entity_fault(id_name@, text_of(id), key_name@, text_of(key)) is None
                &&& text_of_string(a) == core_of(text_of(id))
                &&& text_of_string(b) == core_of(text_of(key))
            },
            Err(e) => named_entity_fault(id_name@, text_of(id), key_name@, text_of(key)) == Some(
                e@,
            ),
        },
{
    let a = match normalize_optional_graph_value(id_name, id) {
        Ok(value) => value,
        Err(e) => {
            return Err(e);
        },
    };
    let b = match normalize_optional_graph_value(key_name, key) {
        Ok(value) => value,
        Err(e) => {
            return Err(e);
        },
    };
    if let Err(e) = validate_exactly_one_endpoint(id_name, &a, key_name, &b) {
        return Err(e);
    }
    Ok((a, b))
}

/// The fault of the ends of a relationship.
pub open spec fn ends_fault(request: RelationshipUpsertRequest) -> Option<Fault> {
    first_of(
        named_entity_fault(
            "subject_entity_id"@,
            text_of_string(request.subject_entity_id),
            "subject_entity_key"@,
            text_of_string(request.subject_entity_key),
        ),
        named_entity_fault(
            "object_entity_id"@,
            text_of_string(request.object_entity_id),
            "object_entity_key"@,
            text_of_string(request.object_entity_key),
        ),
    )
}

/// The fault of the values of a relationship.
pub open spec fn relation_values_fault(request: RelationshipUpsertRequest) -> Option<Fault> {
    let status = text_or(core_of(text_of_string(request.status)), STATUS_ACTIVE@);
    first_of(
        graph_value_fault("relation_type"@, Some(request.relation_type@)),
        first_of(
            graph_value_fault("memory_id"@, text_of_string(request.memory_id)),
            first_of(
                graph_value_fault("source_episode_id"@, text_of_string(request.source_episode_id)),
                first_of(
                    graph_value_fault("status"@, text_of_string(request.status)),
                    first_of(
                        refused_if(
                            !supported_relationship_status(status),
                            "unsupported relationship status: "@ + status,
                        ),
                        refused_if(
                            !in_unit_range(request.confidence),
                            "confidence must be between 0.0 and 1.0"@,
                        ),
                    ),
                ),
            ),
        ),
    )
}

/// The fault of the times and metadata of a relationship.
pub open spec fn relation_times_fault(request: RelationshipUpsertRequest) -> Option<Fault> {
    first_of(
        timestamp_fault("observed_at"@, text_of_string(request.observed_at)),
        first_of(
            timestamp_fault("valid_from"@, text_of_string(request.valid_from)),
            first_of(
                timestamp_fault("valid_to"@, text_of_string(request.valid_to)),
                graph_metadata_fault(request.metadata_json),
            ),
        ),
    )
}

/// The fault of a request to write a relationship.
pub open spec fn relationship_request_fault(request: RelationshipUpsertRequest) -> Option<Fault> {
    first_of(
        space_name_fault(text_of_string(request.space)),
        first_of(
            ends_fault(request),
            first_of(relation_values_fault(request), relation_times_fault(request)),
        ),
    )
}

/// Whether a prepared request is what a request asks for.
pub open spec fn prepares_relationship(
    request: RelationshipUpsertRequest,
    r: PreparedRelationshipUpsertRequest,
) -> bool {
    &&& r.space@ == text_or(text_of_string(request.space), DEFAULT_SPACE@)
    &&& text_of_string(r.subject_entity_id) == core_of(text_of_string(request.subject_entity_id))
    &&& text_of_string(r.subject_entity_key) == core_of(
        text_of_string(request.subject_entity_key),
    )
    &&& r.relation_type@ == trimmed(request.relation_type@)
    &&& text_of_string(r.object_entity_id) == core_of(text_of_string(request.object_entity_id))
    &&& text_of_string(r.object_entity_key) == core_of(text_of_string(request.object_entity_key))
    &&& text_of_string(r.memory_id) == core_of(text_of_string(request.memory_id))
    &&& text_of_string(r.source_episode_id) == core_of(text_of_string(request.source_episode_id))
    &&& r.status@ == text_or(core_of(text_of_string(request.status)), STATUS_ACTIVE@)
    &&& r.confidence == request.confidence
    &&& text_of_string(r.observed_at) == text_of_string(request.observed_at)
    &&& text_of_string(r.valid_from) == text_of_string(request.valid_from)
    &&& text_of_string(r.valid_to) == text_of_string(request.valid_to)
    &&& text_of_string(r.metadata_json) == document_of(request.metadata_json)
    &&& r.include_source == request.include_source
}

/// The values of a relationship in normal form.
struct RelationValues {
    relation_type: String,
    memory_id: Option<String>,
    source_episode_id: Option<String>,
    status: String,
}

fn read_relation_values(request: &RelationshipUpsertRequest) -> (r: Result<RelationValues, Error>)
    ensures
        match r {
            Ok(v) => {
                &&& relation_values_fault(*request) is None
                &&& v.relation_type@ == trimmed(request.relation_type@)
                &&& text_of_string(v.memory_id) == core_of(text_of_string(request.memory_id))
                &&& text_of_string(v.source_episode_id) == core_of(
                    text_of_string(request.source_episode_id),
                )
                &&& v.status@ == text_or(core_of(text_of_string(request.status)), STATUS_ACTIVE@)
            },
            Err(e) => relation_values_fault(*request) == Some(e@),
        },
{
    let relation_type = match normalize_required_graph_value(
        "relation_type",
        request.relation_type.as_str(),
    ) {
        Ok(value) => value,
        Err(e) => {
            return Err(e);
        },
    };
    let memory_id = match normalize_optional_graph_value("memory_id", as_text(&request.memory_id)) {
        Ok(value) => value,
        Err(e) => {
            return Err(e);
        },
    };
    let source_episode_id = match normalize_optional_graph_value(
        "source_episode_id",
        as_text(&request.source_episode_id),
    ) {
        Ok(value) => value,
        Err(e) => {
            return Err(e);
        },
    };
    let status = match normalize_optional_graph_value("status", as_text(&request.status)) {
        Ok(value) => text_or_default(&value, STATUS_ACTIVE),
        Err(e) => {
            return Err(e);
        },
    };
    if !is_supported_relationship_status(status.as_str()) {
        return Err(invalid2("unsupported relationship status: ", status.as_str()));
    }
    if !is_in_unit_range(request.confidence) {
        return Err(invalid("confidence must be between 0.0 and 1.0"));
    }
    Ok(RelationValues { relation_type, memory_id, source_episode_id, status })
}

fn check_relation_times(request: &RelationshipUpsertRequest) -> (r: Result<Option<String>, Error>)
    ensures
        match r {
            Ok(metadata) => relation_times_fault(*request) is None && text_of_string(metadata)
                == document_of(request.metadata_json),
            Err(e) => relation_times_fault(*request) == Some(e@),
        },
{
    if let Err(e) = validate_optional_timestamp("observed_at", as_text(&request.observed_at)) {
        return Err(e);
    }
    if let Err(e) = validate_optional_timestamp("valid_from", as_text(&request.valid_from)) {
        return Err(e);
    }
    if let Err(e) = validate_optional_timestamp("valid_to", as_text(&request.valid_to)) {
        return Err(e);
    }
    normalize_optional_json_object(&request.metadata_json)
}

/// Checks a request to write a relationship.
pub fn prepare_relationship_upsert_request(request: &RelationshipUpsertRequest) -> (r: Result<
    PreparedRelationshipUpsertRequest,
    Error,
>)
    ensures
        match r {
            Ok(prepared) => relationship_request_fault(*request) is None && prepares_relationship(
                *request,
                prepared,
            ),
            Err(e) => relationship_request_fault(*request) == Some(e@),
        },
{
    let space = match normalize_space_name(as_text(&request.space)) {
        Ok(space) => space,
        Err(e) => {
            return Err(e);
        },
    };
    let subject = match normalize_named_entity(
        "subject_entity_id",
        as_text(&request.subject_entity_id),
        "subject_entity_key",
        as_text(&request.subject_entity_key),
    ) {
        Ok(pair) => pair,
        Err(e) => {
            return Err(e);
        },
    };
    let object = match normalize_named_entity(
        "object_entity_id",
        as_text(&request.object_entity_id),
        "object_entity_key",
        as_text(&request.object_entity_key),
    ) {
        Ok(pair) => pair,
        Err(e) => {
            return Err(e);
        },
    };
    let values = match read_relation_values(request) {
        Ok(values) => values,
        Err(e) => {
            return Err(e);
        },
    };
    let metadata_json = match check_relation_times(request) {
        Ok(metadata) => metadata,
        Err(e) => {
            return Err(e);
        },
    };
    Ok(
        PreparedRelationshipUpsertRequest {
            space: text_or_default(&space, DEFAULT_SPACE),
            subject_entity_id: subject.0,
            subject_entity_key: subject.1,
            relation_type: values.relation_type,
            object_entity_id: object.0,
            object_entity_key: object.1,
            memory_id: values.memory_id,
            source_episode_id: values.source_episode_id,
            status: values.status,
            confidence: request.confidence,
            observed_at: clone_text(&request.observed_at),
            valid_from: clone_text(&request.valid_from),
            valid_to: clone_text(&request.valid_to),
            metadata_json,
            include_source: request.include_source,
        },
    )
}

/// What the store knows of a relationship that is written.
pub struct RelationshipFacts {
    /// Whether the space exists.
    pub space_exists: bool,
    /// The subject.
    pub subject: Option<String>,
    /// The object.
    pub object: Option<String>,
    /// Whether the memory is in the space.
    pub memory_exists: bool,
    /// Whether the source episode is in the space.
    pub source_episode_exists: bool,
    /// The relationship with the same ends, type, memory and source.
    pub existing_id: Option<String>,
    /// Its observation time.
    pub existing_observed_at: Option<String>,
    /// The start of its validity.
    pub existing_valid_from: Option<String>,
    /// The end of its validity.
    pub existing_valid_to: Option<String>,
    /// Its metadata.
    pub existing_metadata: Option<String>,
    /// An id for a new relationship.
    pub new_id: String,
}

/// What is written for a relationship.
pub struct RelationshipUpsertPlan {
    /// Id of the relationship.
    pub relationship_id: String,
    /// Whether it is new.
    pub created: bool,
    /// Id of the subject.
    pub subject_entity_id: String,
    /// Id of the object.
    pub object_entity_id: String,
    /// Observation time; like the next three it stays as it is where none is given.
    pub observed_at: Option<String>,
    /// Start of validity.
    pub valid_from: Option<String>,
    /// End of validity.
    pub valid_to: Option<String>,
    /// Metadata.
    pub metadata_json: Option<String>,
}

/// How an entity was named.
pub open spec fn named(id: Option<Seq<char>>, key: Option<Seq<char>>) -> Seq<char> {
    match id {
        Some(text) => text,
        None => match key {
            Some(text) => text,
            None => Seq::empty(),
        },
    }
}

/// Resolves the end of a relationship, or says how it was named.
pub fn resolve_relationship_endpoint(
    found: &Option<String>,
    entity_id: Option<&str>,
    entity_key: Option<&str>,
    label: &'static str,
) -> (r: Result<String, Error>)
    ensures
        match r {
            Ok(id) => text_of_string(*found) == Some(id@),
            Err(e) => found is None && e@ == Fault::NotFound(
                label@,
                named(text_of(entity_id), text_of(entity_key)),
            ),
        },
{
    match found {
        Some(id) => Ok(id.clone()),
        None => {
            let name = match entity_id {
                Some(text) => text,
                None => match entity_key {
                    Some(text) => text,
                    None => "",
                },
            };
            proof {
                reveal_strlit("");
                assert(""@ =~= Seq::empty());
            }
            Err(not_found(label, name))
        },
    }
}

/// The fault of a relationship against what the store knows.
pub open spec fn relationship_facts_fault(
    p: PreparedRelationshipUpsertRequest,
    facts: RelationshipFacts,
) -> Option<Fault> {
    if !facts.space_exists {
        Some(Fault::NotFound("space"@, p.space@))
    } else if facts.subject is None {
        Some(
            Fault::NotFound(
                "subject_entity"@,
                named(text_of_string(p.subject_entity_id), text_of_string(p.subject_entity_key)),
            ),
        )
    } else if facts.object is None {
        Some(
            Fault::NotFound(
                "object_entity"@,
                named(text_of_string(p.object_entity_id), text_of_string(p.object_entity_key)),
            ),
        )
    } else if p.memory_id is Some && !facts.memory_exists {
        Some(Fault::NotFound("memory"@, p.memory_id->0@))
    } else if p.source_episode_id is Some && !facts.source_episode_exists {
        Some(Fault::NotFound("source_episode"@, p.source_episode_id->0@))
    } else {
        None
    }
}

/// Whether a plan writes a relationship.
pub open spec fn plans_relationship(
    p: PreparedRelationshipUpsertRequest,
    facts: RelationshipFacts,
    plan: RelationshipUpsertPlan,
) -> bool {
    &&& plan.created == facts.existing_id is None
    &&& plan.relationship_id@ == text_or(text_of_string(facts.existing_id), facts.new_id@)
    &&& text_of_string(facts.subject) == Some(plan.subject_entity_id@)
    &&& text_of_string(facts.object) == Some(plan.object_entity_id@)
    &&& text_of_string(plan.observed_at) == or_kept(
        text_of_string(p.observed_at),
        text_of_string(facts.existing_observed_at),
    )
    &&& text_of_string(plan.valid_from) == or_kept(
        text_of_string(p.valid_from),
        text_of_string(facts.existing_valid_from),
    )
    &&& text_of_string(plan.valid_to) == or_kept(
        text_of_string(p.valid_to),
        text_of_string(facts.existing_valid_to),
    )
    &&& text_of_string(plan.metadata_json) == or_kept(
        text_of_string(p.metadata_json),
        text_of_string(facts.existing_metadata),
    )
}

/// Decides what is written for a relationship that was checked. A relationship
/// with the same ends, type, memory and source is updated.
pub fn upsert_relationship_tx(
    prepared: &PreparedRelationshipUpsertRequest,
    facts: &RelationshipFacts,
) -> (r: Result<RelationshipUpsertPlan, Error>)
    ensures
        match r {
            Ok(plan) => relationship_facts_fault(*prepared, *facts) is None && plans_relationship(
                *prepared,
                *facts,
                plan,
            ),
            Err(e) => relationship_facts_fault(*prepared, *facts) == Some(e@),
        },
{
    if !facts.space_exists {
        return Err(not_found("space", prepared.space.as_str()));
    }
    let subject_entity_id = match resolve_relationship_endpoint(
        &facts.subject,
        as_text(&prepared.subject_entity_id),
        as_text(&prepared.subject_entity_key),
        "subject_entity",
    ) {
        Ok(id) => id,
        Err(e) => {
            return Err(e);
        },
    };
    let object_entity_id = match resolve_relationship_endpoint(
        &facts.object,
        as_text(&prepared.object_entity_id),
        as_text(&prepared.object_entity_key),
        "object_entity",
    ) {
        Ok(id) => id,
        Err(e) => {
            return Err(e);
        },
    };
    if let Some(id) = &prepared.memory_id {
        if !facts.memory_exists {
            return Err(not_found("memory", id.as_str()));
        }
    }
    if let Some(id) = &prepared.source_episode_id {
        if !facts.source_episode_exists {
            return Err(not_found("source_episode", id.as_str()));
        }
    }
    Ok(
        RelationshipUpsertPlan {
            relationship_id: text_or_default(&facts.existing_id, facts.new_id.as_str()),
            created: facts.existing_id.is_none(),
            subject_entity_id,
            object_entity_id,
            observed_at: or_kept_text(&prepared.observed_at, &facts.existing_observed_at),
            valid_from: or_kept_text(&prepared.valid_from, &facts.existing_valid_from),
            valid_to: or_kept_text(&prepared.valid_to, &facts.existing_valid_to),
            metadata_json: or_kept_text(&prepared.metadata_json, &facts.existing_metadata),
        },
    )
}

/// Whether what is known refuses a request to write a relationship, once it is
/// checked, with an error.
pub open spec fn prepared_relationship_fault(
    request: RelationshipUpsertRequest,
    facts: RelationshipFacts,
    e: Fault,
) -> bool {
    exists|prepared: PreparedRelationshipUpsertRequest| #[trigger]
        prepares_relationship(request, prepared) && relationship_facts_fault(prepared, facts)
            == Some(e)
}

/// Checks a request to write a relationship, and decides what is written.
pub fn upsert_relationship(request: &RelationshipUpsertRequest, facts: &RelationshipFacts) -> (r:
    Result<(PreparedRelationshipUpsertRequest, RelationshipUpsertPlan), Error>)
    ensures
        match r {
            Ok((prepared, plan)) => {
                &&& relationship_request_fault(*request) is None
                &&& prepares_relationship(*request, prepared)
                &&& relationship_facts_fault(prepared, *facts) is None
                &&& plans_relationship(prepared, *facts, plan)
            },
            Err(e) => {
                ||| relationship_request_fault(*request) == Some(e@)
                ||| relationship_request_fault(*request) is None && prepared_relationship_fault(
                    *request,
                    *facts,
                    e@,
                )
            },
        },
{
    let prepared = match prepare_relationship_upsert_request(request) {
        Ok(prepared) => prepared,
        Err(e) => {
            return Err(e);
        },
    };
    assert(prepares_relationship(*request, prepared));
    match upsert_relationship_tx(&prepared, facts) {
        Ok(plan) => Ok((prepared, plan)),
        Err(e) => Err(e),
    }
}

/// What tells a relationship from others.
pub struct RelationshipPlace {
    /// Space.
    pub space: Seq<char>,
    /// Id of the subject.
    pub subject: Seq<char>,
    /// Type.
    pub relation_type: Seq<char>,
    /// Id of the object.
    pub object: Seq<char>,
    /// Memory that supports it.
    pub memory_id: Option<Seq<char>>,
    /// Source episode.
    pub source_episode_id: Option<Seq<char>>,
}

/// What the store holds of a relationship beyond what tells it from others.
pub struct StoredRelationship {
    /// Id.
    pub id: Seq<char>,
    /// Status.
    pub status: Seq<char>,
    /// Confidence.
    pub confidence: Score,
    /// Observation time.
    pub observed_at: Option<Seq<char>>,
    /// Start of validity.
    pub valid_from: Option<Seq<char>>,
    /// End of validity.
    pub valid_to: Option<Seq<char>>,
    /// Metadata.
    pub metadata_json: Option<Seq<char>>,
}

/// The place of a relationship with given ends.
pub open spec fn place_of(
    p: PreparedRelationshipUpsertRequest,
    subject: Seq<char>,
    object: Seq<char>,
) -> RelationshipPlace {
    RelationshipPlace {
        space: p.space@,
        subject,
        relation_type: p.relation_type@,
        object,
        memory_id: text_of_string(p.memory_id),
        source_episode_id: text_of_string(p.source_episode_id),
    }
}

/// The relationships of a store after one was written.
pub open spec fn relationships_after(
    stored: Map<RelationshipPlace, StoredRelationship>,
    p: PreparedRelationshipUpsertRequest,
    plan: RelationshipUpsertPlan,
) -> Map<RelationshipPlace, StoredRelationship> {
    stored.insert(
        place_of(p, plan.subject_entity_id@, plan.object_entity_id@),
        StoredRelationship {
            id: plan.relationship_id@,
            status: p.status@,
            confidence: p.confidence,
            observed_at: text_of_string(plan.observed_at),
            valid_from: text_of_string(plan.valid_from),
            valid_to: text_of_string(plan.valid_to),
            metadata_json: text_of_string(plan.metadata_json),
        },
    )
}

/// Whether facts of a relationship, both of whose ends are known, are read from the
/// relationships of a store.
pub open spec fn reads_relationships(
    facts: RelationshipFacts,
    p: PreparedRelationshipUpsertRequest,
    stored: Map<RelationshipPlace, StoredRelationship>,
) -> bool {
    let place = place_of(p, text_of_string(facts.subject)->0, text_of_string(facts.object)->0);
    if stored.dom().contains(place) {
        &&& text_of_string(facts.existing_id) == Some(stored[place].id)
        &&& text_of_string(facts.existing_observed_at) == stored[place].observed_at
        &&& text_of_string(facts.existing_valid_from) == stored[place].valid_from
        &&& text_of_string(facts.existing_valid_to) == stored[place].valid_to
        &&& text_of_string(facts.existing_metadata) == stored[place].metadata_json
    } else {
        &&& facts.existing_id is None
        &&& facts.existing_observed_at is None
        &&& facts.existing_valid_from is None
        &&& facts.existing_valid_to is None
        &&& facts.existing_metadata is None
    }
}

/// Writing a relationship twice is writing it once: it is created exactly where no
/// relationship has its space, ends, type, memory and source, and the same request
/// again creates nothing, keeps the id and leaves the store as it is.
pub proof fn law_relationship_upsert_is_idempotent(
    p: PreparedRelationshipUpsertRequest,
    stored: Map<RelationshipPlace, StoredRelationship>,
    facts: RelationshipFacts,
    plan: RelationshipUpsertPlan,
    later: RelationshipFacts,
    again: RelationshipUpsertPlan,
)
    requires
        reads_relationships(facts, p, stored),
        plans_relationship(p, facts, plan),
        text_of_string(later.subject) == text_of_string(facts.subject),
        text_of_string(later.object) == text_of_string(facts.object),
        reads_relationships(later, p, relationships_after(stored, p, plan)),
        plans_relationship(p, later, again),
    ensures
        plan.created <==> !stored.dom().contains(
            place_of(p, plan.subject_entity_id@, plan.object_entity_id@),
        ),
        !again.created,
        again.relationship_id@ == plan.relationship_id@,
        relationships_after(relationships_after(stored, p, plan), p, again) == relationships_after(
            stored,
            p,
            plan,
        ),
{
    let after = relationships_after(stored, p, plan);
    assert(relationships_after(after, p, again) =~= after);
}

/// A checked request names each end of a relationship by its id or by its key, and
/// not by both.
pub proof fn law_ends_are_named_once(
    request: RelationshipUpsertRequest,
    p: PreparedRelationshipUpsertRequest,
)
    requires
        relationship_request_fault(request) is None,
        prepares_relationship(request, p),
    ensures
        p.subject_entity_id is Some <==> p.subject_entity_key is None,
        p.object_entity_id is Some <==> p.object_entity_key is None,
{
}

/// A relationship that links between memories suggest, as a request that was
/// checked.
pub fn proposed_relationship(
    proposal: &crate::consolidation::DreamRelationshipProposal,
    confidence: Score,
) -> (r: PreparedRelationshipUpsertRequest)
    ensures
        r.space@ == proposal.space@,
        r.subject_entity_id is None,
        text_of_string(r.subject_entity_key) == Some(proposal.subject_entity_key@),
        r.relation_type@ == proposal.relation_type@,
        r.object_entity_id is None,
        text_of_string(r.object_entity_key) == Some(proposal.object_entity_key@),
        text_of_string(r.memory_id) == Some(proposal.src_memory_id@),
        r.source_episode_id is None,
        r.status@ == STATUS_ACTIVE@,
        r.confidence == confidence,
        r.observed_at is None && r.valid_from is None && r.valid_to is None,
        r.metadata_json is None,
        !r.include_source,
{
    PreparedRelationshipUpsertRequest {
        space: proposal.space.clone(),
        subject_entity_id: None,
        subject_entity_key: Some(proposal.subject_entity_key.clone()),
        relation_type: proposal.relation_type.clone(),
        object_entity_id: None,
        object_entity_key: Some(proposal.object_entity_key.clone()),
        memory_id: Some(proposal.src_memory_id.clone()),
        source_episode_id: None,
        status: STATUS_ACTIVE.to_owned(),
        confidence,
        observed_at: None,
        valid_from: None,
        valid_to: None,
        metadata_json: None,
        include_source: false,
    }
}

} // verus!
