//! What is let in: words, times, captured graphs, stores and archived rows.

use vstd::prelude::*;

use crate::capture::{
    capture_entity_request, capture_relationship_request, captured_edge_fault,
    captured_edges_fault, captured_entities_fault, captured_entity_fault, ends_written, place_of,
    validate_graph_capture, ExistingEntity, GraphCapture, GraphCaptureEntity,
    GraphCaptureRelationship,
};
use crate::digest::text_digest;
use crate::entities::EntityUpsertRequest;
use crate::error::{Error, Fault};
use crate::integrity::{
    first_fault, validate_import_integrity, validate_import_source_episode_row,
    ImportSourceEpisodeInvariantRow, ImportedStore,
};
use crate::json::text_of_string;
use crate::relationships::RelationshipUpsertRequest;
use crate::remember::RememberRequest;
use crate::schema::{
    ensure_wal, open_initialized_read_fast, open_initialized_write, preflight_init_path,
    semantic_table_for_dims, validate_initialized, ExistingStoreInspection, OpenStep, SchemaFacts,
};
use crate::text::{decimal, is_blank, trimmed, views};
use crate::validate::{
    is_utc_rfc3339_like, normalize_utc_timestamp, validate_optional_timestamp,
};
use crate::vocabulary::{
    is_supported_entity_status, is_supported_kind, is_supported_relationship_status,
    is_supported_scope, is_supported_status,
};

verus! {

/// A memory is active, superseded, conflicted, tombstoned or expired; a relationship is
/// none of the last, and an entity is active, merged or tombstoned.
pub proof fn law_statuses_are_known(
    word: &str,
    memory: bool,
    relationship: bool,
    entity: bool,
)
    requires
        call_ensures(is_supported_status, (word,), memory),
        call_ensures(is_supported_relationship_status, (word,), relationship),
        call_ensures(is_supported_entity_status, (word,), entity),
    ensures
        memory <==> word@ == "active"@ || word@ == "superseded"@ || word@ == "conflicted"@ || word@
            == "tombstoned"@ || word@ == "expired"@,
        relationship <==> word@ == "active"@ || word@ == "superseded"@ || word@ == "conflicted"@
            || word@ == "tombstoned"@,
        entity <==> word@ == "active"@ || word@ == "merged"@ || word@ == "tombstoned"@,
{
}

/// The kinds and the scopes of memories are known words.
pub proof fn law_kinds_and_scopes_are_known(word: &str, kind: bool, scope: bool)
    requires
        call_ensures(is_supported_kind, (word,), kind),
        call_ensures(is_supported_scope, (word,), scope),
    ensures
        kind <==> word@ == "fact"@ || word@ == "decision"@ || word@ == "preference"@ || word@
            == "lesson"@ || word@ == "task"@ || word@ == "action"@ || word@ == "continuity"@
            || word@ == "summary"@ || word@ == "reference"@ || word@ == "entity"@,
        scope <==> word@ == "global"@ || word@ == "workspace"@ || word@ == "project"@ || word@
            == "session"@ || word@ == "custom"@,
{
}

/// A time is a date and a time of day in universal time, with whole seconds or a
/// fraction of one; in normal form it has milliseconds and keeps its seconds.
pub proof fn law_times_keep_their_seconds(text: &str, is_time: bool, normal: String)
    requires
        call_ensures(is_utc_rfc3339_like, (text,), is_time),
        call_ensures(normalize_utc_timestamp, (text,), normal),
    ensures
        is_time ==> {
            &&& text@.len() >= 20
            &&& text@[4] == '-' && text@[7] == '-' && text@[10] == 'T' && text@[13] == ':'
                && text@[16] == ':'
            &&& text@.last() == 'Z'
            &&& text@.len() == 20 || text@[19] == '.'
            &&& text@[5] == '0' || text@[5] == '1'
            &&& '0' <= text@[8] <= '3' && '0' <= text@[11] <= '2'
            &&& '0' <= text@[14] <= '5' && '0' <= text@[17] <= '5'
            &&& normal@.len() == 24
            &&& normal@.take(19) == text@.take(19)
            &&& normal@[19] == '.' && normal@[23] == 'Z'
            &&& text@.len() == 20 ==> normal@[20] == '0' && normal@[21] == '0' && normal@[22] == '0'
            &&& text@.len() >= 24 ==> normal@[20] == text@[20] && normal@[21] == text@[21]
                && normal@[22] == text@[22]
        },
        !is_time ==> normal@ == text@,
{
    if is_time {
        assert(normal@.take(19) =~= text@.take(19));
        assert(crate::validate::is_digit(text@[5]) && crate::validate::is_digit(text@[6]));
        assert(crate::validate::is_digit(text@[8]) && crate::validate::is_digit(text@[9]));
        assert(crate::validate::is_digit(text@[11]) && crate::validate::is_digit(text@[12]));
        assert(crate::validate::is_digit(text@[14]) && crate::validate::is_digit(text@[15]));
        assert(crate::validate::is_digit(text@[17]) && crate::validate::is_digit(text@[18]));
    }
}

/// A time that is given is refused exactly where it is none, or too long.
pub proof fn law_times_are_refused_for_their_form(
    name: &str,
    value: Option<&str>,
    answer: Result<(), Error>,
)
    requires
        call_ensures(validate_optional_timestamp, (name, value), answer),
    ensures
        value is None ==> answer is Ok,
        value matches Some(text) ==> (answer is Ok <==> text@.len() <= 64
            && crate::validate::utc_shape(text@)),
{
}

proof fn lemma_entity_ok(entities: Seq<GraphCaptureEntity>, i: int)
    requires
        captured_entities_fault(entities) is None,
        0 <= i < entities.len(),
    ensures
        captured_entity_fault(entities[i]) is None,
        forall|j: int|
            0 <= j < i ==> trimmed((#[trigger] entities[j]).entity_key@) != trimmed(
                entities[i].entity_key@,
            ),
    decreases entities.len(),
{
    let rest = entities.drop_last();
    if i < rest.len() {
        lemma_entity_ok(rest, i);
        assert forall|j: int| 0 <= j < i implies trimmed((#[trigger] entities[j]).entity_key@)
            != trimmed(entities[i].entity_key@) by {
            assert(rest[j] == entities[j] && rest[i] == entities[i]);
        }
    } else {
        assert forall|j: int| 0 <= j < i implies trimmed((#[trigger] entities[j]).entity_key@)
            != trimmed(entities[i].entity_key@) by {
            assert(rest[j] == entities[j]);
        }
    }
}

proof fn lemma_edge_ok(
    entities: Seq<GraphCaptureEntity>,
    edges: Seq<GraphCaptureRelationship>,
    i: int,
)
    requires
        captured_edges_fault(entities, edges) is None,
        0 <= i < edges.len(),
    ensures
        captured_edge_fault(entities, edges[i]) is None,
    decreases edges.len(),
{
    if i < edges.len() - 1 {
        lemma_edge_ok(entities, edges.drop_last(), i);
    }
}

/// Whether a captured graph declares an entity.
pub open spec fn declares(graph: GraphCapture, key: Seq<char>) -> bool {
    exists|i: int|
        0 <= i < graph.entities@.len() && trimmed((#[trigger] graph.entities@[i]).entity_key@)
            == key
}

/// A captured graph has at least one and at most thirty-two entities with different keys,
/// and at most sixty-four relationships, each typed and between two different entities
/// that it declares.
pub proof fn law_captured_graphs_are_typed(graph: GraphCapture)
    requires
        call_ensures(validate_graph_capture, (&Some(graph),), Ok::<(), Error>(())),
    ensures
        1 <= graph.entities@.len() <= 32,
        graph.relationships@.len() <= 64,
        forall|i: int, j: int|
            0 <= i < j < graph.entities@.len() ==> trimmed(
                (#[trigger] graph.entities@[i]).entity_key@,
            ) != trimmed((#[trigger] graph.entities@[j]).entity_key@),
        forall|i: int|
            0 <= i < graph.relationships@.len() ==> {
                let edge = #[trigger] graph.relationships@[i];
                &&& edge.relation_type@ != "related_to"@
                &&& edge.subject_entity_key@ != edge.object_entity_key@
                &&& declares(graph, trimmed(edge.subject_entity_key@))
                &&& declares(graph, trimmed(edge.object_entity_key@))
                &&& 0 <= edge.confidence.key <= 0x3ff0_0000_0000_0000
            },
{
    assert forall|i: int, j: int| 0 <= i < j < graph.entities@.len() implies trimmed(
        (#[trigger] graph.entities@[i]).entity_key@,
    ) != trimmed((#[trigger] graph.entities@[j]).entity_key@) by {
        lemma_entity_ok(graph.entities@, j);
    }
    assert forall|i: int| 0 <= i < graph.relationships@.len() implies {
        let edge = #[trigger] graph.relationships@[i];
        &&& edge.relation_type@ != "related_to"@
        &&& edge.subject_entity_key@ != edge.object_entity_key@
        &&& declares(graph, trimmed(edge.subject_entity_key@))
        &&& declares(graph, trimmed(edge.object_entity_key@))
        &&& 0 <= edge.confidence.key <= 0x3ff0_0000_0000_0000
    } by {
        lemma_edge_ok(graph.entities@, graph.relationships@, i);
    }
}

/// A captured entity that is known keeps its name, and gets the captured one as an alias;
/// one that is not known gets the captured name. Either way its aliases are those that
/// were captured, and it is active.
pub proof fn law_captured_entities_keep_known_names(
    graph: GraphCapture,
    i: usize,
    key: &str,
    existing: Option<ExistingEntity>,
    space: &str,
    remember: RememberRequest,
    request: EntityUpsertRequest,
)
    requires
        i < graph.entities@.len(),
        call_ensures(
            capture_entity_request,
            (&graph, i, key, &existing, space, &remember),
            request,
        ),
    ensures
        request.entity_key@ == key@,
        request.space is Some && request.space->0@ == space@,
        request.status is Some && request.status->0@ == "active"@,
        request.confidence == remember.confidence,
        existing matches Some(known) ==> request.canonical_name@ == known.canonical_name@ && views(
            request.aliases@,
        ).contains(graph.entities@[i as int].canonical_name@),
        existing is None ==> request.canonical_name@ == graph.entities@[i as int].canonical_name@,
        forall|k: int|
            0 <= k < graph.entities@[i as int].aliases@.len() ==> views(request.aliases@).contains(
                (#[trigger] graph.entities@[i as int].aliases@[k])@,
            ),
{
    let entity = graph.entities@[i as int];
    let given = views(entity.aliases@);
    let list = views(request.aliases@);
    assert(given.len() == entity.aliases@.len());
    if existing is Some {
        assert(list[given.len() as int] == entity.canonical_name@);
    }
    assert forall|k: int| 0 <= k < entity.aliases@.len() implies list.contains(
        (#[trigger] entity.aliases@[k])@,
    ) by {
        assert(given[k] == entity.aliases@[k]@);
        assert(list[k] == given[k]);
    }
}

/// A captured relationship is written between the entities that its ends stand for, with
/// the memory as its evidence; where they are one entity it is refused.
pub proof fn law_captured_relationships_rest_on_the_memory(
    graph: GraphCapture,
    i: usize,
    keys: Vec<String>,
    space: &str,
    memory_id: &str,
    remember: RememberRequest,
    answer: Result<RelationshipUpsertRequest, Error>,
)
    requires
        i < graph.relationships@.len(),
        keys@.len() == graph.entities@.len(),
        ends_written(graph, i as int),
        call_ensures(
            capture_relationship_request,
            (&graph, i, &keys, space, memory_id, &remember),
            answer,
        ),
    ensures
        ({
            let edge = graph.relationships@[i as int];
            let subject = keys@[place_of(graph.entities@, edge.subject_entity_key@)->0]@;
            let object = keys@[place_of(graph.entities@, edge.object_entity_key@)->0]@;
            &&& answer is Ok <==> subject != object
            &&& answer matches Ok(request) ==> {
                &&& text_of_string(request.subject_entity_key) == Some(subject)
                &&& text_of_string(request.object_entity_key) == Some(object)
                &&& request.relation_type@ == edge.relation_type@
                &&& text_of_string(request.memory_id) == Some(memory_id@)
                &&& text_of_string(request.status) == Some("active"@)
                &&& text_of_string(request.space) == Some(space@)
                &&& request.confidence == edge.confidence
                &&& text_of_string(request.observed_at) == text_of_string(remember.observed_at)
                &&& request.subject_entity_id is None && request.object_entity_id is None
            }
        }),
{
}

/// A store is ready where it has the present schema, its tables, its migration, its
/// protocol and its usual space.
pub proof fn law_ready_stores_are_complete(path: &str, facts: SchemaFacts)
    requires
        call_ensures(validate_initialized, (path, &facts), Ok::<(), Error>(())),
    ensures
        facts.user_version == 6,
        facts.schema_version is Some && facts.schema_version->0@ == "6"@,
        facts.migration_recorded && facts.seeded_space,
        facts.protocol_version is Some && facts.protocol_version->0@ == "memkeeper.v0.1"@,
        facts.default_space is Some && facts.default_space->0@ == "workspace-memory"@,
        views(facts.tables@).contains("memories"@),
        views(facts.tables@).contains("memory_versions"@),
        views(facts.tables@).contains("entities"@),
        views(facts.tables@).contains("relationships"@),
        views(facts.tables@).contains("memory_fts"@),
        views(facts.tables@).contains("memory_fts_public"@),
{
    let wanted = crate::schema::REQUIRED_TABLES@;
    assert(wanted[5]@ == "memories"@ && wanted[6]@ == "memory_versions"@);
    assert(wanted[12]@ == "entities"@ && wanted[14]@ == "relationships"@);
    let indexes = crate::schema::REQUIRED_FTS_TABLES@;
    assert(indexes[0]@ == "memory_fts"@ && indexes[1]@ == "memory_fts_public"@);
}

/// A store with an older schema is migrated before it is written and refused where it is
/// read; one with a later schema is refused; one that is no store is looked at in a copy
/// first, and refused if it is none there either.
pub proof fn law_stores_open_in_their_schema(
    path: &str,
    exists: bool,
    in_place: ExistingStoreInspection,
    copy: Option<ExistingStoreInspection>,
    read: Result<OpenStep, Error>,
    write: Result<OpenStep, Error>,
)
    requires
        call_ensures(open_initialized_read_fast, (path, exists, in_place, copy), read),
        call_ensures(open_initialized_write, (path, exists, in_place, copy), write),
    ensures
        !exists ==> read is Err && write is Err,
        exists && in_place is Compatible ==> read is Ok && read->Ok_0 is Open && write is Ok
            && write->Ok_0 is Open,
        exists && in_place is OlderSchema ==> read is Err && write is Ok && write->Ok_0 is Migrate,
        exists && in_place is FutureSchema ==> read is Err && write is Err,
        exists && in_place is Unrecognized && copy is None ==> read is Ok
            && read->Ok_0 is InspectCopy && write is Ok && write->Ok_0 is InspectCopy,
        exists && in_place is Unrecognized && copy is Some && copy->0 is Unrecognized
            ==> read is Err && write is Err,
{
}

/// A path is made a store where nothing is there, or a store that is not of a later
/// schema; another database is left alone.
pub proof fn law_other_databases_are_left_alone(
    path: &str,
    empty: bool,
    found: ExistingStoreInspection,
    answer: Result<(), Error>,
)
    requires
        call_ensures(preflight_init_path, (path, empty, found), answer),
    ensures
        answer is Ok <==> empty || found is Compatible || found is OlderSchema,
        !empty && found is Unrecognized ==> answer is Err && answer->Err_0@
            == Fault::UnsafeExistingDatabase(path@),
{
}

/// A store has to keep a write-ahead log, and vectors have between one and eight thousand
/// one hundred and ninety-two dimensions, each number in a table of its own.
pub proof fn law_stores_have_logs_and_vector_tables(
    path: &str,
    journal: &str,
    log: Result<(), Error>,
    dims: usize,
    table: Result<String, Error>,
)
    requires
        call_ensures(ensure_wal, (path, journal), log),
        call_ensures(semantic_table_for_dims, (dims,), table),
    ensures
        log is Ok <==> journal@ == "wal"@,
        table is Ok <==> 1 <= dims <= 8_192,
        table matches Ok(name) ==> name@ == "memory_vec_"@ + decimal(dims as nat),
{
}

/// A chunk of an archive is let in where its place is one of its document's and its
/// content has the digest that it claims.
pub proof fn law_archived_chunks_are_sealed(row: ImportSourceEpisodeInvariantRow)
    requires
        call_ensures(validate_import_source_episode_row, (&row,), Ok::<(), Error>(())),
    ensures
        0 <= row.chunk_index < row.chunk_count,
        row.content_sha256 matches Some(hash) ==> row.content is Some && text_digest(
            row.content->0@,
        ) == hash@,
        row.content matches Some(content) ==> content@.len() <= 131_072,
        !is_blank(row.id@) && trimmed(row.id@) == row.id@,
        !is_blank(row.space_name@),
{
}

proof fn lemma_no_fault<A>(rows: Seq<A>, fault: spec_fn(A) -> Option<Fault>, i: int)
    requires
        first_fault(rows, fault) is None,
        0 <= i < rows.len(),
    ensures
        fault(rows[i]) is None,
    decreases rows.len(),
{
    if i < rows.len() - 1 {
        lemma_no_fault(rows.drop_last(), fault, i);
    }
}

/// An archive is let in only whole: each space has its usual silo, each memory known
/// words and a confidence between nothing and one, each version content with the digest
/// that it claims, each representation the digest of its text and a version, and nothing
/// crosses from one space to another.
pub proof fn law_archives_are_let_in_whole(store: ImportedStore, i: int)
    requires
        call_ensures(validate_import_integrity, (&store,), Ok::<(), Error>(())),
    ensures
        store.invalid_active_version is None,
        0 <= i < store.spaces@.len() ==> exists|k: int|
            0 <= k < store.silos@.len() && (#[trigger] store.silos@[k]).space_name@
                == store.spaces@[i].name@ && store.silos@[k].name@ == store.spaces@[i].default_silo@,
        0 <= i < store.memories@.len() ==> {
            let row = store.memories@[i];
            &&& row.status@ == "active"@ || row.status@ == "superseded"@ || row.status@
                == "conflicted"@ || row.status@ == "tombstoned"@ || row.status@ == "expired"@
            &&& 0 <= row.confidence.key <= 0x3ff0_0000_0000_0000
            &&& crate::validate::utc_shape(row.observed_at@)
            &&& row.expires_at matches Some(at) ==> crate::validate::utc_shape(at@)
        },
        0 <= i < store.versions@.len() ==> {
            let row = store.versions@[i];
            &&& row.content_sha256@ == text_digest(row.content@)
            &&& !is_blank(row.content@) && row.content@.len() <= 131_072
        },
        0 <= i < store.representations@.len() ==> {
            let row = store.representations@[i];
            &&& row.version_exists
            &&& row.text_sha256@ == text_digest(row.input.text@)
        },
        0 <= i < store.source_refs@.len() ==> store.source_refs@[i].source_ref.holds_object(),
        store.crossings.memory_source is None && store.crossings.version_source is None
            && store.crossings.link is None && store.crossings.conflict is None
            && store.crossings.entity_source is None && store.crossings.alias_source is None
            && store.crossings.relationship is None,
{
    if 0 <= i < store.spaces@.len() {
        let faults = crate::integrity::default_silo_faults(store.silos@);
        lemma_no_fault(store.spaces@, faults, i);
        assert(faults(store.spaces@[i]) is None);
    }
    if 0 <= i < store.memories@.len() {
        let faults = crate::integrity::memory_faults();
        lemma_no_fault(store.memories@, faults, i);
        assert(faults(store.memories@[i]) is None);
    }
    if 0 <= i < store.versions@.len() {
        let faults = crate::integrity::version_faults();
        lemma_no_fault(store.versions@, faults, i);
        assert(faults(store.versions@[i]) is None);
    }
    if 0 <= i < store.representations@.len() {
        let faults = crate::integrity::representation_faults();
        lemma_no_fault(store.representations@, faults, i);
        assert(faults(store.representations@[i]) is None);
    }
    if 0 <= i < store.source_refs@.len() {
        let faults = crate::integrity::source_ref_faults();
        lemma_no_fault(store.source_refs@, faults, i);
        assert(faults(store.source_refs@[i]) is None);
    }
}

} // verus!
