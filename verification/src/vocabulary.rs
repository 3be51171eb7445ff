//! The limits of the store and the words it knows.

use vstd::prelude::*;

use crate::text::text_eq;

verus! {

/// Maximum accepted explicit memory content size in Unicode scalar values.
pub const MAX_CONTENT_CHARS: usize = 131_072;

/// Maximum accepted memory summary size in Unicode scalar values.
pub const MAX_SUMMARY_CHARS: usize = 8_192;

/// Maximum accepted tag count for one memory.
pub const MAX_TAGS: usize = 64;

/// Maximum accepted tag size in Unicode scalar values.
pub const MAX_TAG_CHARS: usize = 128;

/// Maximum accepted canonical source/provenance JSON size in Unicode scalar values.
pub const MAX_SOURCE_REF_JSON_CHARS: usize = 32_768;

/// Maximum accepted space/silo/project/entity/claim/id string size.
pub const MAX_METADATA_VALUE_CHARS: usize = 256;

/// Maximum accepted timestamp string size.
pub const MAX_TIMESTAMP_CHARS: usize = 64;

/// Maximum explicit memory links accepted in one remember request.
pub const MAX_MEMORY_LINKS: usize = 128;

/// Maximum returned results for one deterministic search.
pub const MAX_SEARCH_LIMIT: usize = 50;

/// Maximum returned rows for one deterministic memory review/list call.
pub const MAX_MEMORY_LIST_LIMIT: usize = 100;

/// Maximum returned rows for one deterministic entity search call.
pub const MAX_ENTITY_SEARCH_LIMIT: usize = 50;

/// Maximum accepted aliases on one deterministic entity upsert.
pub const MAX_ENTITY_ALIASES: usize = 64;

/// Maximum recursive graph traversal depth accepted by `graph_neighbors`.
pub const MAX_GRAPH_NEIGHBOR_DEPTH: usize = 4;

/// Maximum relationship edges returned by one `graph_neighbors` call.
pub const MAX_GRAPH_NEIGHBOR_EDGES: usize = 200;

/// Maximum accepted search offset.
pub const MAX_SEARCH_OFFSET: usize = 1_000;

/// Maximum emitted snippet length in Unicode scalar values.
pub const MAX_SNIPPET_CHARS: usize = 1_000;

/// Maximum accepted search query size in Unicode scalar values.
pub const MAX_SEARCH_QUERY_CHARS: usize = 4_096;

/// Maximum accepted sanitized search terms.
pub const MAX_SEARCH_TERMS: usize = 64;

/// Maximum deterministic batch-search queries in one request.
pub const MAX_BATCH_QUERIES: usize = 20;

/// Maximum deterministic batch-search results per query.
pub const MAX_BATCH_QUERY_LIMIT: usize = 20;

/// Maximum memories included in one deterministic prompt pack.
pub const MAX_PACK_MEMORIES: usize = 50;

/// Maximum emitted prompt pack size in Unicode scalar values.
pub const MAX_PACK_CHARS: usize = 10_000;

/// Maximum prompt pack title size in Unicode scalar values.
pub const MAX_PACK_TITLE_CHARS: usize = 256;

/// Maximum spaces returned by one space listing.
pub const MAX_SPACE_LIST_LIMIT: usize = 50;

/// Maximum silos returned by one silo listing.
pub const MAX_SILO_LIST_LIMIT: usize = 100;

/// Maximum returned history versions/events for one memory.
pub const MAX_HISTORY_LIMIT: usize = 500;

/// Maximum accepted forget reason size in Unicode scalar values.
pub const MAX_FORGET_REASON_CHARS: usize = 2_048;

/// Maximum accepted logical import line size in bytes.
pub const MAX_IMPORT_LINE_BYTES: usize = 16_777_216;

/// Maximum JSON nesting accepted while parsing logical import files.
pub const MAX_IMPORT_JSON_DEPTH: usize = 64;

/// Default maximum memories scanned by one explicit maintenance run.
pub const DEFAULT_DREAM_MAX_MEMORIES: usize = 1_000;

/// Maximum memories scanned by one explicit maintenance run.
pub const MAX_DREAM_MAX_MEMORIES: usize = 10_000;

/// Maximum duplicate ids emitted per duplicate proposal.
pub const MAX_DREAM_DUPLICATE_IDS: usize = 20;

/// Maximum duplicate/update candidates returned by one remember preflight.
pub const MAX_REMEMBER_CANDIDATES: usize = 5;

/// Maximum query terms used by lexical remember candidate detection.
pub const MAX_REMEMBER_LEXICAL_TERMS: usize = 12;

/// Maximum same-claim conflict candidates returned by one remember operation.
pub const MAX_REMEMBER_CONFLICT_CANDIDATES: usize = 5;

/// Maximum supported semantic embedding dimension.
pub const MAX_SEMANTIC_EMBEDDING_DIMS: usize = 8_192;

/// Maximum entities in one captured graph.
pub const MAX_CAPTURE_ENTITIES: usize = 32;

/// Maximum relationships in one captured graph.
pub const MAX_CAPTURE_RELATIONSHIPS: usize = 64;

/// Maximum recall events in one telemetry write.
pub const MAX_RECALL_EVENTS: usize = 100;

/// Default row count of one candidate listing.
pub const DEFAULT_CANDIDATE_LIST_LIMIT: usize = 50;

/// Default result limit for document-chunk search.
pub const DEFAULT_DOCUMENT_SEARCH_LIMIT: usize = 10;

/// The schema version that this library works with.
pub const SCHEMA_VERSION: i32 = 6;

/// The space that is used where none is named.
pub const DEFAULT_SPACE: &'static str = "workspace-memory";

/// The reserved name that stands for every space on the read side.
pub const ALL_SPACES: &'static str = "*";

/// The silo of durable memories.
pub const DEFAULT_DURABLE_SILO: &'static str = "durable";

/// The silo that memories are promoted from.
pub const SHORT_TERM_SILO: &'static str = "short-term";

/// Default space for ingested document chunks.
pub const DOCUMENTS_SPACE: &'static str = "documents";

/// The status of a memory in force.
pub const STATUS_ACTIVE: &'static str = "active";

/// The status of a memory that another one replaced.
pub const STATUS_SUPERSEDED: &'static str = "superseded";

/// The status of a forgotten memory.
pub const STATUS_TOMBSTONED: &'static str = "tombstoned";

/// The status of a memory past its validity.
pub const STATUS_EXPIRED: &'static str = "expired";

/// The scope that is used where none is named.
pub const SCOPE_WORKSPACE: &'static str = "workspace";

/// The kind of a plain fact.
pub const KIND_FACT: &'static str = "fact";

/// The kind of a decision.
pub const KIND_DECISION: &'static str = "decision";

/// The kind of a preference.
pub const KIND_PREFERENCE: &'static str = "preference";

/// The kind of a lesson.
pub const KIND_LESSON: &'static str = "lesson";

/// The kind of a continuity note.
pub const KIND_CONTINUITY: &'static str = "continuity";

/// Lifecycle statuses of a memory.
pub open spec fn supported_status(value: Seq<char>) -> bool {
    ||| value == "active"@
    ||| value == "superseded"@
    ||| value == "conflicted"@
    ||| value == "tombstoned"@
    ||| value == "expired"@
}

/// Whether `value` is a lifecycle status of a memory.
pub fn is_supported_status(value: &str) -> (r: bool)
    ensures
        r == supported_status(value@),
{
    text_eq(value, "active") || text_eq(value, "superseded") || text_eq(value, "conflicted")
        || text_eq(value, "tombstoned") || text_eq(value, "expired")
}

/// Scopes of a memory.
pub open spec fn supported_scope(value: Seq<char>) -> bool {
    ||| value == "global"@
    ||| value == "workspace"@
    ||| value == "project"@
    ||| value == "session"@
    ||| value == "custom"@
}

/// Whether `value` is a scope of a memory.
pub fn is_supported_scope(value: &str) -> (r: bool)
    ensures
        r == supported_scope(value@),
{
    text_eq(value, "global") || text_eq(value, "workspace") || text_eq(value, "project")
        || text_eq(value, "session") || text_eq(value, "custom")
}

/// Kinds of a memory.
pub open spec fn supported_kind(value: Seq<char>) -> bool {
    ||| value == "fact"@
    ||| value == "decision"@
    ||| value == "preference"@
    ||| value == "lesson"@
    ||| value == "task"@
    ||| value == "action"@
    ||| value == "continuity"@
    ||| value == "summary"@
    ||| value == "reference"@
    ||| value == "entity"@
}

/// Whether `value` is a kind of a memory.
pub fn is_supported_kind(value: &str) -> (r: bool)
    ensures
        r == supported_kind(value@),
{
    text_eq(value, "fact") || text_eq(value, "decision") || text_eq(value, "preference")
        || text_eq(value, "lesson") || text_eq(value, "task") || text_eq(value, "action")
        || text_eq(value, "continuity") || text_eq(value, "summary") || text_eq(value, "reference")
        || text_eq(value, "entity")
}

/// Statuses of a graph entity.
pub open spec fn supported_entity_status(value: Seq<char>) -> bool {
    value == "active"@ || value == "merged"@ || value == "tombstoned"@
}

/// Whether `value` is a status of a graph entity.
pub fn is_supported_entity_status(value: &str) -> (r: bool)
    ensures
        r == supported_entity_status(value@),
{
    text_eq(value, "active") || text_eq(value, "merged") || text_eq(value, "tombstoned")
}

/// Statuses of a graph relationship.
pub open spec fn supported_relationship_status(value: Seq<char>) -> bool {
    ||| value == "active"@
    ||| value == "superseded"@
    ||| value == "conflicted"@
    ||| value == "tombstoned"@
}

/// Whether `value` is a status of a graph relationship.
pub fn is_supported_relationship_status(value: &str) -> (r: bool)
    ensures
        r == supported_relationship_status(value@),
{
    text_eq(value, "active") || text_eq(value, "superseded") || text_eq(value, "conflicted")
        || text_eq(value, "tombstoned")
}

} // verus!
