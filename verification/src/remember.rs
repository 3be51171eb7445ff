//! Storing a memory: checks, and everything that the write decides.

use vstd::prelude::*;

use crate::capture::{optional_capture_fault, validate_graph_capture, GraphCapture};
use crate::error::{invalid, invalid2, verdict, Error, Fault};
use crate::json::{as_text, text_of, text_of_string};
use crate::ranking::{in_unit_range, is_in_unit_range, Score};
use crate::records::{import_json_object_is_valid, is_document, ImportJson};
use crate::representation::{
    representation_fault, validate_retrieval_representation, RetrievalRepresentationInput,
};
use crate::text::{is_blank, text_eq, trim, views};
use crate::validate::{
    first_of, link_ids_fault, metadata_fault, normal_tags, normalized_tags, refuse_if, refused_if,
    reject_all_spaces_sentinel, sentinel_fault, timestamp_fault, validate_memory_link_ids,
    validate_optional_metadata_value, validate_optional_timestamp,
};
use crate::vocabulary::{
    is_supported_kind, is_supported_scope, supported_kind, supported_scope, MAX_CONTENT_CHARS,
    MAX_SOURCE_REF_JSON_CHARS, MAX_SUMMARY_CHARS,
};

verus! {

/// A text that should hold a JSON object, with what the JSON reader made of it.
pub struct JsonDocument {
    /// The text.
    pub text: String,
    /// The value that the text holds, where the reader could read one.
    pub parsed: Option<ImportJson>,
}

impl JsonDocument {
    /// Whether the text holds a JSON object within the limits on JSON.
    pub open spec fn holds_object(&self) -> bool {
        self.parsed matches Some(value) && is_document(value)
    }

    /// Tests [`JsonDocument::holds_object`].
    pub fn is_object(&self) -> (r: bool)
        ensures
            r == self.holds_object(),
    {
        match &self.parsed {
            Some(value) => import_json_object_is_valid(value),
            None => false,
        }
    }
}

/// The text of an optional document.
pub open spec fn document_of(document: Option<JsonDocument>) -> Option<Seq<char>> {
    match document {
        Some(d) => Some(d.text@),
        None => None,
    }
}

/// A request to store one memory.
pub struct RememberRequest {
    /// Content.
    pub content: String,
    /// Summary.
    pub summary: Option<String>,
    /// Space.
    pub space: Option<String>,
    /// Silo.
    pub silo: Option<String>,
    /// Scope.
    pub scope: Option<String>,
    /// Project key.
    pub project_key: Option<String>,
    /// Kind.
    pub kind: Option<String>,
    /// Entity key.
    pub entity_key: Option<String>,
    /// Claim key.
    pub claim_key: Option<String>,
    /// Confidence.
    pub confidence: Score,
    /// Whether the memory is protected from being superseded.
    pub pinned: bool,
    /// Tags.
    pub tags: Vec<String>,
    /// Source episode.
    pub source_episode_id: Option<String>,
    /// Source reference.
    pub source_ref_json: Option<JsonDocument>,
    /// Metadata.
    pub metadata_json: Option<JsonDocument>,
    /// Start of validity.
    pub valid_from: Option<String>,
    /// End of validity.
    pub valid_to: Option<String>,
    /// Observation time.
    pub observed_at: Option<String>,
    /// Expiry.
    pub expires_at: Option<String>,
    /// Memories that this one replaces.
    pub supersedes: Vec<String>,
    /// Memories that this one contradicts.
    pub contradicts: Vec<String>,
    /// How the write resolves against memories of the same claim.
    pub mode: String,
    /// Alternate text for retrieval.
    pub retrieval_representation: Option<RetrievalRepresentationInput>,
    /// Whether token embeddings come with the request.
    pub token_embedding: bool,
    /// Entities and relationships that come with the memory.
    pub graph: Option<GraphCapture>,
    /// Whether the write is only tried.
    pub dry_run: bool,
}

/// Whether a text names a supersession mode.
pub open spec fn supported_mode(mode: Seq<char>) -> bool {
    mode == "auto"@ || mode == "append"@ || mode == "supersede"@ || mode == "suggest"@ || mode
        == "conflict"@
}

/// Tests [`supported_mode`].
pub fn is_supported_mode(mode: &str) -> (r: bool)
    ensures
        r == supported_mode(mode@),
{
    text_eq(mode, "auto") || text_eq(mode, "append") || text_eq(mode, "supersede") || text_eq(
        mode,
        "suggest",
    ) || text_eq(mode, "conflict")
}

/// The fault of the texts of a memory.
pub open spec fn content_fault(content: Seq<char>, summary: Option<Seq<char>>) -> Option<Fault> {
    first_of(
        refused_if(is_blank(content), "content must not be empty"@),
        first_of(
            refused_if(
                content.len() > MAX_CONTENT_CHARS,
                "content must be at most 131072 characters"@,
            ),
            refused_if(
                summary is Some && summary->0.len() > MAX_SUMMARY_CHARS,
                "summary must be at most 8192 characters"@,
            ),
        ),
    )
}

/// Checks the texts of a memory.
pub fn validate_content(content: &str, summary: Option<&str>) -> (r: Result<(), Error>)
    ensures
        verdict(r) == content_fault(content@, text_of(summary)),
{
    if trim(content).is_empty() {
        return Err(invalid("content must not be empty"));
    }
    if content.unicode_len() > MAX_CONTENT_CHARS {
        return Err(invalid("content must be at most 131072 characters"));
    }
    match summary {
        Some(text) => refuse_if(
            text.unicode_len() > MAX_SUMMARY_CHARS,
            "summary must be at most 8192 characters",
        ),
        None => Ok(()),
    }
}

/// The fault of a JSON document.
pub open spec fn document_fault(name: Seq<char>, document: Option<JsonDocument>) -> Option<Fault> {
    match document {
        Some(d) => first_of(
            refused_if(
                d.text@.len() > MAX_SOURCE_REF_JSON_CHARS,
                name + " must be at most 32768 characters"@,
            ),
            refused_if(!d.holds_object(), name + " must be a valid JSON object"@),
        ),
        None => None,
    }
}

/// Checks a JSON document.
pub fn validate_document(name: &str, document: &Option<JsonDocument>) -> (r: Result<(), Error>)
    ensures
        verdict(r) == document_fault(name@, *document),
{
    match document {
        Some(d) => {
            if d.text.as_str().unicode_len() > MAX_SOURCE_REF_JSON_CHARS {
                Err(invalid2(name, " must be at most 32768 characters"))
            } else if !d.is_object() {
                Err(invalid2(name, " must be a valid JSON object"))
            } else {
                Ok(())
            }
        },
        None => Ok(()),
    }
}

/// The fault of the place of a memory.
pub open spec fn place_fault(request: RememberRequest) -> Option<Fault> {
    first_of(
        metadata_fault("space"@, text_of_string(request.space)),
        first_of(
            sentinel_fault(text_of_string(request.space)),
            first_of(
                metadata_fault("silo"@, text_of_string(request.silo)),
                first_of(
                    metadata_fault("scope"@, text_of_string(request.scope)),
                    first_of(
                        metadata_fault("project"@, text_of_string(request.project_key)),
                        first_of(
                            metadata_fault("kind"@, text_of_string(request.kind)),
                            first_of(
                                metadata_fault("entity_key"@, text_of_string(request.entity_key)),
                                metadata_fault("claim_key"@, text_of_string(request.claim_key)),
                            ),
                        ),
                    ),
                ),
            ),
        ),
    )
}

fn validate_place(request: &RememberRequest) -> (r: Result<(), Error>)
    ensures
        verdict(r) == place_fault(*request),
{
    if let Err(e) = validate_optional_metadata_value("space", as_text(&request.space)) {
        return Err(e);
    }
    if let Err(e) = reject_all_spaces_sentinel(as_text(&request.space)) {
        return Err(e);
    }
    if let Err(e) = validate_optional_metadata_value("silo", as_text(&request.silo)) {
        return Err(e);
    }
    if let Err(e) = validate_optional_metadata_value("scope", as_text(&request.scope)) {
        return Err(e);
    }
    if let Err(e) = validate_optional_metadata_value("project", as_text(&request.project_key)) {
        return Err(e);
    }
    if let Err(e) = validate_optional_metadata_value("kind", as_text(&request.kind)) {
        return Err(e);
    }
    if let Err(e) = validate_optional_metadata_value("entity_key", as_text(&request.entity_key)) {
        return Err(e);
    }
    validate_optional_metadata_value("claim_key", as_text(&request.claim_key))
}

/// The fault of the times of a memory.
pub open spec fn times_fault(request: RememberRequest) -> Option<Fault> {
    first_of(
        timestamp_fault("observed_at"@, text_of_string(request.observed_at)),
        first_of(
            timestamp_fault("valid_from"@, text_of_string(request.valid_from)),
            first_of(
                timestamp_fault("valid_to"@, text_of_string(request.valid_to)),
                timestamp_fault("expires_at"@, text_of_string(request.expires_at)),
            ),
        ),
    )
}

fn validate_times(request: &RememberRequest) -> (r: Result<(), Error>)
    ensures
        verdict(r) == times_fault(*request),
{
    if let Err(e) = validate_optional_timestamp("observed_at", as_text(&request.observed_at)) {
        return Err(e);
    }
    if let Err(e) = validate_optional_timestamp("valid_from", as_text(&request.valid_from)) {
        return Err(e);
    }
    if let Err(e) = validate_optional_timestamp("valid_to", as_text(&request.valid_to)) {
        return Err(e);
    }
    validate_optional_timestamp("expires_at", as_text(&request.expires_at))
}

/// The fault of tags.
pub open spec fn tags_fault(tags: Seq<Seq<char>>) -> Option<Fault> {
    match normal_tags(tags) {
        Ok(_) => None,
        Err(fault) => Some(fault),
    }
}

/// Checks tags.
pub fn validate_tags(tags: &Vec<String>) -> (r: Result<(), Error>)
    ensures
        verdict(r) == tags_fault(views(tags@)),
{
    match normalized_tags(tags.as_slice()) {
        Ok(_) => Ok(()),
        Err(e) => Err(e),
    }
}

/// The fault of an optional representation.
pub open spec fn optional_representation_fault(
    input: Option<RetrievalRepresentationInput>,
) -> Option<Fault> {
    match input {
        Some(i) => representation_fault(i.kind@, i.text@),
        None => None,
    }
}

/// The fault of an unsupported name.
pub open spec fn names_fault(request: RememberRequest) -> Option<Fault> {
    first_of(
        match text_of_string(request.scope) {
            Some(scope) => refused_if(!supported_scope(scope), "unsupported scope: "@ + scope),
            None => None,
        },
        first_of(
            match text_of_string(request.kind) {
                Some(kind) => refused_if(!supported_kind(kind), "unsupported kind: "@ + kind),
                None => None,
            },
            refused_if(!supported_mode(request.mode@), "unsupported mode: "@ + request.mode@),
        ),
    )
}

fn validate_names(request: &RememberRequest) -> (r: Result<(), Error>)
    ensures
        verdict(r) == names_fault(*request),
{
    if let Some(scope) = &request.scope {
        if !is_supported_scope(scope.as_str()) {
            return Err(invalid2("unsupported scope: ", scope.as_str()));
        }
    }
    if let Some(kind) = &request.kind {
        if !is_supported_kind(kind.as_str()) {
            return Err(invalid2("unsupported kind: ", kind.as_str()));
        }
    }
    if !is_supported_mode(request.mode.as_str()) {
        return Err(invalid2("unsupported mode: ", request.mode.as_str()));
    }
    Ok(())
}

/// The first fault of a request to store a memory.
pub open spec fn remember_request_fault(request: RememberRequest) -> Option<Fault> {
    first_of(
        content_fault(request.content@, text_of_string(request.summary)),
        first_of(
            place_fault(request),
            first_of(
                names_fault(request),
                first_of(
                    refused_if(
                        !in_unit_range(request.confidence),
                        "confidence must be between 0.0 and 1.0"@,
                    ),
                    first_of(
                        metadata_fault(
                            "source_episode_id"@,
                            text_of_string(request.source_episode_id),
                        ),
                        first_of(
                            document_fault("source JSON"@, request.source_ref_json),
                            first_of(
                                document_fault("metadata JSON"@, request.metadata_json),
                                first_of(
                                    times_fault(request),
                                    first_of(
                                        link_ids_fault("supersedes"@, views(request.supersedes@)),
                                        first_of(
                                            link_ids_fault(
                                                "contradicts"@,
                                                views(request.contradicts@),
                                            ),
                                            first_of(
                                                tags_fault(views(request.tags@)),
                                                first_of(
                                                    optional_representation_fault(
                                                        request.retrieval_representation,
                                                    ),
                                                    optional_capture_fault(request.graph),
                                                ),
                                            ),
                                        ),
                                    ),
                                ),
                            ),
                        ),
                    ),
                ),
            ),
        ),
    )
}

/// Checks a request to store a memory.
pub fn validate_remember_request(request: &RememberRequest) -> (r: Result<(), Error>)
    ensures
        verdict(r) == remember_request_fault(*request),
{
    if let Err(e) = validate_content(request.content.as_str(), as_text(&request.summary)) {
        return Err(e);
    }
    if let Err(e) = validate_place(request) {
        return Err(e);
    }
    if let Err(e) = validate_names(request) {
        return Err(e);
    }
    if !is_in_unit_range(request.confidence) {
        return Err(invalid("confidence must be between 0.0 and 1.0"));
    }
    if let Err(e) = validate_optional_metadata_value(
        "source_episode_id",
        as_text(&request.source_episode_id),
    ) {
        return Err(e);
    }
    if let Err(e) = validate_document("source JSON", &request.source_ref_json) {
        return Err(e);
    }
    if let Err(e) = validate_document("metadata JSON", &request.metadata_json) {
        return Err(e);
    }
    if let Err(e) = validate_times(request) {
        return Err(e);
    }
    if let Err(e) = validate_memory_link_ids("supersedes", request.supersedes.as_slice()) {
        return Err(e);
    }
    if let Err(e) = validate_memory_link_ids("contradicts", request.contradicts.as_slice()) {
        return Err(e);
    }
    if let Err(e) = validate_tags(&request.tags) {
        return Err(e);
    }
    if let Some(input) = &request.retrieval_representation {
        if let Err(e) = validate_retrieval_representation(input) {
            return Err(e);
        }
    }
    validate_graph_capture(&request.graph)
}

} // verus!
