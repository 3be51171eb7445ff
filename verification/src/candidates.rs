//! The review queue of candidate memories.

use vstd::prelude::*;

use crate::error::{concat, concat3, invalid, invalid3, invalid4, verdict, Error, Fault};
use crate::json::{
    array_text, as_text, json_has, json_has_member, json_merge, json_merged, json_parse_texts, json_quoted,
    json_string_for_store, json_texts, json_write_texts, members_kept, pair_views, text_of, text_of_string, texts_array,
};
use crate::memory::MemoryRecord;
use crate::pool::{clone_text, clone_texts};
use crate::ranking::{in_unit_range, is_in_unit_range, Score};
use crate::records::{plain_object, ImportJson};
use crate::remember::{
    content_fault, document_fault, tags_fault, validate_content, validate_document, validate_tags,
    JsonDocument, RememberRequest,
};
use crate::text::{is_blank, text_eq, trim, views};
use crate::validate::{
    first_of, link_ids_fault, metadata_fault, normal_tags, normalized_tags, refused_if,
    reject_all_spaces_sentinel, sentinel_fault, validate_memory_link_ids,
    validate_optional_metadata_value,
};
use crate::vocabulary::{DEFAULT_CANDIDATE_LIST_LIMIT, MAX_SUMMARY_CHARS};

verus! {

/// The status of a candidate that awaits its review.
pub const CANDIDATE_STATUS_PENDING: &'static str = "pending";

/// The status of a candidate that became a memory.
pub const CANDIDATE_STATUS_APPROVED: &'static str = "approved";

/// The status of a refused candidate.
pub const CANDIDATE_STATUS_REJECTED: &'static str = "rejected";

/// The status of a candidate that an adjudicator flagged.
pub const CANDIDATE_STATUS_QUARANTINED: &'static str = "quarantined";

/// Source type of a candidate where none is named.
pub const DEFAULT_CANDIDATE_SOURCE_TYPE: &'static str = "assistant-inference";

/// Sensitivity of a candidate where none is named.
pub const DEFAULT_CANDIDATE_SENSITIVITY: &'static str = "normal";

/// Source type of the capture write path, which is subject to adjudication.
pub const CANDIDATE_SOURCE_CAPTURE: &'static str = "capture";

/// The columns of a stored candidate.
pub const CANDIDATE_COLUMNS: &'static str = "id, status, space, silo, scope, project, kind, content, summary, rationale, tags_json, entity_key, claim_key, confidence, source_type, source_json, sensitivity, supersedes_json, created_at, decided_at, decided_reason, resulting_memory_id";

/// Promotion posture for a capture candidate at the `approve` boundary.
#[derive(Debug, PartialEq, Eq, Structural)]
pub enum AdjudicationGuard {
    /// Verdict present (or not a capture candidate): promote normally.
    Clear,
    /// Unadjudicated but no hard requirement: promote and warn loudly.
    Degraded,
    /// Unadjudicated and adjudication is required: refuse promotion.
    Refuse,
}

/// May a capture candidate be promoted, given whether it carries an adjudication
/// verdict and whether the deployment requires adjudication?
pub fn adjudication_guard(has_verdict: bool, require: bool) -> (r: AdjudicationGuard)
    ensures
        r == guard(has_verdict, require),
{
    if has_verdict {
        AdjudicationGuard::Clear
    } else if require {
        AdjudicationGuard::Refuse
    } else {
        AdjudicationGuard::Degraded
    }
}

/// The posture for a capture candidate.
pub open spec fn guard(has_verdict: bool, require: bool) -> AdjudicationGuard {
    if has_verdict {
        AdjudicationGuard::Clear
    } else if require {
        AdjudicationGuard::Refuse
    } else {
        AdjudicationGuard::Degraded
    }
}

/// Whether a text says that adjudication is required: `1`, or `true` in any case.
pub fn requires_adjudication(value: Option<&str>) -> (r: bool)
    ensures
        r == (value matches Some(text) && (text@ == "1"@ || crate::text::lower(text@) == "true"@)),
{
    match value {
        Some(text) => {
            let lowered = crate::text::to_ascii_lower(text);
            text_eq(text, "1") || text_eq(lowered.as_str(), "true")
        },
        None => false,
    }
}

/// Request to submit a candidate memory for review.
pub struct CandidateSubmitRequest {
    /// Target space.
    pub space: Option<String>,
    /// Target silo.
    pub silo: Option<String>,
    /// Target scope.
    pub scope: Option<String>,
    /// Project key.
    pub project: Option<String>,
    /// Memory kind.
    pub kind: Option<String>,
    /// Candidate content.
    pub content: String,
    /// Optional summary.
    pub summary: Option<String>,
    /// Why this candidate was proposed.
    pub rationale: Option<String>,
    /// Tags to attach on approval.
    pub tags: Vec<String>,
    /// Stable entity key.
    pub entity_key: Option<String>,
    /// Stable claim key.
    pub claim_key: Option<String>,
    /// Confidence.
    pub confidence: Score,
    /// Provenance/source type.
    pub source_type: Option<String>,
    /// Source/provenance object.
    pub source_json: Option<JsonDocument>,
    /// Sensitivity label.
    pub sensitivity: Option<String>,
    /// Memory ids this candidate would supersede on approval.
    pub supersedes: Vec<String>,
    /// Validate and return a report without writing.
    pub dry_run: bool,
}

/// A stored candidate memory.
pub struct CandidateRecord {
    /// Candidate id.
    pub id: String,
    /// Lifecycle status.
    pub status: String,
    /// Target space.
    pub space: Option<String>,
    /// Target silo.
    pub silo: Option<String>,
    /// Target scope.
    pub scope: Option<String>,
    /// Project key.
    pub project: Option<String>,
    /// Memory kind.
    pub kind: Option<String>,
    /// Candidate content.
    pub content: String,
    /// Optional summary.
    pub summary: Option<String>,
    /// Rationale for the proposal.
    pub rationale: Option<String>,
    /// Tags.
    pub tags: Vec<String>,
    /// Entity key.
    pub entity_key: Option<String>,
    /// Claim key.
    pub claim_key: Option<String>,
    /// Confidence.
    pub confidence: Score,
    /// Provenance/source type.
    pub source_type: String,
    /// Source/provenance object.
    pub source_json: Option<String>,
    /// Sensitivity label.
    pub sensitivity: String,
    /// Memory ids this candidate would supersede.
    pub supersedes: Vec<String>,
    /// Submission timestamp.
    pub created_at: String,
    /// Decision timestamp, when decided.
    pub decided_at: Option<String>,
    /// Reason recorded at the decision.
    pub decided_reason: Option<String>,
    /// Memory id created when the candidate was approved.
    pub resulting_memory_id: Option<String>,
}

/// The model of a [`CandidateRecord`].
pub struct CandidateModel {
    /// Candidate id.
    pub id: Seq<char>,
    /// Lifecycle status.
    pub status: Seq<char>,
    /// Target space.
    pub space: Option<Seq<char>>,
    /// Target silo.
    pub silo: Option<Seq<char>>,
    /// Target scope.
    pub scope: Option<Seq<char>>,
    /// Project key.
    pub project: Option<Seq<char>>,
    /// Memory kind.
    pub kind: Option<Seq<char>>,
    /// Candidate content.
    pub content: Seq<char>,
    /// Optional summary.
    pub summary: Option<Seq<char>>,
    /// Rationale for the proposal.
    pub rationale: Option<Seq<char>>,
    /// Tags.
    pub tags: Seq<Seq<char>>,
    /// Entity key.
    pub entity_key: Option<Seq<char>>,
    /// Claim key.
    pub claim_key: Option<Seq<char>>,
    /// Confidence.
    pub confidence: Score,
    /// Provenance/source type.
    pub source_type: Seq<char>,
    /// Source/provenance object.
    pub source_json: Option<Seq<char>>,
    /// Sensitivity label.
    pub sensitivity: Seq<char>,
    /// Memory ids this candidate would supersede.
    pub supersedes: Seq<Seq<char>>,
    /// Submission timestamp.
    pub created_at: Seq<char>,
    /// Decision timestamp.
    pub decided_at: Option<Seq<char>>,
    /// Reason recorded at the decision.
    pub decided_reason: Option<Seq<char>>,
    /// Memory that came of it.
    pub resulting_memory_id: Option<Seq<char>>,
}

impl View for CandidateRecord {
    type V = CandidateModel;

    open spec fn view(&self) -> CandidateModel {
        CandidateModel {
            id: self.id@,
            status: self.status@,
            space: text_of_string(self.space),
            silo: text_of_string(self.silo),
            scope: text_of_string(self.scope),
            project: text_of_string(self.project),
            kind: text_of_string(self.kind),
            content: self.content@,
            summary: text_of_string(self.summary),
            rationale: text_of_string(self.rationale),
            tags: views(self.tags@),
            entity_key: text_of_string(self.entity_key),
            claim_key: text_of_string(self.claim_key),
            confidence: self.confidence,
            source_type: self.source_type@,
            source_json: text_of_string(self.source_json),
            sensitivity: self.sensitivity@,
            supersedes: views(self.supersedes@),
            created_at: self.created_at@,
            decided_at: text_of_string(self.decided_at),
            decided_reason: text_of_string(self.decided_reason),
            resulting_memory_id: text_of_string(self.resulting_memory_id),
        }
    }
}

/// Accepted candidate source types.
pub open spec fn supported_source_type(value: Seq<char>) -> bool {
    ||| value == "explicit-user"@
    ||| value == "auto-harvest"@
    ||| value == "import"@
    ||| value == "docs"@
    ||| value == "test"@
    ||| value == "assistant-inference"@
    ||| value == "capture"@
}

fn is_supported_source_type(value: &str) -> (r: bool)
    ensures
        r == supported_source_type(value@),
{
    text_eq(value, "explicit-user") || text_eq(value, "auto-harvest") || text_eq(value, "import")
        || text_eq(value, "docs") || text_eq(value, "test") || text_eq(value, "assistant-inference")
        || text_eq(value, "capture")
}

/// Accepted candidate lifecycle statuses.
pub open spec fn supported_candidate_status(value: Seq<char>) -> bool {
    value == "pending"@ || value == "approved"@ || value == "rejected"@ || value == "quarantined"@
}

fn is_supported_candidate_status(value: &str) -> (r: bool)
    ensures
        r == supported_candidate_status(value@),
{
    text_eq(value, "pending") || text_eq(value, "approved") || text_eq(value, "rejected")
        || text_eq(value, "quarantined")
}

/// The fault of where a candidate would go.
pub open spec fn candidate_place_fault(request: CandidateSubmitRequest) -> Option<Fault> {
    first_of(
        metadata_fault("space"@, text_of_string(request.space)),
        first_of(
            sentinel_fault(text_of_string(request.space)),
            first_of(
                metadata_fault("silo"@, text_of_string(request.silo)),
                first_of(
                    metadata_fault("scope"@, text_of_string(request.scope)),
                    first_of(
                        metadata_fault("project"@, text_of_string(request.project)),
                        first_of(
                            metadata_fault("kind"@, text_of_string(request.kind)),
                            first_of(
                                metadata_fault("entity_key"@, text_of_string(request.entity_key)),
                                metadata_fault("claim_key"@, text_of_string(request.claim_key)),
                            ),
                        ),
                    ),
                ),
            ),
        ),
    )
}

fn validate_candidate_place(request: &CandidateSubmitRequest) -> (r: Result<(), Error>)
    ensures
        verdict(r) == candidate_place_fault(*request),
{
    if let Err(e) = validate_optional_metadata_value("space", as_text(&request.space)) {
        return Err(e);
    }
    if let Err(e) = reject_all_spaces_sentinel(as_text(&request.space)) {
        return Err(e);
    }
    if let Err(e) = validate_optional_metadata_value("silo", as_text(&request.silo)) {
        return Err(e);
    }
    if let Err(e) = validate_optional_metadata_value("scope", as_text(&request.scope)) {
        return Err(e);
    }
    if let Err(e) = validate_optional_metadata_value("project", as_text(&request.project)) {
        return Err(e);
    }
    if let Err(e) = validate_optional_metadata_value("kind", as_text(&request.kind)) {
        return Err(e);
    }
    if let Err(e) = validate_optional_metadata_value("entity_key", as_text(&request.entity_key)) {
        return Err(e);
    }
    validate_optional_metadata_value("claim_key", as_text(&request.claim_key))
}

/// The fault of a candidate's labels.
pub open spec fn labels_fault(request: CandidateSubmitRequest) -> Option<Fault> {
    first_of(
        match text_of_string(request.source_type) {
            Some(value) => refused_if(
                !supported_source_type(value),
                "unsupported source_type: "@ + value
                    + " (expected one of explicit-user, auto-harvest, import, docs, test, assistant-inference, capture)"@,
            ),
            None => None,
        },
        match text_of_string(request.sensitivity) {
            Some(value) => refused_if(
                value != "normal"@ && value != "sensitive"@,
                "unsupported sensitivity: "@ + value + " (expected one of normal, sensitive)"@,
            ),
            None => None,
        },
    )
}

fn validate_labels(request: &CandidateSubmitRequest) -> (r: Result<(), Error>)
    ensures
        verdict(r) == labels_fault(*request),
{
    if let Some(value) = &request.source_type {
        if !is_supported_source_type(value.as_str()) {
            return Err(
                invalid3(
                    "unsupported source_type: ",
                    value.as_str(),
                    " (expected one of explicit-user, auto-harvest, import, docs, test, assistant-inference, capture)",
                ),
            );
        }
    }
    if let Some(value) = &request.sensitivity {
        if !(text_eq(value.as_str(), "normal") || text_eq(value.as_str(), "sensitive")) {
            return Err(
                invalid3(
                    "unsupported sensitivity: ",
                    value.as_str(),
                    " (expected one of normal, sensitive)",
                ),
            );
        }
    }
    Ok(())
}

/// The first fault of a submitted candidate.
pub open spec fn submit_fault(request: CandidateSubmitRequest) -> Option<Fault> {
    first_of(
        content_fault(request.content@, text_of_string(request.summary)),
        first_of(
            refused_if(
                request.rationale is Some && request.rationale->0@.len() > MAX_SUMMARY_CHARS,
                "rationale must be at most 8192 characters"@,
            ),
            first_of(
                candidate_place_fault(request),
                first_of(
                    refused_if(
                        !in_unit_range(request.confidence),
                        "confidence must be between 0.0 and 1.0"@,
                    ),
                    first_of(
                        labels_fault(request),
                        first_of(
                            document_fault("source JSON"@, request.source_json),
                            first_of(
                                link_ids_fault("supersedes"@, views(request.supersedes@)),
                                tags_fault(views(request.tags@)),
                            ),
                        ),
                    ),
                ),
            ),
        ),
    )
}

/// Checks a submitted candidate.
pub fn validate_candidate_submit_request(request: &CandidateSubmitRequest) -> (r: Result<
    (),
    Error,
>)
    ensures
        verdict(r) == submit_fault(*request),
{
    if let Err(e) = validate_content(request.content.as_str(), as_text(&request.summary)) {
        return Err(e);
    }
    if let Some(rationale) = &request.rationale {
        if rationale.as_str().unicode_len() > MAX_SUMMARY_CHARS {
            return Err(invalid("rationale must be at most 8192 characters"));
        }
    }
    if let Err(e) = validate_candidate_place(request) {
        return Err(e);
    }
    if !is_in_unit_range(request.confidence) {
        return Err(invalid("confidence must be between 0.0 and 1.0"));
    }
    if let Err(e) = validate_labels(request) {
        return Err(e);
    }
    if let Err(e) = validate_document("source JSON", &request.source_json) {
        return Err(e);
    }
    if let Err(e) = validate_memory_link_ids("supersedes", request.supersedes.as_slice()) {
        return Err(e);
    }
    validate_tags(&request.tags)
}

/// A list of texts as the column of a candidate; nothing for an empty list.
pub fn candidate_string_array_to_column(values: &Vec<String>) -> (r: Option<String>)
    ensures
        r is Some == (values@.len() > 0),
        r matches Some(column) ==> json_texts(column@) is Ok && json_texts(
            column@,
        )->Ok_0 == views(values@) && column@ == texts_array(views(values@)),
{
    if values.len() == 0 {
        None
    } else {
        Some(json_write_texts(values.as_slice()))
    }
}

/// The list of texts in the column of a candidate: empty where there is no
/// column, or none that holds one.
pub open spec fn column_texts(parsed: Option<Result<Seq<Seq<char>>, Seq<char>>>) -> Seq<Seq<char>> {
    match parsed {
        Some(Ok(list)) => list,
        _ => Seq::empty(),
    }
}

/// Reads the column of a candidate as a list of texts.
pub fn candidate_string_array_from_column(raw: Option<&str>) -> (r: Vec<String>)
    ensures
        views(r@) == column_texts(
            match raw {
                Some(text) => Some(json_texts(text@)),
                None => None,
            },
        ),
        raw matches Some(text) ==> forall|list: Seq<Seq<char>>|
            text@ == #[trigger] array_text(list) ==> views(r@) == list,
{
    let empty: Vec<String> = Vec::new();
    assert(views(empty@) =~= Seq::empty());
    match raw {
        None => empty,
        Some(text) => match json_parse_texts(text) {
            Ok(list) => list,
            Err(_) => empty,
        },
    }
}

/// What a list of texts reads as after it was stored: the same list.
pub fn stored_texts(values: &Vec<String>) -> (r: Vec<String>)
    ensures
        views(r@) == views(values@),
{
    let column = candidate_string_array_to_column(values);
    let list = candidate_string_array_from_column(as_text(&column));
    assert(values@.len() == 0 ==> views(values@) =~= Seq::empty());
    list
}

/// A document's text, where there is one.
pub open spec fn document_text_of(document: Option<JsonDocument>) -> Option<Seq<char>> {
    crate::remember::document_of(document)
}

/// The record of a submitted candidate.
pub open spec fn submitted(
    request: CandidateSubmitRequest,
    id: Seq<char>,
    now: Seq<char>,
) -> CandidateModel {
    CandidateModel {
        id,
        status: CANDIDATE_STATUS_PENDING@,
        space: text_of_string(request.space),
        silo: text_of_string(request.silo),
        scope: text_of_string(request.scope),
        project: text_of_string(request.project),
        kind: text_of_string(request.kind),
        content: request.content@,
        summary: text_of_string(request.summary),
        rationale: text_of_string(request.rationale),
        tags: normal_tags(views(request.tags@))->Ok_0,
        entity_key: text_of_string(request.entity_key),
        claim_key: text_of_string(request.claim_key),
        confidence: request.confidence,
        source_type: match text_of_string(request.source_type) {
            Some(value) => value,
            None => DEFAULT_CANDIDATE_SOURCE_TYPE@,
        },
        source_json: document_text_of(request.source_json),
        sensitivity: match text_of_string(request.sensitivity) {
            Some(value) => value,
            None => DEFAULT_CANDIDATE_SENSITIVITY@,
        },
        supersedes: views(request.supersedes@),
        created_at: now,
        decided_at: None,
        decided_reason: None,
        resulting_memory_id: None,
    }
}

/// Submits a candidate memory for later review: the record that is stored.
pub fn submit_candidate(request: &CandidateSubmitRequest, id: &str, now: &str) -> (r: Result<
    CandidateSubmitReport,
    Error,
>)
    ensures
        match r {
            Ok(report) => submit_fault(*request) is None && report.candidate@ == submitted(
                *request,
                id@,
                now@,
            ) && report.dry_run == request.dry_run,
            Err(e) => submit_fault(*request) == Some(e@),
        },
{
    if let Err(e) = validate_candidate_submit_request(request) {
        return Err(e);
    }
    let tags = match normalized_tags(request.tags.as_slice()) {
        Ok(tags) => tags,
        Err(e) => {
            return Err(e);
        },
    };
    let source_json = match &request.source_json {
        Some(document) => Some(document.text.clone()),
        None => None,
    };
    let record = CandidateRecord {
        id: id.to_owned(),
        status: CANDIDATE_STATUS_PENDING.to_owned(),
        space: clone_text(&request.space),
        silo: clone_text(&request.silo),
        scope: clone_text(&request.scope),
        project: clone_text(&request.project),
        kind: clone_text(&request.kind),
        content: request.content.clone(),
        summary: clone_text(&request.summary),
        rationale: clone_text(&request.rationale),
        tags: stored_texts(&tags),
        entity_key: clone_text(&request.entity_key),
        claim_key: clone_text(&request.claim_key),
        confidence: request.confidence,
        source_type: crate::writing::text_or_default(
            &request.source_type,
            DEFAULT_CANDIDATE_SOURCE_TYPE,
        ),
        source_json,
        sensitivity: crate::writing::text_or_default(
            &request.sensitivity,
            DEFAULT_CANDIDATE_SENSITIVITY,
        ),
        supersedes: stored_texts(&request.supersedes),
        created_at: now.to_owned(),
        decided_at: None,
        decided_reason: None,
        resulting_memory_id: None,
    };
    Ok(CandidateSubmitReport { candidate: record, dry_run: request.dry_run })
}

/// Request to list candidates for review.
#[derive(Debug, Clone, PartialEq, Eq)]
pub struct CandidateListRequest {
    /// Filter by status; none lists all.
    pub status: Option<String>,
    /// Filter by target space.
    pub space: Option<String>,
    /// Max rows.
    pub limit: usize,
    /// Row offset.
    pub offset: usize,
}

/// A queued candidate.
pub struct CandidateSubmitReport {
    /// The candidate.
    pub candidate: CandidateRecord,
    /// Whether nothing is kept.
    pub dry_run: bool,
}

/// A page of candidates.
pub struct CandidateListReport {
    /// The candidates, newest first.
    pub candidates: Vec<CandidateRecord>,
    /// How many candidates match in all.
    pub total: usize,
}

/// A request to make a candidate a memory.
pub struct CandidateApproveRequest {
    /// The candidate.
    pub id: String,
    /// Whether nothing is kept.
    pub dry_run: bool,
}

/// A candidate and the memory that it became.
pub struct CandidateApproveReport {
    /// The candidate.
    pub candidate: CandidateRecord,
    /// The memory.
    pub memory: MemoryRecord,
    /// Whether nothing is kept.
    pub dry_run: bool,
}

/// A rejected candidate.
pub struct CandidateRejectReport {
    /// The candidate.
    pub candidate: CandidateRecord,
    /// Whether nothing is kept.
    pub dry_run: bool,
}

/// A candidate in quarantine.
pub struct CandidateQuarantineReport {
    /// The candidate.
    pub candidate: CandidateRecord,
    /// Whether nothing is kept.
    pub dry_run: bool,
}

/// The statements of a candidate listing.
pub struct CandidateListPlan {
    /// Counts the matching candidates.
    pub count_sql: String,
    /// Reads them, newest first.
    pub list_sql: String,
    /// Rows at most.
    pub limit: i64,
    /// Row offset.
    pub offset: i64,
}

/// The condition of a candidate listing.
pub open spec fn candidate_where(status: bool, space: bool) -> Seq<char> {
    if status && space {
        " WHERE status = :status AND space = :space"@
    } else if status {
        " WHERE status = :status"@
    } else if space {
        " WHERE space = :space"@
    } else {
        ""@
    }
}

/// Plans a candidate listing: an unknown status is refused, and the number of
/// rows is kept between one and twice the default.
pub fn list_candidates(request: &CandidateListRequest) -> (r: Result<CandidateListPlan, Error>)
    ensures
        match r {
            Ok(plan) => {
                let condition = candidate_where(request.status is Some, request.space is Some);
                &&& request.status matches Some(status) ==> supported_candidate_status(status@)
                &&& plan.count_sql@ == "SELECT COUNT(*) FROM memory_candidates"@ + condition
                &&& plan.list_sql@ == "SELECT "@ + CANDIDATE_COLUMNS@ + " FROM memory_candidates"@
                    + condition + " ORDER BY created_at DESC, id DESC LIMIT :limit OFFSET :offset"@
                &&& plan.limit == if request.limit == 0 {
                    1
                } else if request.limit > 2 * DEFAULT_CANDIDATE_LIST_LIMIT {
                    2 * DEFAULT_CANDIDATE_LIST_LIMIT as int
                } else {
                    request.limit as int
                }
                &&& plan.offset == if request.offset <= i64::MAX {
                    request.offset as int
                } else {
                    0
                }
            },
            Err(e) => request.status matches Some(status) && !supported_candidate_status(status@)
                && e@ == Fault::InvalidRequest(
                "unsupported status filter: "@ + status@
                    + " (expected one of pending, approved, rejected, quarantined)"@,
            ),
        },
{
    if let Some(status) = &request.status {
        if !is_supported_candidate_status(status.as_str()) {
            return Err(
                invalid3(
                    "unsupported status filter: ",
                    status.as_str(),
                    " (expected one of pending, approved, rejected, quarantined)",
                ),
            );
        }
    }
    let by_status: bool = request.status.is_some();
    let by_space: bool = request.space.is_some();
    let condition = if by_status && by_space {
        " WHERE status = :status AND space = :space"
    } else if by_status {
        " WHERE status = :status"
    } else if by_space {
        " WHERE space = :space"
    } else {
        ""
    };
    let limit: i64 = if request.limit == 0 {
        1
    } else if request.limit > 2 * DEFAULT_CANDIDATE_LIST_LIMIT {
        2 * DEFAULT_CANDIDATE_LIST_LIMIT as i64
    } else {
        request.limit as i64
    };
    let offset: i64 = if request.offset as u64 <= 0x7fff_ffff_ffff_ffff {
        request.offset as i64
    } else {
        0
    };
    let mut list_sql = "SELECT ".to_owned();
    list_sql.append(CANDIDATE_COLUMNS);
    list_sql.append(" FROM memory_candidates");
    list_sql.append(condition);
    list_sql.append(" ORDER BY created_at DESC, id DESC LIMIT :limit OFFSET :offset");
    Ok(
        CandidateListPlan {
            count_sql: concat("SELECT COUNT(*) FROM memory_candidates", condition),
            list_sql,
            limit,
            offset,
        },
    )
}

/// The fault of deciding a candidate: it has to exist and to be pending.
pub open spec fn decision_fault(id: Seq<char>, candidate: Option<CandidateModel>) -> Option<Fault> {
    first_of(
        refused_if(is_blank(id), "candidate id must not be empty"@),
        match candidate {
            None => Some(Fault::InvalidRequest("candidate not found: "@ + id)),
            Some(c) => refused_if(
                c.status != CANDIDATE_STATUS_PENDING@,
                "candidate "@ + c.id + " is already "@ + c.status,
            ),
        },
    )
}

/// The model of an optional candidate.
pub open spec fn candidate_model(candidate: Option<CandidateRecord>) -> Option<CandidateModel> {
    match candidate {
        Some(c) => Some(c@),
        None => None,
    }
}

/// Checks that a candidate can be decided.
pub fn ensure_decidable(id: &str, candidate: &Option<CandidateRecord>) -> (r: Result<(), Error>)
    ensures
        verdict(r) == decision_fault(id@, candidate_model(*candidate)),
{
    if trim(id).is_empty() {
        return Err(invalid("candidate id must not be empty"));
    }
    match candidate {
        None => Err(crate::error::invalid2("candidate not found: ", id)),
        Some(c) => {
            if !text_eq(c.status.as_str(), CANDIDATE_STATUS_PENDING) {
                Err(
                    invalid4(
                        "candidate ",
                        c.id.as_str(),
                        " is already ",
                        c.status.as_str(),
                    ),
                )
            } else {
                Ok(())
            }
        },
    }
}

/// A candidate after its decision.
pub open spec fn decided(
    candidate: CandidateModel,
    status: Seq<char>,
    now: Seq<char>,
    reason: Option<Seq<char>>,
    memory_id: Option<Seq<char>>,
) -> CandidateModel {
    CandidateModel {
        status,
        decided_at: Some(now),
        decided_reason: reason,
        resulting_memory_id: memory_id,
        ..candidate
    }
}

fn decide(
    candidate: CandidateRecord,
    status: &str,
    now: &str,
    reason: Option<String>,
    memory_id: Option<String>,
) -> (r: CandidateRecord)
    ensures
        r@ == decided(
            candidate@,
            status@,
            now@,
            text_of_string(reason),
            text_of_string(memory_id),
        ),
{
    let mut after = candidate;
    after.status = status.to_owned();
    after.decided_at = Some(now.to_owned());
    after.decided_reason = reason;
    after.resulting_memory_id = memory_id;
    after
}

/// Request to reject a candidate.
#[derive(Debug, Clone, PartialEq, Eq)]
pub struct CandidateRejectRequest {
    /// Candidate id to reject.
    pub id: String,
    /// Optional reason recorded on the candidate.
    pub reason: Option<String>,
    /// Validate and return a report without writing.
    pub dry_run: bool,
}

/// Request to quarantine a candidate (an adjudicator flagged it).
#[derive(Debug, Clone, PartialEq, Eq)]
pub struct CandidateQuarantineRequest {
    /// Candidate id to quarantine.
    pub id: String,
    /// Optional reason recorded on the candidate.
    pub reason: Option<String>,
    /// Validate and return a report without writing.
    pub dry_run: bool,
}

/// Reject a candidate, recording an optional reason.
pub fn reject_candidate(
    request: &CandidateRejectRequest,
    candidate: Option<CandidateRecord>,
    now: &str,
) -> (r: Result<CandidateRejectReport, Error>)
    ensures
        match r {
            Ok(report) => {
                &&& decision_fault(request.id@, candidate_model(candidate)) is None
                &&& report.candidate@ == decided(
                    candidate->0@,
                    CANDIDATE_STATUS_REJECTED@,
                    now@,
                    text_of_string(request.reason),
                    candidate->0@.resulting_memory_id,
                )
                &&& report.dry_run == request.dry_run
            },
            Err(e) => decision_fault(request.id@, candidate_model(candidate)) == Some(e@),
        },
{
    if let Err(e) = ensure_decidable(request.id.as_str(), &candidate) {
        return Err(e);
    }
    match candidate {
        None => Err(crate::error::invalid2("candidate not found: ", request.id.as_str())),
        Some(c) => {
            let memory_id = clone_text(&c.resulting_memory_id);
            let candidate = decide(
                c,
                CANDIDATE_STATUS_REJECTED,
                now,
                clone_text(&request.reason),
                memory_id,
            );
            Ok(CandidateRejectReport { candidate, dry_run: request.dry_run })
        },
    }
}

/// Quarantine a candidate an adjudicator flagged, recording an optional reason.
pub fn quarantine_candidate(
    request: &CandidateQuarantineRequest,
    candidate: Option<CandidateRecord>,
    now: &str,
) -> (r: Result<CandidateQuarantineReport, Error>)
    ensures
        match r {
            Ok(report) => {
                &&& decision_fault(request.id@, candidate_model(candidate)) is None
                &&& report.candidate@ == decided(
                    candidate->0@,
                    CANDIDATE_STATUS_QUARANTINED@,
                    now@,
                    text_of_string(request.reason),
                    candidate->0@.resulting_memory_id,
                )
                &&& report.dry_run == request.dry_run
            },
            Err(e) => decision_fault(request.id@, candidate_model(candidate)) == Some(e@),
        },
{
    if let Err(e) = ensure_decidable(request.id.as_str(), &candidate) {
        return Err(e);
    }
    match candidate {
        None => Err(crate::error::invalid2("candidate not found: ", request.id.as_str())),
        Some(c) => {
            let memory_id = clone_text(&c.resulting_memory_id);
            let candidate = decide(
                c,
                CANDIDATE_STATUS_QUARANTINED,
                now,
                clone_text(&request.reason),
                memory_id,
            );
            Ok(CandidateQuarantineReport { candidate, dry_run: request.dry_run })
        },
    }
}

/// Whether a candidate was adjudicated, as a member of its source object says,
/// where that can be read.
pub open spec fn has_verdict(source_json: Option<Seq<char>>) -> bool {
    source_json matches Some(text) && json_has(text, "adjudication"@)
}

/// Tests [`has_verdict`].
pub fn candidate_has_adjudication_verdict(candidate: &CandidateRecord) -> (r: bool)
    ensures
        r == has_verdict(candidate@.source_json),
{
    match &candidate.source_json {
        Some(text) => json_has_member(text.as_str(), "adjudication"),
        None => false,
    }
}

/// The posture for any candidate: only those of the capture path are guarded.
pub open spec fn posture(source_type: Seq<char>, verdict: bool, require: bool) -> AdjudicationGuard {
    if source_type == CANDIDATE_SOURCE_CAPTURE@ {
        guard(verdict, require)
    } else {
        AdjudicationGuard::Clear
    }
}

/// The refusal of an unadjudicated candidate.
pub open spec fn refusal(id: Seq<char>) -> Seq<char> {
    "candidate "@ + id
        + " is capture-sourced and unadjudicated; MEMKEEPER_CAPTURE_REQUIRE_ADJUDICATION refuses promotion (adjudicate or quarantine it first)"@
}

/// The fault of approving a candidate, given whether it carries a verdict and
/// whether one is required.
pub open spec fn approval_fault(
    id: Seq<char>,
    candidate: Option<CandidateModel>,
    verdict: bool,
    require: bool,
) -> Option<Fault> {
    first_of(
        decision_fault(id, candidate),
        refused_if(
            posture(candidate->0.source_type, verdict, require) == AdjudicationGuard::Refuse,
            refusal(candidate->0.id),
        ),
    )
}

/// Decides whether a candidate may be approved, given whether it carries a
/// verdict.
pub fn check_approval(
    id: &str,
    candidate: &Option<CandidateRecord>,
    verdict: bool,
    require: bool,
) -> (r: Result<AdjudicationGuard, Error>)
    ensures
        match r {
            Ok(g) => approval_fault(id@, candidate_model(*candidate), verdict, require) is None && g
                == posture(candidate->0@.source_type, verdict, require) && g
                != AdjudicationGuard::Refuse,
            Err(e) => approval_fault(id@, candidate_model(*candidate), verdict, require) == Some(
                e@,
            ),
        },
{
    if let Err(e) = ensure_decidable(id, candidate) {
        return Err(e);
    }
    match candidate {
        None => Err(crate::error::invalid2("candidate not found: ", id)),
        Some(c) => {
            let found = if text_eq(c.source_type.as_str(), CANDIDATE_SOURCE_CAPTURE) {
                adjudication_guard(verdict, require)
            } else {
                AdjudicationGuard::Clear
            };
            match found {
                AdjudicationGuard::Refuse => Err(
                    invalid3(
                        "candidate ",
                        c.id.as_str(),
                        " is capture-sourced and unadjudicated; MEMKEEPER_CAPTURE_REQUIRE_ADJUDICATION refuses promotion (adjudicate or quarantine it first)",
                    ),
                ),
                other => Ok(other),
            }
        },
    }
}

/// Decides whether a candidate may be approved: it is pending, and if it was
/// captured it carries an adjudication verdict where one is required.
pub fn approve_candidate(
    request: &CandidateApproveRequest,
    candidate: &Option<CandidateRecord>,
    require: bool,
) -> (r: Result<AdjudicationGuard, Error>)
    ensures
        ({
            let model = candidate_model(*candidate);
            let verdict = model is Some && has_verdict(model->0.source_json);
            match r {
                Ok(g) => approval_fault(request.id@, model, verdict, require) is None && g
                    == posture(model->0.source_type, verdict, require) && g
                    != AdjudicationGuard::Refuse,
                Err(e) => approval_fault(request.id@, model, verdict, require) == Some(e@),
            }
        }),
{
    let found: bool = match candidate {
        Some(c) => candidate_has_adjudication_verdict(c),
        None => false,
    };
    check_approval(request.id.as_str(), candidate, found, require)
}

/// A candidate after it became a memory.
pub fn approved_candidate(
    request: &CandidateApproveRequest,
    candidate: CandidateRecord,
    now: &str,
    memory: MemoryRecord,
) -> (r: CandidateApproveReport)
    ensures
        r.candidate@ == decided(
            candidate@,
            CANDIDATE_STATUS_APPROVED@,
            now@,
            candidate@.decided_reason,
            Some(memory.id@),
        ),
        r.memory == memory,
        r.dry_run == request.dry_run,
{
    let reason = clone_text(&candidate.decided_reason);
    let memory_id = Some(memory.id.clone());
    let after = decide(candidate, CANDIDATE_STATUS_APPROVED, now, reason, memory_id);
    CandidateApproveReport { candidate: after, memory, dry_run: request.dry_run }
}

/// A page of candidates, given how many match in all.
pub fn report_candidates(candidates: Vec<CandidateRecord>, total: i64) -> (r: CandidateListReport)
    ensures
        r.candidates == candidates,
        r.total == if 0 <= total <= usize::MAX {
            total as int
        } else {
            0
        },
{
    let counted: usize = if total >= 0 && total as u64 <= usize::MAX as u64 {
        total as usize
    } else {
        0
    };
    CandidateListReport { candidates, total: counted }
}

/// The member that the source type makes.
pub open spec fn source_member(source_type: Seq<char>) -> Seq<(Seq<char>, Seq<char>)> {
    seq![("source_type"@, source_type)]
}

/// The source object of an approved candidate, given the merge into its own
/// source object and the merge into an empty one.
pub open spec fn chosen_source(
    merged: Option<Seq<char>>,
    fresh: Option<Seq<char>>,
    source_type: Seq<char>,
) -> Seq<char> {
    match merged {
        Some(text) => text,
        None => match fresh {
            Some(text) => text,
            None => "{\"source_type\":"@ + json_quoted(source_type) + "}"@,
        },
    }
}

/// Chooses the source object of an approved candidate.
pub fn choose_source(merged: Option<String>, fresh: Option<String>, source_type: &str) -> (r:
    String)
    ensures
        r@ == chosen_source(text_of_string(merged), text_of_string(fresh), source_type@),
{
    match merged {
        Some(text) => text,
        None => match fresh {
            Some(text) => text,
            None => {
                let quoted = json_string_for_store(source_type);
                concat3("{\"source_type\":", quoted.as_str(), "}")
            },
        },
    }
}

/// Builds the source object of an approved candidate: its own source object, or
/// an empty one where it has none that can be read, with the source type in it.
pub fn candidate_source_ref_json(source_json: Option<&str>, source_type: &str) -> (r: String)
    ensures
        r@ == chosen_source(
            json_merged(text_of(source_json), source_member(source_type@)),
            json_merged(None, source_member(source_type@)),
            source_type@,
        ),
        crate::json::json_text(r@, "source_type"@) == Some(source_type@),
        source_json matches Some(text) ==> json_merged(
            Some(text@),
            source_member(source_type@),
        ) is Some ==> members_kept(text@, r@, source_member(source_type@)),
{
    let mut members: Vec<(String, String)> = Vec::new();
    members.push(("source_type".to_owned(), source_type.to_owned()));
    assert(pair_views(members@) =~= source_member(source_type@));
    assert(members@[0].0@ == "source_type"@);
    let merged = json_merge(source_json, members.as_slice());
    let fresh = json_merge(None, members.as_slice());
    choose_source(merged, fresh, source_type)
}

/// Whether a request stores what a candidate proposes.
pub open spec fn promotes(
    request: RememberRequest,
    candidate: CandidateModel,
    derived_entity: Option<Seq<char>>,
    derived_claim: Option<Seq<char>>,
) -> bool {
    &&& request.content@ == candidate.content
    &&& text_of_string(request.summary) == candidate.summary
    &&& text_of_string(request.space) == candidate.space
    &&& text_of_string(request.silo) == candidate.silo
    &&& text_of_string(request.scope) == candidate.scope
    &&& text_of_string(request.project_key) == candidate.project
    &&& text_of_string(request.kind) == candidate.kind
    &&& text_of_string(request.entity_key) == (if candidate.entity_key is Some {
        candidate.entity_key
    } else {
        derived_entity
    })
    &&& text_of_string(request.claim_key) == (if candidate.claim_key is Some {
        candidate.claim_key
    } else {
        derived_claim
    })
    &&& request.confidence == candidate.confidence
    &&& !request.pinned
    &&& views(request.tags@) == candidate.tags
    &&& request.source_episode_id is None
    &&& crate::remember::document_of(request.metadata_json) == match candidate.rationale {
        Some(rationale) => Some("{\"rationale\":"@ + json_quoted(rationale) + "}"@),
        None => None,
    }
    &&& request.metadata_json matches Some(document) ==> document.holds_object()
    &&& request.valid_from is None
    &&& request.valid_to is None
    &&& request.observed_at is None
    &&& request.expires_at is None
    &&& views(request.supersedes@) == candidate.supersedes
    &&& request.contradicts@.len() == 0
    &&& request.mode@ == "auto"@
    &&& request.retrieval_representation is None
    &&& request.graph is None
    &&& !request.token_embedding
    &&& !request.dry_run
}

/// The request by which an approved candidate becomes a memory. The source
/// reference comes from [`candidate_source_ref_json`]; the derived keys stand in
/// for keys that the candidate does not name.
pub fn remember_request_from_candidate(
    candidate: &CandidateRecord,
    source_ref: JsonDocument,
    derived_entity_key: Option<String>,
    derived_claim_key: Option<String>,
) -> (r: RememberRequest)
    ensures
        promotes(
            r,
            candidate@,
            text_of_string(derived_entity_key),
            text_of_string(derived_claim_key),
        ),
        r.source_ref_json == Some(source_ref),
{
    let metadata_json = match &candidate.rationale {
        Some(rationale) => {
            let quoted = json_string_for_store(rationale.as_str());
            let mut members: Vec<(String, ImportJson)> = Vec::new();
            members.push(("rationale".to_owned(), ImportJson::Text(rationale.clone())));
            Some(
                JsonDocument {
                    text: concat3("{\"rationale\":", quoted.as_str(), "}"),
                    parsed: Some(plain_object(members)),
                },
            )
        },
        None => None,
    };
    RememberRequest {
        content: candidate.content.clone(),
        summary: clone_text(&candidate.summary),
        space: clone_text(&candidate.space),
        silo: clone_text(&candidate.silo),
        scope: clone_text(&candidate.scope),
        project_key: clone_text(&candidate.project),
        kind: clone_text(&candidate.kind),
        entity_key: if candidate.entity_key.is_some() {
            clone_text(&candidate.entity_key)
        } else {
            derived_entity_key
        },
        claim_key: if candidate.claim_key.is_some() {
            clone_text(&candidate.claim_key)
        } else {
            derived_claim_key
        },
        confidence: candidate.confidence,
        pinned: false,
        tags: clone_texts(&candidate.tags),
        source_episode_id: None,
        source_ref_json: Some(source_ref),
        metadata_json,
        valid_from: None,
        valid_to: None,
        observed_at: None,
        expires_at: None,
        supersedes: clone_texts(&candidate.supersedes),
        contradicts: Vec::new(),
        mode: "auto".to_owned(),
        retrieval_representation: None,
        graph: None,
        token_embedding: false,
        dry_run: false,
    }
}

/// A decision is final: a decided candidate is refused every later one, whatever
/// the verdict.
pub proof fn law_decisions_are_final(
    candidate: CandidateModel,
    status: Seq<char>,
    now: Seq<char>,
    reason: Option<Seq<char>>,
    memory_id: Option<Seq<char>>,
    id: Seq<char>,
    verdict: bool,
    require: bool,
)
    requires
        status == CANDIDATE_STATUS_APPROVED@ || status == CANDIDATE_STATUS_REJECTED@ || status
            == CANDIDATE_STATUS_QUARANTINED@,
    ensures
        decision_fault(id, Some(decided(candidate, status, now, reason, memory_id))) is Some,
        approval_fault(
            id,
            Some(decided(candidate, status, now, reason, memory_id)),
            verdict,
            require,
        ) is Some,
{
    reveal_strlit("pending");
    reveal_strlit("approved");
    reveal_strlit("rejected");
    reveal_strlit("quarantined");
    assert("pending"@.len() == 7);
    assert("approved"@.len() == 8);
    assert("rejected"@.len() == 8);
    assert("quarantined"@.len() == 11);
}

/// Where adjudication is required, no captured candidate without a verdict is
/// approved; and a candidate of any other source never depends on it.
pub proof fn law_adjudication_fails_closed(
    id: Seq<char>,
    candidate: CandidateModel,
    verdict: bool,
    require: bool,
)
    ensures
        candidate.source_type == CANDIDATE_SOURCE_CAPTURE@ && require && !verdict
            ==> approval_fault(id, Some(candidate), verdict, require) is Some,
        candidate.source_type != CANDIDATE_SOURCE_CAPTURE@ ==> approval_fault(
            id,
            Some(candidate),
            verdict,
            require,
        ) == decision_fault(id, Some(candidate)),
        verdict ==> approval_fault(id, Some(candidate), verdict, require) == decision_fault(
            id,
            Some(candidate),
        ),
{
}

} // verus!
