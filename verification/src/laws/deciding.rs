//! What submitting candidates and deciding about them promise.

use vstd::prelude::*;

use crate::candidates::{
    adjudication_guard, approve_candidate, approved_candidate, list_candidates,
    quarantine_candidate, reject_candidate, remember_request_from_candidate,
    requires_adjudication, submit_candidate, AdjudicationGuard, CandidateApproveReport,
    CandidateApproveRequest, CandidateListPlan, CandidateListRequest, CandidateModel,
    CandidateQuarantineReport, CandidateQuarantineRequest, CandidateRecord, CandidateRejectReport,
    CandidateRejectRequest, CandidateSubmitReport, CandidateSubmitRequest,
};
use crate::error::Error;
use crate::json::{json_has, text_of_string};
use crate::memory::MemoryRecord;
use crate::remember::{JsonDocument, RememberRequest};
use crate::text::{is_blank, views};

verus! {

/// Whether a candidate says what another one says, whatever was decided about it.
pub open spec fn says_the_same(a: CandidateModel, b: CandidateModel) -> bool {
    &&& a.id == b.id
    &&& a.space == b.space && a.silo == b.silo && a.scope == b.scope && a.project == b.project
    &&& a.kind == b.kind && a.content == b.content && a.summary == b.summary
    &&& a.rationale == b.rationale && a.tags == b.tags
    &&& a.entity_key == b.entity_key && a.claim_key == b.claim_key
    &&& a.confidence == b.confidence
    &&& a.source_type == b.source_type && a.source_json == b.source_json
    &&& a.sensitivity == b.sensitivity && a.supersedes == b.supersedes
    &&& a.created_at == b.created_at
}

/// A candidate that is submitted waits for a decision. It says what the request says,
/// and takes a usual source and sensitivity where none is given.
pub proof fn law_submitted_candidates_wait(
    request: CandidateSubmitRequest,
    id: &str,
    now: &str,
    report: CandidateSubmitReport,
)
    requires
        call_ensures(
            submit_candidate,
            (&request, id, now),
            Ok::<CandidateSubmitReport, Error>(report),
        ),
    ensures
        ({
            let c = report.candidate@;
            &&& c.id == id@ && c.created_at == now@
            &&& c.status == "pending"@
            &&& c.decided_at is None && c.decided_reason is None && c.resulting_memory_id is None
            &&& c.content == request.content@ && !is_blank(c.content)
            &&& c.summary == text_of_string(request.summary)
            &&& c.rationale == text_of_string(request.rationale)
            &&& c.space == text_of_string(request.space)
            &&& c.silo == text_of_string(request.silo)
            &&& c.scope == text_of_string(request.scope)
            &&& c.project == text_of_string(request.project)
            &&& c.kind == text_of_string(request.kind)
            &&& c.entity_key == text_of_string(request.entity_key)
            &&& c.claim_key == text_of_string(request.claim_key)
            &&& c.confidence == request.confidence
            &&& 0 <= c.confidence.key <= 0x3ff0_0000_0000_0000
            &&& c.supersedes == views(request.supersedes@)
            &&& c.source_type == match request.source_type {
                Some(value) => value@,
                None => "assistant-inference"@,
            }
            &&& c.sensitivity == match request.sensitivity {
                Some(value) => value@,
                None => "normal"@,
            }
            &&& c.sensitivity == "normal"@ || c.sensitivity == "sensitive"@
            &&& c.source_type == "explicit-user"@ || c.source_type == "auto-harvest"@
                || c.source_type == "import"@ || c.source_type == "docs"@ || c.source_type
                == "test"@ || c.source_type == "assistant-inference"@ || c.source_type
                == "capture"@
            &&& report.dry_run == request.dry_run
        }),
{
}

/// A candidate is rejected exactly where it is there and waits for a decision, and then
/// says so, when and why; nothing else about it changes.
pub proof fn law_rejection_is_recorded(
    request: CandidateRejectRequest,
    candidate: Option<CandidateRecord>,
    now: &str,
    answer: Result<CandidateRejectReport, Error>,
)
    requires
        call_ensures(reject_candidate, (&request, candidate, now), answer),
    ensures
        answer is Ok <==> candidate is Some && candidate->0@.status == "pending"@ && !is_blank(
            request.id@,
        ),
        answer matches Ok(report) ==> {
            &&& report.candidate@.status == "rejected"@
            &&& report.candidate@.decided_at == Some(now@)
            &&& report.candidate@.decided_reason == text_of_string(request.reason)
            &&& report.candidate@.resulting_memory_id == candidate->0@.resulting_memory_id
            &&& says_the_same(report.candidate@, candidate->0@)
            &&& report.dry_run == request.dry_run
        },
{
}

/// A candidate is quarantined exactly where it is there and waits for a decision, and
/// then says so, when and why; nothing else about it changes.
pub proof fn law_quarantine_is_recorded(
    request: CandidateQuarantineRequest,
    candidate: Option<CandidateRecord>,
    now: &str,
    answer: Result<CandidateQuarantineReport, Error>,
)
    requires
        call_ensures(quarantine_candidate, (&request, candidate, now), answer),
    ensures
        answer is Ok <==> candidate is Some && candidate->0@.status == "pending"@ && !is_blank(
            request.id@,
        ),
        answer matches Ok(report) ==> {
            &&& report.candidate@.status == "quarantined"@
            &&& report.candidate@.decided_at == Some(now@)
            &&& report.candidate@.decided_reason == text_of_string(request.reason)
            &&& report.candidate@.resulting_memory_id == candidate->0@.resulting_memory_id
            &&& says_the_same(report.candidate@, candidate->0@)
            &&& report.dry_run == request.dry_run
        },
{
}

/// A candidate may be approved exactly where it is there and waits for a decision, and,
/// where verdicts are required and it was captured, carries one. Where it was captured
/// and carries none, the approval is degraded.
pub proof fn law_approval_heeds_the_verdict(
    request: CandidateApproveRequest,
    candidate: Option<CandidateRecord>,
    require: bool,
    answer: Result<AdjudicationGuard, Error>,
)
    requires
        call_ensures(approve_candidate, (&request, &candidate, require), answer),
    ensures
        ({
            let there = candidate is Some && candidate->0@.status == "pending"@ && !is_blank(
                request.id@,
            );
            let unjudged = there && candidate->0@.source_type == "capture"@ && !(
            candidate->0@.source_json is Some && json_has(
                candidate->0@.source_json->0,
                "adjudication"@,
            ));
            &&& answer is Ok <==> there && !(require && unjudged)
            &&& answer matches Ok(guard) ==> guard == if unjudged {
                AdjudicationGuard::Degraded
            } else {
                AdjudicationGuard::Clear
            }
        }),
{
}

/// A verdict clears; where there is none, approval is refused where one is required, and
/// degraded otherwise. One is required where the setting is 1, or true in any case.
pub proof fn law_missing_verdicts_weigh(has_verdict: bool, require: bool, guard: AdjudicationGuard)
    requires
        call_ensures(adjudication_guard, (has_verdict, require), guard),
    ensures
        guard == AdjudicationGuard::Clear <==> has_verdict,
        guard == AdjudicationGuard::Refuse <==> !has_verdict && require,
        forall|value: Option<&str>, required: bool| #[trigger]
            call_ensures(requires_adjudication, (value,), required) ==> (required
                <==> value is Some && (value->0@ == "1"@ || crate::text::lower(value->0@)
                == "true"@)),
{
}

/// An approved candidate says so and when, and names the memory that came of it; nothing
/// else about it changes.
pub proof fn law_approval_names_the_memory(
    request: CandidateApproveRequest,
    candidate: CandidateRecord,
    now: &str,
    memory: MemoryRecord,
    report: CandidateApproveReport,
)
    requires
        call_ensures(approved_candidate, (&request, candidate, now, memory), report),
    ensures
        report.candidate@.status == "approved"@,
        report.candidate@.decided_at == Some(now@),
        report.candidate@.decided_reason == candidate@.decided_reason,
        report.candidate@.resulting_memory_id == Some(memory.id@),
        says_the_same(report.candidate@, candidate@),
        report.memory == memory,
        report.dry_run == request.dry_run,
{
}

/// The memory of a candidate says what the candidate says, replaces what it replaces,
/// and is not pinned. Keys that are derived stand in only where the candidate has none.
pub proof fn law_memory_says_what_the_candidate_says(
    candidate: CandidateRecord,
    source_ref: JsonDocument,
    derived_entity: Option<String>,
    derived_claim: Option<String>,
    request: RememberRequest,
)
    requires
        call_ensures(
            remember_request_from_candidate,
            (&candidate, source_ref, derived_entity, derived_claim),
            request,
        ),
    ensures
        request.content@ == candidate@.content,
        text_of_string(request.summary) == candidate@.summary,
        text_of_string(request.space) == candidate@.space,
        text_of_string(request.silo) == candidate@.silo,
        text_of_string(request.scope) == candidate@.scope,
        text_of_string(request.project_key) == candidate@.project,
        text_of_string(request.kind) == candidate@.kind,
        candidate@.entity_key is Some ==> text_of_string(request.entity_key)
            == candidate@.entity_key,
        candidate@.entity_key is None ==> text_of_string(request.entity_key) == text_of_string(
            derived_entity,
        ),
        candidate@.claim_key is Some ==> text_of_string(request.claim_key)
            == candidate@.claim_key,
        candidate@.claim_key is None ==> text_of_string(request.claim_key) == text_of_string(
            derived_claim,
        ),
        request.confidence == candidate@.confidence,
        views(request.tags@) == candidate@.tags,
        views(request.supersedes@) == candidate@.supersedes,
        request.contradicts@.len() == 0,
        request.mode@ == "auto"@,
        !request.pinned && !request.dry_run,
        request.source_ref_json == Some(source_ref),
        request.expires_at is None && request.valid_from is None && request.valid_to is None,
{
}

/// Candidates are listed by status and space as far as those are asked for, the newest
/// first, at least one and at most a hundred at a time.
pub proof fn law_candidates_are_listed_newest_first(
    request: CandidateListRequest,
    plan: CandidateListPlan,
) -> (condition: Seq<char>)
    requires
        call_ensures(list_candidates, (&request,), Ok::<CandidateListPlan, Error>(plan)),
    ensures
        condition == match (request.status is Some, request.space is Some) {
            (true, true) => " WHERE status = :status AND space = :space"@,
            (true, false) => " WHERE status = :status"@,
            (false, true) => " WHERE space = :space"@,
            (false, false) => ""@,
        },
        request.status matches Some(status) ==> status@ == "pending"@ || status@ == "approved"@
            || status@ == "rejected"@ || status@ == "quarantined"@,
        plan.count_sql@ == "SELECT COUNT(*) FROM memory_candidates"@ + condition,
        plan.list_sql@
            == "SELECT "@ + "id, status, space, silo, scope, project, kind, content, summary, rationale, tags_json, entity_key, claim_key, confidence, source_type, source_json, sensitivity, supersedes_json, created_at, decided_at, decided_reason, resulting_memory_id"@
            + " FROM memory_candidates"@ + condition
            + " ORDER BY created_at DESC, id DESC LIMIT :limit OFFSET :offset"@,
        1 <= plan.limit <= 100,
        1 <= request.limit <= 100 ==> plan.limit == request.limit,
        request.limit > 100 ==> plan.limit == 100,
        request.offset <= i64::MAX ==> plan.offset == request.offset,
{
    crate::candidates::candidate_where(request.status is Some, request.space is Some)
}

} // verus!
