//! What reading, forgetting, verifying and replacing memories, and logging their recall,
//! promise.

use vstd::prelude::*;

use crate::error::{Error, Fault};
use crate::json::{json_text, text_of_string};
use crate::memory::{
    forget_memory, get_memory, memory_history, shown_versions, verify_memory, ForgetFacts,
    ForgetPlan, ForgetRequest, GetOptions, HistoryOptions, HistoryReport, MemoryRecord,
    MemoryVersionRecord, StoredHistory, StoredMemory, VerifyPlan, VerifyRequest,
};
use crate::recall::{
    event_fault, events_fault, plan_recall, record_recall, touched_ids, touches, RecallEvent,
    RecallLogReport, RecallLogRequest,
};
use crate::supersession::{find_state, superseded_one, StateModel};
use crate::text::{is_blank, views};

verus! {

/// Whether a version is shown as it is stored, with its source or without.
pub open spec fn shows_version(
    shown: MemoryVersionRecord,
    stored: MemoryVersionRecord,
    with_source: bool,
) -> bool {
    &&& shown.id == stored.id
    &&& shown.version_num == stored.version_num
    &&& shown.content == stored.content
    &&& shown.summary == stored.summary
    &&& shown.retrieval_representation == stored.retrieval_representation
    &&& shown.content_sha256 == stored.content_sha256
    &&& shown.created_at == stored.created_at
    &&& shown.source_ref_json == if with_source {
        stored.source_ref_json
    } else {
        None::<String>
    }
}

/// A memory is shown exactly where it is stored and its id says something. What is not
/// about its source is shown as it is stored; its source, its history and its links are
/// shown where they are asked for, and only there.
pub proof fn law_reading_shows_what_is_asked_for(
    id: &str,
    stored: Option<StoredMemory>,
    options: GetOptions,
    answer: Result<MemoryRecord, Error>,
)
    requires
        call_ensures(get_memory, (id, stored, options), answer),
    ensures
        answer is Ok <==> stored is Some && !is_blank(id@),
        answer matches Ok(record) ==> {
            let kept = stored->0.record;
            &&& record.id == kept.id && record.content == kept.content
            &&& record.status == kept.status && record.pinned == kept.pinned
            &&& record.space == kept.space && record.silo == kept.silo
            &&& record.kind == kept.kind && record.tags == kept.tags
            &&& record.entity_key == kept.entity_key && record.claim_key == kept.claim_key
            &&& record.confidence == kept.confidence && record.observed_at == kept.observed_at
            &&& record.metadata_json == kept.metadata_json
            &&& record.source_ref_json == if options.include_source {
                kept.source_ref_json
            } else {
                None::<String>
            }
            &&& record.source_episode_id == if options.include_source {
                kept.source_episode_id
            } else {
                None::<String>
            }
            &&& record.versions is Some <==> options.include_history
            &&& record.events is Some <==> options.include_history
            &&& record.links is Some <==> options.include_links
            &&& options.include_history ==> record.events->0 == stored->0.events
            &&& options.include_links ==> record.links->0 == stored->0.links
            &&& options.include_history ==> record.versions->0@.len()
                == stored->0.versions@.len() && forall|i: int|
                0 <= i < record.versions->0@.len() ==> shows_version(
                    #[trigger] record.versions->0@[i],
                    stored->0.versions@[i],
                    options.include_source,
                )
        },
{
}

/// The history of a memory is told exactly where it is stored and a page of it is asked
/// for; it is told as it is stored, with sources only where they are asked for, and says
/// whether there is more.
pub proof fn law_history_is_told_as_stored(
    id: &str,
    options: HistoryOptions,
    stored: Option<StoredHistory>,
    answer: Result<HistoryReport, Error>,
)
    requires
        call_ensures(memory_history, (id, options, stored), answer),
    ensures
        answer is Ok <==> stored is Some && !is_blank(id@) && 1 <= options.limit <= 500,
        answer matches Ok(report) ==> {
            &&& report.memory_id@ == id@
            &&& report.current_status == stored->0.status
            &&& report.events == stored->0.events
            &&& report.versions@.len() == stored->0.versions@.len()
            &&& forall|i: int|
                0 <= i < report.versions@.len() ==> shows_version(
                    #[trigger] report.versions@[i],
                    stored->0.versions@[i],
                    options.include_source,
                )
            &&& report.truncated <==> stored->0.total_events > report.events@.len()
                || stored->0.total_versions > report.versions@.len()
        },
{
}

/// A memory is forgotten exactly where it is stored and was not forgotten before, and
/// the memory that corrects it, where one is named, is stored. It becomes a tombstone
/// from now on, and the event says whether it was corrected or forgotten.
pub proof fn law_forgetting_leaves_a_tombstone(
    request: ForgetRequest,
    facts: ForgetFacts,
    plan: ForgetPlan,
)
    requires
        call_ensures(forget_memory, (&request, &facts), Ok::<ForgetPlan, Error>(plan)),
    ensures
        !is_blank(request.id@),
        request.reason matches Some(reason) ==> reason@.len() <= 2048,
        facts.status matches Some(status) && status@ != "tombstoned"@ && plan.report.old_status@
            == status@,
        request.corrected_by is Some ==> facts.corrected_by_exists,
        plan.report.memory_id@ == request.id@,
        plan.report.new_status@ == "tombstoned"@,
        plan.deleted_at@ == facts.now@,
        plan.report.event_id@ == facts.event_id@,
        plan.report.dry_run == request.dry_run,
        request.mode@ == "correct"@ ==> plan.event_type@ == "correct"@,
        request.mode@ != "correct"@ ==> plan.event_type@ == "forget"@,
        text_of_string(plan.reason) == text_of_string(request.reason),
        text_of_string(plan.contradicted_by) == text_of_string(request.corrected_by),
{
}

/// Forgetting is refused only where the memory is not stored, was forgotten before, is
/// corrected by one that is not stored, or the request is out of bounds.
pub proof fn law_forgetting_is_refused_for_cause(
    request: ForgetRequest,
    facts: ForgetFacts,
    error: Error,
)
    requires
        call_ensures(forget_memory, (&request, &facts), Err::<ForgetPlan, Error>(error)),
    ensures
        ({
            ||| is_blank(request.id@)
            ||| request.reason is Some && request.reason->0@.len() > 2048
            ||| request.corrected_by is Some && crate::validate::metadata_fault(
                "corrected_by"@,
                Some(request.corrected_by->0@),
            ) is Some
            ||| facts.status is None && error@ == Fault::NotFound("memory"@, request.id@)
            ||| facts.status is Some && facts.status->0@ == "tombstoned"@
            ||| request.corrected_by is Some && !facts.corrected_by_exists && error@
                == Fault::NotFound("memory"@, request.corrected_by->0@)
        }),
{
}

/// A verified memory says when it was verified, and against what where that is given:
/// at the time that the request names, or now.
pub proof fn law_verification_is_recorded(
    request: VerifyRequest,
    now: &str,
    stored: Option<Option<String>>,
    plan: VerifyPlan,
)
    requires
        call_ensures(verify_memory, (&request, now, &stored), Ok::<VerifyPlan, Error>(plan)),
    ensures
        stored is Some,
        !is_blank(request.memory_id@),
        plan.report.memory_id@ == request.memory_id@,
        request.now is None ==> plan.report.verified_at@ == now@,
        request.now matches Some(at) ==> plan.report.verified_at@
            == crate::validate::to_milliseconds(at@),
        json_text(plan.metadata_json@, "verified_at"@) == Some(plan.report.verified_at@),
        request.verified_against matches Some(source) ==> json_text(
            plan.metadata_json@,
            "verified_against"@,
        ) == Some(source@),
{
}

proof fn lemma_found(table: Seq<StateModel>, id: Seq<char>, space: Seq<char>)
    ensures
        match find_state(table, id, space) {
            Some(i) => 0 <= i < table.len() && table[i].id == id && table[i].space == space,
            None => forall|k: int|
                0 <= k < table.len() ==> !((#[trigger] table[k]).id == id && table[k].space
                    == space),
        },
    decreases table.len(),
{
    if table.len() > 0 {
        lemma_found(table.drop_last(), id, space);
        if find_state(table, id, space) is None {
            assert forall|k: int| 0 <= k < table.len() implies !((#[trigger] table[k]).id == id
                && table[k].space == space) by {
                if k < table.len() - 1 {
                    assert(table.drop_last()[k] == table[k]);
                }
            }
        }
    }
}

/// A memory is replaced exactly where it is in the space, active and not pinned. It
/// becomes superseded and keeps what else it has, and no other memory changes.
pub proof fn law_replacement_changes_one_status(
    table: Seq<StateModel>,
    space: Seq<char>,
    id: Seq<char>,
)
    ensures
        match superseded_one(table, space, id) {
            Ok(after) => {
                &&& after.len() == table.len()
                &&& exists|i: int|
                    {
                        &&& 0 <= i < table.len()
                        &&& (#[trigger] table[i]).id == id && table[i].space == space
                        &&& table[i].status == "active"@ && !table[i].pinned
                        &&& after[i].status == "superseded"@
                        &&& after[i].id == id && after[i].space == space && !after[i].pinned
                        &&& forall|k: int|
                            0 <= k < table.len() && k != i ==> #[trigger] after[k] == table[k]
                    }
            },
            Err(_) => {
                ||| forall|k: int|
                    0 <= k < table.len() ==> !((#[trigger] table[k]).id == id && table[k].space
                        == space)
                ||| exists|k: int|
                    0 <= k < table.len() && (#[trigger] table[k]).id == id && table[k].space
                        == space && (table[k].status != "active"@ || table[k].pinned)
            },
        },
{
    lemma_found(table, id, space);
    if let Some(i) = find_state(table, id, space) {
        assert(table[i].id == id);
    }
}

proof fn lemma_event_ok(events: Seq<RecallEvent>, i: int)
    requires
        events_fault(events) is None,
        0 <= i < events.len(),
    ensures
        event_fault(events[i]) is None,
    decreases events.len(),
{
    if i < events.len() - 1 {
        lemma_event_ok(events.drop_last(), i);
    }
}

/// Recall is logged for at least one and at most a hundred events, each of a memory that
/// is named, surfaced or retrieved. A memory counts as accessed for an event exactly
/// where the log asks for that and the memory was retrieved.
pub proof fn law_recall_counts_retrieval(request: RecallLogRequest, touched: Vec<bool>)
    requires
        call_ensures(plan_recall, (&request,), Ok::<Vec<bool>, Error>(touched)),
    ensures
        1 <= request.events@.len() <= 100,
        touched@.len() == request.events@.len(),
        forall|i: int|
            0 <= i < request.events@.len() ==> !is_blank(
                (#[trigger] request.events@[i]).memory_id@,
            ) && (request.events@[i].kind@ == "surfaced"@ || request.events@[i].kind@
                == "retrieved"@),
        forall|i: int|
            0 <= i < touched@.len() ==> (#[trigger] touched@[i] <==> request.touch_accessed
                && request.events@[i].kind@ == "retrieved"@),
        request.latency_ms matches Some(latency) ==> latency.key >= 0,
{
    assert forall|i: int| 0 <= i < request.events@.len() implies !is_blank(
        (#[trigger] request.events@[i]).memory_id@,
    ) && (request.events@[i].kind@ == "surfaced"@ || request.events@[i].kind@ == "retrieved"@) by {
        lemma_event_ok(request.events@, i);
    }
}

/// Whether a memory counts as accessed by one of the first `n` events.
pub open spec fn is_accessed(
    request: RecallLogRequest,
    stored: Seq<Seq<char>>,
    n: nat,
    id: Seq<char>,
) -> bool {
    exists|i: int|
        0 <= i < n && (#[trigger] request.events@[i]).memory_id@ == id && request.touch_accessed
            && request.events@[i].kind@ == "retrieved"@ && stored.contains(id)
}

proof fn lemma_touched(request: RecallLogRequest, stored: Seq<Seq<char>>, n: nat)
    requires
        n <= request.events@.len(),
    ensures
        forall|id: Seq<char>| #[trigger]
            touched_ids(request, stored, n).contains(id) <==> is_accessed(request, stored, n, id),
        touched_ids(request, stored, n).no_duplicates(),
    decreases n,
{
    if n > 0 {
        lemma_touched(request, stored, (n - 1) as nat);
        let before = touched_ids(request, stored, (n - 1) as nat);
        let after = touched_ids(request, stored, n);
        let last = request.events@[n - 1].memory_id@;
        assert forall|id: Seq<char>| #[trigger]
            after.contains(id) <==> is_accessed(request, stored, n, id) by {
            if after.len() > before.len() {
                crate::order::lemma_push_contains(before, last, id);
            }
            assert(before.contains(id) <==> is_accessed(request, stored, (n - 1) as nat, id));
            if is_accessed(request, stored, (n - 1) as nat, id) {
                let i = choose|i: int|
                    0 <= i < n - 1 && (#[trigger] request.events@[i]).memory_id@ == id
                        && request.touch_accessed && request.events@[i].kind@ == "retrieved"@
                        && stored.contains(id);
                assert(request.events@[i].memory_id@ == id);
            }
        }
    }
}

/// Every event is recorded. As many memories are touched as are stored and count as
/// accessed by some event; each counts once.
pub proof fn law_recall_touches_each_memory_once(
    request: RecallLogRequest,
    stored: Vec<String>,
    report: RecallLogReport,
) -> (ids: Seq<Seq<char>>)
    requires
        call_ensures(record_recall, (&request, &stored), report),
    ensures
        report.recorded == request.events@.len(),
        report.touched == ids.len(),
        ids.no_duplicates(),
        forall|id: Seq<char>| #[trigger]
            ids.contains(id) <==> is_accessed(
                request,
                views(stored@),
                request.events@.len(),
                id,
            ),
{
    lemma_touched(request, views(stored@), request.events@.len());
    touched_ids(request, views(stored@), request.events@.len())
}

} // verus!
