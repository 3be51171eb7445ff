//! Recall telemetry.

use vstd::prelude::*;

use crate::error::{invalid, verdict, Error, Fault};
use crate::json::text_of_string;
use crate::ranking::{finite, is_finite, Score};
use crate::text::{is_blank, list_contains, text_eq, trim, views};
use crate::validate::{first_of, limit_i64, refuse_if, refused_if};
use crate::vocabulary::{MAX_METADATA_VALUE_CHARS, MAX_RECALL_EVENTS, MAX_SEARCH_QUERY_CHARS};

verus! {

/// One recall telemetry event: a memory either surfaced in search results or
/// explicitly retrieved by id.
pub struct RecallEvent {
    /// Memory id the event refers to (not required to still exist).
    pub memory_id: String,
    /// Event kind: `surfaced` (appeared in results) or `retrieved` (fetched by id).
    pub kind: String,
    /// Query that surfaced the memory, when applicable.
    pub query: Option<String>,
    /// Result rank, when applicable.
    pub rank: Option<usize>,
    /// Result score, when applicable.
    pub score: Option<Score>,
}

/// Engine-owned recall telemetry write.
pub struct RecallLogRequest {
    /// Recall source label.
    pub source: Option<String>,
    /// Session id, written to every event.
    pub session_id: Option<String>,
    /// Batch id, written to every event.
    pub batch_id: Option<String>,
    /// Retrieval latency in milliseconds.
    pub latency_ms: Option<Score>,
    /// What the latency measured.
    pub latency_source: Option<String>,
    /// Events to record.
    pub events: Vec<RecallEvent>,
    /// Update the access time of retrieved memories.
    pub touch_accessed: bool,
}

/// Result of one recall-log write.
#[derive(Debug, Clone, PartialEq, Eq)]
pub struct RecallLogReport {
    /// Events written.
    pub recorded: usize,
    /// Memories whose access time was updated.
    pub touched: usize,
}

/// Whether an optional text is longer than a limit.
pub open spec fn longer_than(value: Option<Seq<char>>, max: nat) -> bool {
    value is Some && value->0.len() > max
}

fn is_longer_than(value: &Option<String>, max: usize) -> (r: bool)
    ensures
        r == longer_than(text_of_string(*value), max as nat),
{
    match value {
        Some(text) => text.as_str().unicode_len() > max,
        None => false,
    }
}

/// The fault of one recall event.
pub open spec fn event_fault(event: RecallEvent) -> Option<Fault> {
    first_of(
        refused_if(is_blank(event.memory_id@), "recall event memory_id must not be empty"@),
        first_of(
            refused_if(
                event.kind@ != "surfaced"@ && event.kind@ != "retrieved"@,
                "recall event kind must be 'surfaced' or 'retrieved'"@,
            ),
            first_of(
                refused_if(
                    longer_than(text_of_string(event.query), MAX_SEARCH_QUERY_CHARS as nat),
                    "recall event query is too long"@,
                ),
                refused_if(
                    event.score is Some && !finite(event.score->0),
                    "recall event score must be finite"@,
                ),
            ),
        ),
    )
}

/// The first fault among recall events.
pub open spec fn events_fault(events: Seq<RecallEvent>) -> Option<Fault>
    decreases events.len(),
{
    if events.len() == 0 {
        None
    } else {
        first_of(events_fault(events.drop_last()), event_fault(events.last()))
    }
}

/// The first fault of a recall-log write.
pub open spec fn recall_fault(request: RecallLogRequest) -> Option<Fault> {
    first_of(
        refused_if(request.events@.len() == 0, "recall-log requires at least one event"@),
        first_of(
            refused_if(
                request.events@.len() > MAX_RECALL_EVENTS,
                "recall-log accepts at most 100 events"@,
            ),
            first_of(
                refused_if(
                    longer_than(text_of_string(request.source), MAX_METADATA_VALUE_CHARS as nat),
                    "recall-log source is too long"@,
                ),
                first_of(
                    refused_if(
                        longer_than(
                            text_of_string(request.session_id),
                            MAX_METADATA_VALUE_CHARS as nat,
                        ),
                        "recall-log session_id exceeds maximum length"@,
                    ),
                    first_of(
                        refused_if(
                            longer_than(
                                text_of_string(request.batch_id),
                                MAX_METADATA_VALUE_CHARS as nat,
                            ),
                            "recall-log batch_id exceeds maximum length"@,
                        ),
                        first_of(
                            refused_if(
                                request.latency_ms is Some && (!finite(request.latency_ms->0)
                                    || request.latency_ms->0.key < 0),
                                "recall-log latency_ms must be finite and non-negative"@,
                            ),
                            first_of(
                                refused_if(
                                    longer_than(
                                        text_of_string(request.latency_source),
                                        MAX_METADATA_VALUE_CHARS as nat,
                                    ),
                                    "recall-log latency_source exceeds maximum length"@,
                                ),
                                events_fault(request.events@),
                            ),
                        ),
                    ),
                ),
            ),
        ),
    )
}

fn validate_event(event: &RecallEvent) -> (r: Result<(), Error>)
    ensures
        verdict(r) == event_fault(*event),
{
    if trim(event.memory_id.as_str()).is_empty() {
        return Err(invalid("recall event memory_id must not be empty"));
    }
    if !(text_eq(event.kind.as_str(), "surfaced") || text_eq(event.kind.as_str(), "retrieved")) {
        return Err(invalid("recall event kind must be 'surfaced' or 'retrieved'"));
    }
    if is_longer_than(&event.query, MAX_SEARCH_QUERY_CHARS) {
        return Err(invalid("recall event query is too long"));
    }
    match event.score {
        Some(score) => refuse_if(!is_finite(score), "recall event score must be finite"),
        None => Ok(()),
    }
}

proof fn lemma_events_fault_prefix(events: Seq<RecallEvent>, n: int)
    requires
        0 <= n <= events.len(),
        events_fault(events.take(n)) is Some,
    ensures
        events_fault(events) == events_fault(events.take(n)),
    decreases events.len() - n,
{
    if n == events.len() {
        assert(events.take(n) =~= events);
    } else {
        assert(events.take(n + 1).drop_last() =~= events.take(n));
        lemma_events_fault_prefix(events, n + 1);
    }
}

fn validate_events(events: &Vec<RecallEvent>) -> (r: Result<(), Error>)
    ensures
        verdict(r) == events_fault(events@),
{
    assert(events@.take(0) =~= Seq::empty());
    for i in 0..events.len()
        invariant
            events_fault(events@.take(i as int)) is None,
    {
        proof {
            assert(events@.take(i + 1).drop_last() =~= events@.take(i as int));
            assert(events@.take(i + 1).last() == events@[i as int]);
        }
        if let Err(e) = validate_event(&events[i]) {
            proof {
                lemma_events_fault_prefix(events@, i + 1);
            }
            return Err(e);
        }
    }
    assert(events@.take(events@.len() as int) =~= events@);
    Ok(())
}

/// Checks a recall-log write.
pub fn validate_recall_log_request(request: &RecallLogRequest) -> (r: Result<(), Error>)
    ensures
        verdict(r) == recall_fault(*request),
{
    if request.events.len() == 0 {
        return Err(invalid("recall-log requires at least one event"));
    }
    if request.events.len() > MAX_RECALL_EVENTS {
        return Err(invalid("recall-log accepts at most 100 events"));
    }
    if is_longer_than(&request.source, MAX_METADATA_VALUE_CHARS) {
        return Err(invalid("recall-log source is too long"));
    }
    if is_longer_than(&request.session_id, MAX_METADATA_VALUE_CHARS) {
        return Err(invalid("recall-log session_id exceeds maximum length"));
    }
    if is_longer_than(&request.batch_id, MAX_METADATA_VALUE_CHARS) {
        return Err(invalid("recall-log batch_id exceeds maximum length"));
    }
    if let Some(latency) = request.latency_ms {
        if !is_finite(latency) || latency.key < 0 {
            return Err(invalid("recall-log latency_ms must be finite and non-negative"));
        }
    }
    if is_longer_than(&request.latency_source, MAX_METADATA_VALUE_CHARS) {
        return Err(invalid("recall-log latency_source exceeds maximum length"));
    }
    validate_events(&request.events)
}

/// Whether an event updates the access time of its memory.
pub open spec fn touches(request: RecallLogRequest, index: int) -> bool {
    request.touch_accessed && request.events@[index].kind@ == "retrieved"@
}

/// The memories that the first `n` events touch, each once: those of the store whose
/// access time an event updates.
pub open spec fn touched_ids(
    request: RecallLogRequest,
    stored: Seq<Seq<char>>,
    n: nat,
) -> Seq<Seq<char>>
    decreases n,
{
    if n == 0 {
        Seq::empty()
    } else {
        let before = touched_ids(request, stored, (n - 1) as nat);
        let id = request.events@[n - 1].memory_id@;
        if touches(request, n - 1) && stored.contains(id) && !before.contains(id) {
            before.push(id)
        } else {
            before
        }
    }
}

/// Whether some event has a rank that the store cannot hold.
pub open spec fn rank_overflows(events: Seq<RecallEvent>) -> bool {
    exists|i: int|
        0 <= i < events.len() && (#[trigger] events[i]).rank is Some && events[i].rank->0 > i64::MAX
}

/// What one recall-log write does: for each event whether its memory is touched.
pub fn plan_recall(request: &RecallLogRequest) -> (r: Result<Vec<bool>, Error>)
    ensures
        match r {
            Ok(touched) => {
                &&& recall_fault(*request) is None
                &&& !rank_overflows(request.events@)
                &&& touched@.len() == request.events@.len()
                &&& forall|i: int|
                    0 <= i < touched@.len() ==> #[trigger] touched@[i] == touches(*request, i)
            },
            Err(e) => first_of(
                recall_fault(*request),
                refused_if(rank_overflows(request.events@), "limit overflowed i64"@),
            ) == Some(e@),
        },
{
    if let Err(e) = validate_recall_log_request(request) {
        return Err(e);
    }
    let mut out: Vec<bool> = Vec::new();
    for i in 0..request.events.len()
        invariant
            recall_fault(*request) is None,
            out@.len() == i,
            forall|k: int| 0 <= k < out@.len() ==> #[trigger] out@[k] == touches(*request, k),
            forall|k: int|
                0 <= k < i ==> !((#[trigger] request.events@[k]).rank is Some
                    && request.events@[k].rank->0 > i64::MAX),
    {
        if let Some(rank) = request.events[i].rank {
            if let Err(e) = limit_i64(rank) {
                assert(request.events@[i as int].rank->0 > i64::MAX);
                return Err(e);
            }
        }
        let touch: bool = request.touch_accessed && text_eq(
            request.events[i].kind.as_str(),
            "retrieved",
        );
        out.push(touch);
    }
    Ok(out)
}

/// The result of a recall-log write, given the ids of the memories of the store.
pub fn record_recall(request: &RecallLogRequest, stored: &Vec<String>) -> (r: RecallLogReport)
    ensures
        r.recorded == request.events@.len(),
        r.touched == touched_ids(*request, views(stored@), request.events@.len()).len(),
{
    let mut touched: Vec<String> = Vec::new();
    assert(views(touched@) =~= Seq::empty());
    for i in 0..request.events.len()
        invariant
            views(touched@) == touched_ids(*request, views(stored@), i as nat),
    {
        let event = &request.events[i];
        if request.touch_accessed && text_eq(event.kind.as_str(), "retrieved") && list_contains(
            stored.as_slice(),
            event.memory_id.as_str(),
        ) && !list_contains(touched.as_slice(), event.memory_id.as_str()) {
            let ghost before = touched@;
            touched.push(event.memory_id.clone());
            assert(views(touched@) =~= views(before).push(event.memory_id@));
        }
    }
    assert(views(touched@).len() == touched@.len());
    RecallLogReport { recorded: request.events.len(), touched: touched.len() }
}

/// Each memory is touched once at most, and only where the store has it and an event
/// asks for it: no more memories are touched than events were recorded, and none at
/// all where no touch was asked for.
pub proof fn law_recall_touches_are_bounded(
    request: RecallLogRequest,
    stored: Seq<Seq<char>>,
    n: nat,
)
    ensures
        touched_ids(request, stored, n).no_duplicates(),
        touched_ids(request, stored, n).len() <= n,
        forall|id: Seq<char>|
            touched_ids(request, stored, n).contains(id) ==> #[trigger] stored.contains(id),
        !request.touch_accessed ==> touched_ids(request, stored, n).len() == 0,
    decreases n,
{
    if n > 0 {
        law_recall_touches_are_bounded(request, stored, (n - 1) as nat);
        let before = touched_ids(request, stored, (n - 1) as nat);
        let id = request.events@[n - 1].memory_id@;
        assert forall|t: Seq<char>| touched_ids(
            request,
            stored,
            n,
        ).contains(t) implies #[trigger] stored.contains(t) by {
            crate::order::lemma_push_contains(before, id, t);
        }
    }
}

} // verus!
