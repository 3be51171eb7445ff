//! Reading, forgetting, verifying and auditing one memory.

use vstd::prelude::*;

use crate::error::{concat3, conflict2, invalid, not_found, verdict, Error, Fault};
use crate::json::{
    as_text, bool_json, bool_text, is_named, json_bool, json_fault, json_has, json_merge,
    json_member, json_member_text, json_merged, json_number, json_object, json_quoted,
    json_string_for_store, json_text, member_kept, member_names, member_texts, object_text,
    pair_views, text_of, text_of_string, JsonMember,
};
use crate::pool::clone_text;
use crate::ranking::Score;
use crate::representation::MemoryRepresentationRecord;
use crate::text::{
    begins_with, is_blank, joined, list_contains, strip_prefix, text_eq, trim, views,
};
use crate::validate::{
    first_of, metadata_fault, normalize_utc_timestamp, refuse_if, refused_if, timestamp_fault,
    to_milliseconds, validate_optional_metadata_value, validate_optional_timestamp,
};
use crate::vocabulary::{MAX_FORGET_REASON_CHARS, MAX_HISTORY_LIMIT, STATUS_TOMBSTONED};

verus! {

/// One stored version of a memory.
pub struct MemoryVersionRecord {
    /// Version id.
    pub id: String,
    /// Number, from one.
    pub version_num: i64,
    /// Content.
    pub content: String,
    /// Summary.
    pub summary: Option<String>,
    /// Alternate text.
    pub retrieval_representation: Option<MemoryRepresentationRecord>,
    /// Digest of the content.
    pub content_sha256: String,
    /// When it was made.
    pub created_at: String,
    /// Source reference.
    pub source_ref_json: Option<String>,
}

/// One event in the life of a memory.
pub struct MemoryEventRecord {
    /// Event id.
    pub id: String,
    /// What happened.
    pub event_type: String,
    /// Status before.
    pub old_status: Option<String>,
    /// Status after.
    pub new_status: Option<String>,
    /// Why.
    pub reason: Option<String>,
    /// When.
    pub created_at: String,
}

/// One link of a memory.
pub struct MemoryLinkRecord {
    /// Where it starts.
    pub src_memory_id: String,
    /// Where it ends.
    pub dst_memory_id: String,
    /// What it says.
    pub link_type: String,
    /// Status.
    pub status: String,
    /// Confidence.
    pub confidence: Score,
}

/// A memory as returned.
pub struct MemoryRecord {
    /// Memory id.
    pub id: String,
    /// Active version.
    pub version_id: String,
    /// Space.
    pub space: String,
    /// Silo.
    pub silo: String,
    /// Scope.
    pub scope: String,
    /// Project key.
    pub project_key: Option<String>,
    /// Kind.
    pub kind: String,
    /// Entity key.
    pub entity_key: Option<String>,
    /// Claim key.
    pub claim_key: Option<String>,
    /// Status.
    pub status: String,
    /// Confidence.
    pub confidence: Score,
    /// Whether it is protected.
    pub pinned: bool,
    /// Source episode, when requested.
    pub source_episode_id: Option<String>,
    /// Observation time.
    pub observed_at: String,
    /// When it was stored.
    pub created_at: String,
    /// When it was last changed.
    pub updated_at: String,
    /// Start of validity.
    pub valid_from: Option<String>,
    /// End of validity.
    pub valid_to: Option<String>,
    /// Expiry.
    pub expires_at: Option<String>,
    /// When it was forgotten.
    pub deleted_at: Option<String>,
    /// Content.
    pub content: String,
    /// Summary.
    pub summary: Option<String>,
    /// Alternate text.
    pub retrieval_representation: Option<MemoryRepresentationRecord>,
    /// Digest of the content.
    pub content_sha256: String,
    /// Source reference, when requested.
    pub source_ref_json: Option<String>,
    /// Metadata.
    pub metadata_json: Option<String>,
    /// Tags.
    pub tags: Vec<String>,
    /// Versions, when requested.
    pub versions: Option<Vec<MemoryVersionRecord>>,
    /// Events, when requested.
    pub events: Option<Vec<MemoryEventRecord>>,
    /// Links, when requested.
    pub links: Option<Vec<MemoryLinkRecord>>,
}

/// What to return of a memory.
#[derive(Debug, Clone, Copy)]
pub struct GetOptions {
    /// Versions and events.
    pub include_history: bool,
    /// Links.
    pub include_links: bool,
    /// Source reference and episode.
    pub include_source: bool,
}

/// What the store holds of one memory. The lists of the record are not used.
pub struct StoredMemory {
    /// The memory with all of its fields.
    pub record: MemoryRecord,
    /// Its versions.
    pub versions: Vec<MemoryVersionRecord>,
    /// Its events.
    pub events: Vec<MemoryEventRecord>,
    /// Its links.
    pub links: Vec<MemoryLinkRecord>,
}

/// A version without its source reference.
pub open spec fn without_source(version: MemoryVersionRecord) -> MemoryVersionRecord {
    MemoryVersionRecord { source_ref_json: None, ..version }
}

/// Versions as returned.
pub open spec fn shown_versions(list: Seq<MemoryVersionRecord>, include_source: bool) -> Seq<
    MemoryVersionRecord,
> {
    if include_source {
        list
    } else {
        list.map_values(|v: MemoryVersionRecord| without_source(v))
    }
}

fn hide_sources(versions: &mut Vec<MemoryVersionRecord>)
    ensures
        final(versions)@ == shown_versions(old(versions)@, false),
{
    let ghost start = versions@;
    let n: usize = versions.len();
    for i in 0..n
        invariant
            n == start.len(),
            versions@.len() == n,
            forall|k: int| 0 <= k < i ==> #[trigger] versions@[k] == without_source(start[k]),
            forall|k: int| i <= k < n ==> #[trigger] versions@[k] == start[k],
    {
        let slot = &mut versions[i];
        slot.source_ref_json = None;
    }
    assert(versions@ =~= shown_versions(start, false));
}

/// Whether a record is a stored memory as the options show it.
pub open spec fn shown_memory(
    record: MemoryRecord,
    stored: StoredMemory,
    options: GetOptions,
) -> bool {
    &&& record == (MemoryRecord {
        source_episode_id: if options.include_source {
            stored.record.source_episode_id
        } else {
            None
        },
        source_ref_json: if options.include_source {
            stored.record.source_ref_json
        } else {
            None
        },
        versions: record.versions,
        events: record.events,
        links: record.links,
        ..stored.record
    })
    &&& match record.versions {
        Some(list) => options.include_history && list@ == shown_versions(
            stored.versions@,
            options.include_source,
        ),
        None => !options.include_history,
    }
    &&& match record.events {
        Some(list) => options.include_history && list == stored.events,
        None => !options.include_history,
    }
    &&& match record.links {
        Some(list) => options.include_links && list == stored.links,
        None => !options.include_links,
    }
}

/// Returns one memory by id, with as much of it as the options ask for.
pub fn get_memory(id: &str, stored: Option<StoredMemory>, options: GetOptions) -> (r: Result<
    MemoryRecord,
    Error,
>)
    ensures
        match r {
            Ok(record) => !is_blank(id@) && stored is Some && shown_memory(
                record,
                stored->0,
                options,
            ),
            Err(e) => e@ == if is_blank(id@) {
                Fault::InvalidRequest("memory id must not be empty"@)
            } else {
                Fault::NotFound("memory"@, id@)
            } && (is_blank(id@) || stored is None),
        },
{
    if trim(id).is_empty() {
        return Err(invalid("memory id must not be empty"));
    }
    match stored {
        None => Err(not_found("memory", id)),
        Some(found) => {
            let mut record = found.record;
            let mut versions = found.versions;
            if !options.include_source {
                record.source_episode_id = None;
                record.source_ref_json = None;
                hide_sources(&mut versions);
            }
            if options.include_history {
                record.versions = Some(versions);
                record.events = Some(found.events);
            } else {
                record.versions = None;
                record.events = None;
            }
            record.links = if options.include_links {
                Some(found.links)
            } else {
                None
            };
            Ok(record)
        },
    }
}

/// A request to forget a memory.
pub struct ForgetRequest {
    /// Memory id.
    pub id: String,
    /// Why.
    pub reason: Option<String>,
    /// How: `correct` records a correction.
    pub mode: String,
    /// The memory that takes its place.
    pub corrected_by: Option<String>,
    /// Whether it is only tried.
    pub dry_run: bool,
}

/// What forgetting has to know of the store.
pub struct ForgetFacts {
    /// The time.
    pub now: String,
    /// The id of the event.
    pub event_id: String,
    /// The status of the memory, where it exists.
    pub status: Option<String>,
    /// Its tags in ascending order.
    pub tags: Vec<String>,
    /// Whether the memory that takes its place exists.
    pub corrected_by_exists: bool,
}

/// The result of forgetting a memory.
pub struct ForgetReport {
    /// Memory id.
    pub memory_id: String,
    /// Status before.
    pub old_status: String,
    /// Status after.
    pub new_status: String,
    /// The event.
    pub event_id: String,
    /// Whether it was only tried.
    pub dry_run: bool,
}

/// What forgetting puts into the store and reports.
pub struct ForgetPlan {
    /// What the event says.
    pub event_type: &'static str,
    /// Data of the event.
    pub data_json: String,
    /// Reason in the event.
    pub reason: Option<String>,
    /// Time of the deletion and of the event.
    pub deleted_at: String,
    /// The memory that contradicts the forgotten one from now on.
    pub contradicted_by: Option<String>,
    /// The report.
    pub report: ForgetReport,
}

/// The event data of a plain forgetting.
pub open spec fn forget_data(dry_run: bool, mode: Seq<char>) -> Seq<char> {
    "{\"dry_run\":"@ + bool_text(dry_run) + ",\"mode\":"@ + json_quoted(mode) + "}"@
}

/// Writes the event data of a plain forgetting.
pub fn forget_event_data_json(dry_run: bool, mode: &str) -> (r: String)
    ensures
        r@ == forget_data(dry_run, mode@),
{
    let quoted = json_string_for_store(mode);
    let mut out = "{\"dry_run\":".to_owned();
    out.append(bool_json(dry_run));
    out.append(",\"mode\":");
    out.append(quoted.as_str());
    out.append("}");
    out
}

/// The session that tags name: the rest of the first tag that starts with
/// `session:`.
pub open spec fn session_of(tags: Seq<Seq<char>>) -> Option<Seq<char>>
    decreases tags.len(),
{
    if tags.len() == 0 {
        None
    } else if begins_with(tags[0], "session:"@) {
        Some(tags[0].skip("session:"@.len() as int))
    } else {
        session_of(tags.skip(1))
    }
}

fn find_session(tags: &Vec<String>) -> (r: Option<String>)
    ensures
        text_of_string(r) == session_of(views(tags@)),
{
    let ghost all = views(tags@);
    assert(all.skip(0) =~= all);
    for i in 0..tags.len()
        invariant
            all == views(tags@),
            session_of(all) == session_of(all.skip(i as int)),
    {
        assert(all.skip(i as int)[0] == tags@[i as int]@);
        assert(all.skip(i as int).skip(1) =~= all.skip(i + 1));
        if let Some(rest) = strip_prefix(tags[i].as_str(), "session:") {
            return Some(rest.to_owned());
        }
    }
    assert(all.skip(tags@.len() as int).len() == 0);
    None
}

/// A text as a JSON value; null where there is none.
pub open spec fn text_json(value: Option<Seq<char>>) -> Seq<char> {
    match value {
        Some(text) => json_quoted(text),
        None => "null"@,
    }
}

/// The event data of a correction: where the wrong memory came from, and what
/// takes its place.
pub open spec fn correction_data(
    dry_run: bool,
    mode: Seq<char>,
    corrected_by: Option<Seq<char>>,
    tags: Seq<Seq<char>>,
) -> Seq<char> {
    seq!['{'] + joined(
        seq![
            json_quoted("corrected_by"@) + seq![':'] + text_json(corrected_by),
            json_quoted("dry_run"@) + seq![':'] + bool_text(dry_run),
            json_quoted("mode"@) + seq![':'] + json_quoted(mode),
            json_quoted("session"@) + seq![':'] + text_json(session_of(tags)),
            json_quoted("synthesis_derived"@) + seq![':'] + bool_text(
                tags.contains("synthesis-derived"@),
            ),
        ],
        seq![','],
    ) + seq!['}']
}

/// Writes the event data of a correction.
pub fn correction_event_data_json(
    dry_run: bool,
    mode: &str,
    corrected_by: Option<&str>,
    tags: &Vec<String>,
) -> (r: String)
    ensures
        r@ == correction_data(dry_run, mode@, text_of(corrected_by), views(tags@)),
{
    let derived: bool = list_contains(tags.as_slice(), "synthesis-derived");
    let session = match find_session(tags) {
        Some(name) => JsonMember::Text(name),
        None => JsonMember::Null,
    };
    let replacement = match corrected_by {
        Some(id) => JsonMember::Text(id.to_owned()),
        None => JsonMember::Null,
    };
    let mut members: Vec<(String, JsonMember)> = Vec::new();
    members.push(("corrected_by".to_owned(), replacement));
    members.push(("dry_run".to_owned(), JsonMember::Bool(dry_run)));
    members.push(("mode".to_owned(), JsonMember::Text(mode.to_owned())));
    members.push(("session".to_owned(), session));
    members.push(("synthesis_derived".to_owned(), JsonMember::Bool(derived)));
    proof {
        reveal_strlit("corrected_by");
        reveal_strlit("dry_run");
        reveal_strlit("mode");
        reveal_strlit("session");
        reveal_strlit("synthesis_derived");
        let names = member_names(members@);
        assert(names.len() == 5);
        assert forall|i: int, j: int| 0 <= i < j < names.len() implies crate::order::text_less(
            #[trigger] names[i],
            #[trigger] names[j],
        ) by {
            if i == 3 {
                crate::order::lemma_less_at(names[i], names[j], 1);
            } else {
                crate::order::lemma_less_at(names[i], names[j], 0);
            }
        }
        assert(member_texts(members@) =~= seq![
            json_quoted("corrected_by"@) + seq![':'] + text_json(text_of(corrected_by)),
            json_quoted("dry_run"@) + seq![':'] + bool_text(dry_run),
            json_quoted("mode"@) + seq![':'] + json_quoted(mode@),
            json_quoted("session"@) + seq![':'] + text_json(session_of(views(tags@))),
            json_quoted("synthesis_derived"@) + seq![':'] + bool_text(
                views(tags@).contains("synthesis-derived"@),
            ),
        ]);
    }
    json_object(members)
}

/// The fault of a request to forget.
pub open spec fn forget_request_fault(request: ForgetRequest) -> Option<Fault> {
    first_of(
        refused_if(is_blank(request.id@), "memory id must not be empty"@),
        first_of(
            refused_if(
                request.reason is Some && request.reason->0@.len() > MAX_FORGET_REASON_CHARS,
                "reason must be at most 2048 characters"@,
            ),
            metadata_fault("corrected_by"@, text_of_string(request.corrected_by)),
        ),
    )
}

/// Checks a request to forget.
pub fn validate_forget_request(request: &ForgetRequest) -> (r: Result<(), Error>)
    ensures
        verdict(r) == forget_request_fault(*request),
{
    if trim(request.id.as_str()).is_empty() {
        return Err(invalid("memory id must not be empty"));
    }
    if let Some(reason) = &request.reason {
        if reason.as_str().unicode_len() > MAX_FORGET_REASON_CHARS {
            return Err(invalid("reason must be at most 2048 characters"));
        }
    }
    validate_optional_metadata_value("corrected_by", as_text(&request.corrected_by))
}

/// The fault of forgetting against what the store holds: an unknown memory, one
/// that is forgotten already, or an unknown replacement.
pub open spec fn forget_fault(request: ForgetRequest, facts: ForgetFacts) -> Option<Fault> {
    match text_of_string(facts.status) {
        None => Some(Fault::NotFound("memory"@, request.id@)),
        Some(status) => if status == STATUS_TOMBSTONED@ {
            Some(Fault::Conflict("memory is already tombstoned: "@ + request.id@))
        } else if request.corrected_by is Some && !facts.corrected_by_exists {
            Some(Fault::NotFound("memory"@, request.corrected_by->0@))
        } else {
            None
        },
    }
}

/// Whether a plan is what a request to forget calls for.
pub open spec fn forget_matches(
    plan: ForgetPlan,
    request: ForgetRequest,
    facts: ForgetFacts,
) -> bool {
    let correction = request.mode@ == "correct"@;
    &&& plan.event_type@ == if correction {
        "correct"@
    } else {
        "forget"@
    }
    &&& plan.data_json@ == if correction {
        correction_data(
            request.dry_run,
            request.mode@,
            text_of_string(request.corrected_by),
            views(facts.tags@),
        )
    } else {
        forget_data(request.dry_run, request.mode@)
    }
    &&& text_of_string(plan.reason) == text_of_string(request.reason)
    &&& plan.deleted_at@ == facts.now@
    &&& text_of_string(plan.contradicted_by) == text_of_string(request.corrected_by)
    &&& plan.report.memory_id@ == request.id@
    &&& Some(plan.report.old_status@) == text_of_string(facts.status)
    &&& plan.report.new_status@ == STATUS_TOMBSTONED@
    &&& plan.report.event_id@ == facts.event_id@
    &&& plan.report.dry_run == request.dry_run
}

/// Decides a forgetting against what the store holds.
pub fn forget_memory_tx(request: &ForgetRequest, facts: &ForgetFacts) -> (r: Result<
    ForgetPlan,
    Error,
>)
    ensures
        match r {
            Ok(plan) => forget_fault(*request, *facts) is None && forget_matches(
                plan,
                *request,
                *facts,
            ),
            Err(e) => forget_fault(*request, *facts) == Some(e@),
        },
{
    let old_status = match &facts.status {
        None => {
            return Err(not_found("memory", request.id.as_str()));
        },
        Some(status) => status.clone(),
    };
    if text_eq(old_status.as_str(), STATUS_TOMBSTONED) {
        return Err(conflict2("memory is already tombstoned: ", request.id.as_str()));
    }
    if let Some(replacement) = &request.corrected_by {
        if !facts.corrected_by_exists {
            return Err(not_found("memory", replacement.as_str()));
        }
    }
    let correction: bool = text_eq(request.mode.as_str(), "correct");
    let data_json = if correction {
        correction_event_data_json(
            request.dry_run,
            request.mode.as_str(),
            as_text(&request.corrected_by),
            &facts.tags,
        )
    } else {
        forget_event_data_json(request.dry_run, request.mode.as_str())
    };
    Ok(
        ForgetPlan {
            event_type: if correction {
                "correct"
            } else {
                "forget"
            },
            data_json,
            reason: clone_text(&request.reason),
            deleted_at: facts.now.clone(),
            contradicted_by: clone_text(&request.corrected_by),
            report: ForgetReport {
                memory_id: request.id.clone(),
                old_status,
                new_status: STATUS_TOMBSTONED.to_owned(),
                event_id: facts.event_id.clone(),
                dry_run: request.dry_run,
            },
        },
    )
}

/// Tombstone one memory by id and preserve an audit event.
pub fn forget_memory(request: &ForgetRequest, facts: &ForgetFacts) -> (r: Result<
    ForgetPlan,
    Error,
>)
    ensures
        match r {
            Ok(plan) => first_of(
                forget_request_fault(*request),
                forget_fault(*request, *facts),
            ) is None && forget_matches(plan, *request, *facts),
            Err(e) => first_of(forget_request_fault(*request), forget_fault(*request, *facts))
                == Some(e@),
        },
{
    if let Err(e) = validate_forget_request(request) {
        return Err(e);
    }
    forget_memory_tx(request, facts)
}

/// An event in the history of a memory.
pub struct EventModel {
    /// Event id.
    pub id: Seq<char>,
    /// Memory id.
    pub memory_id: Seq<char>,
    /// What the event says.
    pub event_type: Seq<char>,
    /// Status before.
    pub old_status: Seq<char>,
    /// Status after.
    pub new_status: Seq<char>,
    /// Reason.
    pub reason: Option<Seq<char>>,
    /// Data of the event.
    pub data_json: Seq<char>,
    /// Time of the event.
    pub created_at: Seq<char>,
}

/// What the store holds of a memory's life.
pub struct MemoryLife {
    /// Status.
    pub status: Seq<char>,
    /// When it was deleted.
    pub deleted_at: Option<Seq<char>>,
    /// Ids of its versions.
    pub versions: Seq<Seq<char>>,
    /// Its events.
    pub events: Seq<EventModel>,
}

/// The event that a plan writes.
pub open spec fn forget_event(plan: ForgetPlan) -> EventModel {
    EventModel {
        id: plan.report.event_id@,
        memory_id: plan.report.memory_id@,
        event_type: plan.event_type@,
        old_status: plan.report.old_status@,
        new_status: plan.report.new_status@,
        reason: text_of_string(plan.reason),
        data_json: plan.data_json@,
        created_at: plan.deleted_at@,
    }
}

/// What a plan leaves of a memory's life: a dry run leaves everything.
pub open spec fn after_forget(life: MemoryLife, plan: ForgetPlan) -> MemoryLife {
    if plan.report.dry_run {
        life
    } else {
        MemoryLife {
            status: plan.report.new_status@,
            deleted_at: Some(plan.deleted_at@),
            versions: life.versions,
            events: life.events.push(forget_event(plan)),
        }
    }
}

/// Whether facts are read from a memory's life, where the memory exists.
pub open spec fn reads_life(facts: ForgetFacts, life: Option<MemoryLife>) -> bool {
    text_of_string(facts.status) == match life {
        Some(found) => Some(found.status),
        None => None,
    }
}

/// Forgetting is final: it tombstones the memory, records when, keeps every version
/// and adds exactly one event, and the same request is a conflict from then on. A
/// dry run changes nothing, and a memory that does not exist is not found.
pub proof fn law_forgetting_is_final(
    plan: ForgetPlan,
    request: ForgetRequest,
    facts: ForgetFacts,
    life: MemoryLife,
    later: ForgetFacts,
)
    requires
        forget_fault(request, facts) is None,
        forget_matches(plan, request, facts),
        reads_life(facts, Some(life)),
        reads_life(later, Some(after_forget(life, plan))),
    ensures
        plan.report.old_status@ == life.status,
        life.status != STATUS_TOMBSTONED@,
        request.dry_run ==> after_forget(life, plan) == life,
        !request.dry_run ==> {
            let after = after_forget(life, plan);
            &&& after.status == STATUS_TOMBSTONED@
            &&& after.deleted_at == Some(facts.now@)
            &&& after.versions == life.versions
            &&& after.events == life.events.push(forget_event(plan))
            &&& forget_fault(request, later) == Some(
                Fault::Conflict("memory is already tombstoned: "@ + request.id@),
            )
        },
{
}

/// A memory that does not exist cannot be forgotten.
pub proof fn law_unknown_is_not_forgotten(request: ForgetRequest, facts: ForgetFacts)
    requires
        reads_life(facts, None),
    ensures
        forget_fault(request, facts) == Some(Fault::NotFound("memory"@, request.id@)),
{
}

/// A request to record that a memory was verified.
pub struct VerifyRequest {
    /// Memory id.
    pub memory_id: String,
    /// What it was verified against.
    pub verified_against: Option<String>,
    /// When, if not now.
    pub now: Option<String>,
}

/// The result of a verification.
pub struct VerifyReport {
    /// Memory id.
    pub memory_id: String,
    /// When it was verified.
    pub verified_at: String,
}

/// What a verification puts into the store and reports.
pub struct VerifyPlan {
    /// The new metadata.
    pub metadata_json: String,
    /// The report.
    pub report: VerifyReport,
}

/// The time of a verification.
pub open spec fn verified_time(request: VerifyRequest, now: Seq<char>) -> Seq<char> {
    match text_of_string(request.now) {
        Some(at) => to_milliseconds(at),
        None => now,
    }
}

/// The members that a verification puts into the metadata.
pub open spec fn verified_members(request: VerifyRequest, now: Seq<char>) -> Seq<
    (Seq<char>, Seq<char>),
> {
    let at = seq![("verified_at"@, verified_time(request, now))];
    match text_of_string(request.verified_against) {
        Some(source) => at.push(("verified_against"@, source)),
        None => at,
    }
}

/// The fault of a verification: a refused request, an unknown memory, or metadata
/// that is no JSON object.
pub open spec fn verify_fault(
    request: VerifyRequest,
    exists: bool,
    merged: Option<Seq<char>>,
) -> Option<Fault> {
    first_of(
        refused_if(is_blank(request.memory_id@), "memory id must not be empty"@),
        first_of(
            timestamp_fault("now"@, text_of_string(request.now)),
            if !exists {
                Some(Fault::NotFound("memory"@, request.memory_id@))
            } else if merged is None {
                Some(
                    Fault::Conflict(
                        "memory "@ + request.memory_id@
                            + " has corrupt metadata_json; refusing to overwrite it"@,
                    ),
                )
            } else {
                None
            },
        ),
    )
}

/// Decides a verification, given the merged metadata; nothing is merged where the
/// stored metadata is no JSON object.
pub fn verified_memory(
    request: &VerifyRequest,
    now: &str,
    exists: bool,
    merged: Option<String>,
) -> (r: Result<VerifyPlan, Error>)
    ensures
        match r {
            Ok(plan) => {
                &&& verify_fault(*request, exists, text_of_string(merged)) is None
                &&& Some(plan.metadata_json@) == text_of_string(merged)
                &&& plan.report.memory_id@ == request.memory_id@
                &&& plan.report.verified_at@ == verified_time(*request, now@)
            },
            Err(e) => verify_fault(*request, exists, text_of_string(merged)) == Some(e@),
        },
{
    if trim(request.memory_id.as_str()).is_empty() {
        return Err(invalid("memory id must not be empty"));
    }
    if let Err(e) = validate_optional_timestamp("now", as_text(&request.now)) {
        return Err(e);
    }
    if !exists {
        return Err(not_found("memory", request.memory_id.as_str()));
    }
    match merged {
        None => {
            let message = concat3(
                "memory ",
                request.memory_id.as_str(),
                " has corrupt metadata_json; refusing to overwrite it",
            );
            Err(Error::Conflict { message })
        },
        Some(metadata_json) => Ok(
            VerifyPlan {
                metadata_json,
                report: VerifyReport {
                    memory_id: request.memory_id.clone(),
                    verified_at: match &request.now {
                        Some(at) => normalize_utc_timestamp(at.as_str()),
                        None => now.to_owned(),
                    },
                },
            },
        ),
    }
}

/// A member of a memory's metadata, as compact JSON.
pub fn metadata_member(metadata: &Option<String>, key: &str) -> (r: Option<String>)
    ensures
        text_of_string(r) == match *metadata {
            Some(text) => json_member(text@, key@),
            None => None,
        },
{
    match metadata {
        Some(text) => json_member_text(text.as_str(), key),
        None => None,
    }
}

/// Whether a verification writes the member of a name.
pub open spec fn writes_member(request: VerifyRequest, key: Seq<char>) -> bool {
    key == "verified_at"@ || (request.verified_against is Some && key == "verified_against"@)
}

/// Whether every member that a verification does not write reads as before,
/// whatever its type: a string, a flag, a whole number, a list or an object.
pub open spec fn others_kept(
    request: VerifyRequest,
    before: Seq<char>,
    after: Seq<char>,
) -> bool {
    forall|key: Seq<char>|
        #![trigger json_text(after, key)]
        #![trigger json_bool(after, key)]
        #![trigger json_number(after, key)]
        #![trigger json_has(after, key)]
        #![trigger json_member(after, key)]
        !writes_member(request, key) ==> {
            &&& json_text(after, key) == json_text(before, key)
            &&& json_bool(after, key) == json_bool(before, key)
            &&& json_number(after, key) == json_number(before, key)
            &&& json_has(after, key) == json_has(before, key)
            &&& member_kept(json_member(before, key), json_member(after, key))
        }
}

/// Records that a memory was verified: its metadata with the time and, where
/// named, what it was verified against. `stored` is the memory's metadata, where
/// the memory exists.
pub fn verify_memory(request: &VerifyRequest, now: &str, stored: &Option<Option<String>>) -> (r:
    Result<VerifyPlan, Error>)
    ensures
        ({
            let merged = match *stored {
                Some(metadata) => json_merged(
                    text_of_string(metadata),
                    verified_members(*request, now@),
                ),
                None => None,
            };
            match r {
                Ok(plan) => {
                    &&& verify_fault(*request, stored is Some, merged) is None
                    &&& Some(plan.metadata_json@) == merged
                    &&& plan.report.memory_id@ == request.memory_id@
                    &&& plan.report.verified_at@ == verified_time(*request, now@)
                    &&& json_text(plan.metadata_json@, "verified_at"@) == Some(
                        plan.report.verified_at@,
                    )
                    &&& request.verified_against matches Some(source)
                        ==> json_text(plan.metadata_json@, "verified_against"@)
                        == Some(source@)
                    &&& stored matches Some(metadata) && others_kept(
                        *request,
                        object_text(text_of_string(*metadata)),
                        plan.metadata_json@,
                    )
                },
                Err(e) => verify_fault(*request, stored is Some, merged) == Some(e@),
            }
        }),
        stored == Some(None::<String>) && !is_blank(request.memory_id@) && timestamp_fault(
            "now"@,
            text_of_string(request.now),
        ) is None ==> r is Ok,
        stored matches Some(Some(text)) ==> !is_blank(request.memory_id@) && timestamp_fault(
            "now"@,
            text_of_string(request.now),
        ) is None ==> forall|key: Seq<char>| #[trigger] json_has(text@, key) ==> r is Ok,
        stored matches Some(Some(text)) ==> json_fault(text@) is Some ==> r is Err,
{
    let at = match &request.now {
        Some(at) => normalize_utc_timestamp(at.as_str()),
        None => now.to_owned(),
    };
    let mut members: Vec<(String, String)> = Vec::new();
    members.push(("verified_at".to_owned(), at));
    if let Some(source) = &request.verified_against {
        members.push(("verified_against".to_owned(), source.clone()));
    }
    let merged = match stored {
        Some(metadata) => json_merge(as_text(metadata), members.as_slice()),
        None => None,
    };
    proof {
        reveal_strlit("verified_at");
        reveal_strlit("verified_against");
        assert("verified_at"@.len() != "verified_against"@.len());
        assert(pair_views(members@) =~= verified_members(*request, now@));
        assert(members@[0].0@ == "verified_at"@);
        if request.verified_against is Some {
            assert(members@[1].0@ == "verified_against"@);
        }
        assert forall|key: Seq<char>| is_named(
            verified_members(*request, now@),
            key,
        ) implies writes_member(*request, key) by {
            let list = verified_members(*request, now@);
            let i = choose|i: int| 0 <= i < list.len() && (#[trigger] list[i]).0 == key;
            assert(i == 0 || i == 1);
        }
    }
    verified_memory(request, now, stored.is_some(), merged)
}

/// What to return of a memory's history.
#[derive(Debug, Clone, Copy)]
pub struct HistoryOptions {
    /// Versions and events at most.
    pub limit: usize,
    /// Source references.
    pub include_source: bool,
}

/// What the store holds of a memory's history, up to the limit asked for.
pub struct StoredHistory {
    /// Current status.
    pub status: String,
    /// How many events there are.
    pub total_events: usize,
    /// How many versions there are.
    pub total_versions: usize,
    /// The first versions.
    pub versions: Vec<MemoryVersionRecord>,
    /// The first events.
    pub events: Vec<MemoryEventRecord>,
}

/// The audit history of a memory.
pub struct HistoryReport {
    /// Memory id.
    pub memory_id: String,
    /// Current status.
    pub current_status: String,
    /// Events.
    pub events: Vec<MemoryEventRecord>,
    /// Versions.
    pub versions: Vec<MemoryVersionRecord>,
    /// Whether something was cut off.
    pub truncated: bool,
}

/// The fault of a history request.
pub open spec fn history_request_fault(id: Seq<char>, limit: usize) -> Option<Fault> {
    first_of(
        refused_if(is_blank(id), "memory id must not be empty"@),
        refused_if(
            limit == 0 || limit > MAX_HISTORY_LIMIT,
            "limit must be between 1 and 500"@,
        ),
    )
}

/// Checks a history request.
pub fn validate_history_request(id: &str, options: HistoryOptions) -> (r: Result<(), Error>)
    ensures
        verdict(r) == history_request_fault(id@, options.limit),
{
    if trim(id).is_empty() {
        return Err(invalid("memory id must not be empty"));
    }
    refuse_if(
        options.limit == 0 || options.limit > MAX_HISTORY_LIMIT,
        "limit must be between 1 and 500",
    )
}

/// Returns the bounded audit history of one memory.
pub fn memory_history(id: &str, options: HistoryOptions, stored: Option<StoredHistory>) -> (r:
    Result<HistoryReport, Error>)
    ensures
        match r {
            Ok(report) => {
                &&& history_request_fault(id@, options.limit) is None
                &&& stored is Some
                &&& report.memory_id@ == id@
                &&& report.current_status == stored->0.status
                &&& report.events == stored->0.events
                &&& report.versions@ == shown_versions(
                    stored->0.versions@,
                    options.include_source,
                )
                &&& report.truncated == (stored->0.total_events > stored->0.events@.len()
                    || stored->0.total_versions > stored->0.versions@.len())
            },
            Err(e) => first_of(
                history_request_fault(id@, options.limit),
                if stored is None {
                    Some(Fault::NotFound("memory"@, id@))
                } else {
                    None
                },
            ) == Some(e@),
        },
{
    if let Err(e) = validate_history_request(id, options) {
        return Err(e);
    }
    match stored {
        None => Err(not_found("memory", id)),
        Some(found) => {
            let truncated: bool = found.total_events > found.events.len() || found.total_versions
                > found.versions.len();
            let mut versions = found.versions;
            if !options.include_source {
                hide_sources(&mut versions);
            }
            Ok(
                HistoryReport {
                    memory_id: id.to_owned(),
                    current_status: found.status,
                    events: found.events,
                    versions,
                    truncated,
                },
            )
        },
    }
}

} // verus!
