//! What the tasks of a consolidation run report and write.

use vstd::prelude::*;

use crate::dream::{
    dream_has_task, dream_request_fault, dream_scope_fault, has_task, prepare_dream_request,
    prepares, promote_fault, promote_query, DreamFacts, DreamRequest, PreparedDreamRequest,
    DREAM_TASK_DEDUPE, DREAM_TASK_EXPIRE,
    DREAM_TASK_GRAPH, DREAM_TASK_LINK, DREAM_TASK_PROMOTE, DREAM_TASK_REINDEX,
};
use crate::error::{concat3, invalid, invalid2, Error, Fault};
use crate::json::{
    array_text, as_text, bool_json, bool_text, json_object, json_optional, json_parse_texts,
    json_quoted, json_string_for_store, json_texts, member_names, member_texts,
    optional_json_string_for_store, string_array_json, text_of_string, texts_array, JsonMember,
};
use crate::order::{lemma_less_at, sort_unique, sorted_set, text_less};
use crate::pool::{clone_text, clone_texts};
use crate::stats::{last_success, RunRecord};
use crate::text::{decimal, decimal_of, joined, text_eq, views};
use crate::validate::{first_of, refused_if};
use crate::vocabulary::{
    DEFAULT_DURABLE_SILO, MAX_DREAM_DUPLICATE_IDS, STATUS_ACTIVE, STATUS_EXPIRED,
};

verus! {

/// The rows that a task handles: at most so many.
pub open spec fn handled<A>(rows: Seq<A>, max: nat) -> Seq<A> {
    if rows.len() > max {
        rows.take(max as int)
    } else {
        rows
    }
}

fn first_texts(rows: &Vec<String>, max: usize) -> (r: Vec<String>)
    ensures
        views(r@) == handled(views(rows@), max as nat),
{
    let mut list = clone_texts(rows);
    if list.len() > max {
        let ghost before = list@;
        list.truncate(max);
        assert(views(list@) =~= views(before).take(max as int));
    }
    list
}

/// What promotion did.
pub struct DreamPromoteReport {
    /// Whether the task ran.
    pub attempted: bool,
    /// Memories looked at.
    pub scanned: usize,
    /// Memories promoted.
    pub promoted: usize,
    /// Whether there are more.
    pub truncated: bool,
    /// The promoted memories.
    pub memory_ids: Vec<String>,
}

/// Whether a report shows that nothing was attempted.
pub open spec fn no_promotion(r: DreamPromoteReport) -> bool {
    !r.attempted && r.scanned == 0 && r.promoted == 0 && !r.truncated && r.memory_ids@.len() == 0
}

/// Whether a report shows the promotion of the found memories.
pub open spec fn promotion_of(rows: Seq<Seq<char>>, max: nat, r: DreamPromoteReport) -> bool {
    &&& r.attempted
    &&& r.scanned == handled(rows, max).len()
    &&& r.promoted == handled(rows, max).len()
    &&& r.truncated == (rows.len() > max)
    &&& views(r.memory_ids@) == handled(rows, max)
}

/// The report of a promotion that did not run.
pub fn empty_dream_promote_report() -> (r: DreamPromoteReport)
    ensures
        no_promotion(r),
{
    DreamPromoteReport {
        attempted: false,
        scanned: 0,
        promoted: 0,
        truncated: false,
        memory_ids: Vec::new(),
    }
}

/// Promotes the found memories, up to the limit of the run.
pub fn dream_promote_memories(prepared: &PreparedDreamRequest, rows: &Vec<String>) -> (r:
    DreamPromoteReport)
    ensures
        promotion_of(views(rows@), prepared.max_memories as nat, r),
{
    let memory_ids = first_texts(rows, prepared.max_memories);
    assert(views(memory_ids@).len() == memory_ids@.len());
    assert(views(rows@).len() == rows@.len());
    DreamPromoteReport {
        attempted: true,
        scanned: memory_ids.len(),
        promoted: memory_ids.len(),
        truncated: rows.len() > prepared.max_memories,
        memory_ids,
    }
}

/// A memory whose time has come.
pub struct DreamExpireCandidate {
    /// Id of the memory.
    pub id: String,
    /// Whether it is pinned.
    pub pinned: bool,
}

/// The model of a memory whose time has come.
pub struct ExpireModel {
    /// Id of the memory.
    pub id: Seq<char>,
    /// Whether it is pinned.
    pub pinned: bool,
}

/// The models of memories whose time has come.
pub open spec fn expire_models(rows: Seq<DreamExpireCandidate>) -> Seq<ExpireModel> {
    rows.map_values(|c: DreamExpireCandidate| ExpireModel { id: c.id@, pinned: c.pinned })
}

/// The memories that expire, or those that are kept because they are pinned.
pub open spec fn expiring(rows: Seq<ExpireModel>, include_pinned: bool, kept: bool) -> Seq<
    Seq<char>,
>
    decreases rows.len(),
{
    if rows.len() == 0 {
        Seq::empty()
    } else {
        let before = expiring(rows.drop_last(), include_pinned, kept);
        if (rows.last().pinned && !include_pinned) == kept {
            before.push(rows.last().id)
        } else {
            before
        }
    }
}

/// What expiry did.
pub struct DreamExpireReport {
    /// Whether the task ran.
    pub attempted: bool,
    /// Memories looked at.
    pub scanned: usize,
    /// Memories expired.
    pub expired: usize,
    /// Memories kept because they are pinned.
    pub skipped_pinned: usize,
    /// Whether there are more.
    pub truncated: bool,
    /// The expired memories.
    pub memory_ids: Vec<String>,
    /// The kept memories.
    pub skipped_pinned_ids: Vec<String>,
}

/// Whether a report shows that nothing was attempted.
pub open spec fn no_expiry(r: DreamExpireReport) -> bool {
    !r.attempted && r.scanned == 0 && r.expired == 0 && r.skipped_pinned == 0 && !r.truncated
        && r.memory_ids@.len() == 0 && r.skipped_pinned_ids@.len() == 0
}

/// Whether a report shows the expiry of the found memories.
pub open spec fn expiry_of(
    rows: Seq<ExpireModel>,
    max: nat,
    include_pinned: bool,
    r: DreamExpireReport,
) -> bool {
    let list = handled(rows, max);
    &&& r.attempted
    &&& r.scanned == list.len()
    &&& views(r.memory_ids@) == expiring(list, include_pinned, false)
    &&& views(r.skipped_pinned_ids@) == expiring(list, include_pinned, true)
    &&& r.expired == r.memory_ids@.len()
    &&& r.skipped_pinned == r.skipped_pinned_ids@.len()
    &&& r.truncated == (rows.len() > max)
}

/// The report of an expiry that did not run.
pub fn empty_dream_expire_report() -> (r: DreamExpireReport)
    ensures
        no_expiry(r),
{
    DreamExpireReport {
        attempted: false,
        scanned: 0,
        expired: 0,
        skipped_pinned: 0,
        truncated: false,
        memory_ids: Vec::new(),
        skipped_pinned_ids: Vec::new(),
    }
}

/// Expires the found memories, up to the limit of the run. Pinned memories are
/// kept unless the request says otherwise.
pub fn dream_expire_memories(prepared: &PreparedDreamRequest, rows: &Vec<DreamExpireCandidate>) -> (r:
    DreamExpireReport)
    ensures
        expiry_of(
            expire_models(rows@),
            prepared.max_memories as nat,
            prepared.include_pinned,
            r,
        ),
{
    let ghost list = handled(expire_models(rows@), prepared.max_memories as nat);
    let n: usize = if rows.len() > prepared.max_memories {
        prepared.max_memories
    } else {
        rows.len()
    };
    let mut memory_ids: Vec<String> = Vec::new();
    let mut skipped: Vec<String> = Vec::new();
    assert(views(memory_ids@) =~= expiring(list.take(0), prepared.include_pinned, false));
    assert(views(skipped@) =~= expiring(list.take(0), prepared.include_pinned, true));
    for i in 0..n
        invariant
            n <= rows@.len(),
            n == list.len(),
            list == handled(expire_models(rows@), prepared.max_memories as nat),
            views(memory_ids@) == expiring(list.take(i as int), prepared.include_pinned, false),
            views(skipped@) == expiring(list.take(i as int), prepared.include_pinned, true),
    {
        assert(list.take(i + 1).drop_last() =~= list.take(i as int));
        assert(list.take(i + 1).last() == expire_models(rows@)[i as int]);
        if rows[i].pinned && !prepared.include_pinned {
            let ghost before = skipped@;
            skipped.push(rows[i].id.clone());
            assert(views(skipped@) =~= views(before).push(rows@[i as int].id@));
        } else {
            let ghost before = memory_ids@;
            memory_ids.push(rows[i].id.clone());
            assert(views(memory_ids@) =~= views(before).push(rows@[i as int].id@));
        }
    }
    assert(list.take(n as int) =~= list);
    DreamExpireReport {
        attempted: true,
        scanned: n,
        expired: memory_ids.len(),
        skipped_pinned: skipped.len(),
        truncated: rows.len() > prepared.max_memories,
        memory_ids,
        skipped_pinned_ids: skipped,
    }
}

proof fn lemma_expiring_lengths(rows: Seq<ExpireModel>, include_pinned: bool)
    ensures
        expiring(rows, include_pinned, false).len() + expiring(rows, include_pinned, true).len()
            == rows.len(),
        include_pinned ==> expiring(rows, include_pinned, true).len() == 0,
    decreases rows.len(),
{
    if rows.len() > 0 {
        lemma_expiring_lengths(rows.drop_last(), include_pinned);
    }
}

/// Every memory that is looked at either expires or is kept, and none is kept
/// where pinned memories expire too.
pub proof fn law_expiry_accounts_for_all(
    rows: Seq<ExpireModel>,
    max: nat,
    include_pinned: bool,
    r: DreamExpireReport,
)
    requires
        expiry_of(rows, max, include_pinned, r),
    ensures
        r.expired + r.skipped_pinned == r.scanned,
        r.scanned <= max,
        include_pinned ==> r.skipped_pinned == 0,
{
    lemma_expiring_lengths(handled(rows, max), include_pinned);
    assert(views(r.memory_ids@).len() == r.memory_ids@.len());
    assert(views(r.skipped_pinned_ids@).len() == r.skipped_pinned_ids@.len());
}

/// What is written to one memory, and the event that records it.
pub struct DreamWrite {
    /// The memory.
    pub memory_id: String,
    /// The silo that it moves to.
    pub silo: Option<&'static str>,
    /// Whether its time of expiry is taken away.
    pub clear_expiry: bool,
    /// The status that it gets.
    pub new_status: &'static str,
    /// Why.
    pub reason: &'static str,
    /// Data of the event.
    pub data_json: String,
}

/// Data of the event of a task.
pub open spec fn task_event(run_id: Seq<char>, task: Seq<char>) -> Seq<char> {
    "{\"run_id\":"@ + json_quoted(run_id) + ",\"task\":\""@ + task + "\"}"@
}

/// Data of the event of a task.
pub fn dream_event_json(run_id: &str, task: &str) -> (r: String)
    ensures
        r@ == task_event(run_id@, task@),
{
    let id = json_string_for_store(run_id);
    let mut out = concat3("{\"run_id\":", id.as_str(), ",\"task\":\"");
    out.append(task);
    out.append("\"}");
    out
}

/// Whether a write moves a memory to the durable silo.
pub open spec fn promotes(write: DreamWrite, id: Seq<char>, run_id: Seq<char>) -> bool {
    &&& write.memory_id@ == id
    &&& write.silo is Some && write.silo->0@ == DEFAULT_DURABLE_SILO@
    &&& write.clear_expiry
    &&& write.new_status@ == STATUS_ACTIVE@
    &&& write.reason@ == "promoted short-term to durable"@
    &&& write.data_json@ == task_event(run_id, DREAM_TASK_PROMOTE@)
}

/// Whether a write expires a memory.
pub open spec fn expires(write: DreamWrite, id: Seq<char>, run_id: Seq<char>) -> bool {
    &&& write.memory_id@ == id
    &&& write.silo is None
    &&& !write.clear_expiry
    &&& write.new_status@ == STATUS_EXPIRED@
    &&& write.reason@ == "expires_at reached"@
    &&& write.data_json@ == task_event(run_id, DREAM_TASK_EXPIRE@)
}

/// Moves a memory to the durable silo.
pub fn promote_memory_for_dream(memory_id: &str, run_id: &str) -> (r: DreamWrite)
    ensures
        promotes(r, memory_id@, run_id@),
{
    DreamWrite {
        memory_id: memory_id.to_owned(),
        silo: Some(DEFAULT_DURABLE_SILO),
        clear_expiry: true,
        new_status: STATUS_ACTIVE,
        reason: "promoted short-term to durable",
        data_json: dream_event_json(run_id, DREAM_TASK_PROMOTE),
    }
}

/// Expires a memory.
pub fn expire_memory_for_dream(memory_id: &str, run_id: &str) -> (r: DreamWrite)
    ensures
        expires(r, memory_id@, run_id@),
{
    DreamWrite {
        memory_id: memory_id.to_owned(),
        silo: None,
        clear_expiry: false,
        new_status: STATUS_EXPIRED,
        reason: "expires_at reached",
        data_json: dream_event_json(run_id, DREAM_TASK_EXPIRE),
    }
}

/// The writes of a promotion: one for each promoted memory, none in a dry run.
pub fn promotion_writes(
    prepared: &PreparedDreamRequest,
    report: &DreamPromoteReport,
    run_id: &str,
) -> (r: Vec<DreamWrite>)
    ensures
        prepared.dry_run ==> r@.len() == 0,
        !prepared.dry_run ==> r@.len() == report.memory_ids@.len() && forall|i: int|
            0 <= i < r@.len() ==> promotes(#[trigger] r@[i], report.memory_ids@[i]@, run_id@),
{
    let mut out: Vec<DreamWrite> = Vec::new();
    if prepared.dry_run {
        return out;
    }
    for i in 0..report.memory_ids.len()
        invariant
            out@.len() == i,
            forall|k: int|
                0 <= k < i ==> promotes(#[trigger] out@[k], report.memory_ids@[k]@, run_id@),
    {
        out.push(promote_memory_for_dream(report.memory_ids[i].as_str(), run_id));
    }
    out
}

/// The writes of an expiry: one for each expired memory, none in a dry run.
pub fn expiry_writes(
    prepared: &PreparedDreamRequest,
    report: &DreamExpireReport,
    run_id: &str,
) -> (r: Vec<DreamWrite>)
    ensures
        prepared.dry_run ==> r@.len() == 0,
        !prepared.dry_run ==> r@.len() == report.memory_ids@.len() && forall|i: int|
            0 <= i < r@.len() ==> expires(#[trigger] r@[i], report.memory_ids@[i]@, run_id@),
{
    let mut out: Vec<DreamWrite> = Vec::new();
    if prepared.dry_run {
        return out;
    }
    for i in 0..report.memory_ids.len()
        invariant
            out@.len() == i,
            forall|k: int|
                0 <= k < i ==> expires(#[trigger] out@[k], report.memory_ids@[k]@, run_id@),
    {
        out.push(expire_memory_for_dream(report.memory_ids[i].as_str(), run_id));
    }
    out
}

/// What reindexing did.
pub struct DreamReindexReport {
    /// Whether the task ran.
    pub attempted: bool,
    /// Memories in the index.
    pub memory_rows: usize,
    /// Document chunks in the index.
    pub source_episode_rows: usize,
}

/// A group of memories with equal content.
pub struct DreamDuplicateGroup {
    /// Space of the memories.
    pub space: String,
    /// Hash of the content.
    pub content_sha256: String,
    /// Memories in the group.
    pub total_count: usize,
    /// Pinned memories in the group.
    pub pinned_count: usize,
    /// The first members: pinned ones first.
    pub ids: Vec<String>,
}

/// A proposal to keep one of several equal memories.
pub struct DreamDuplicateProposal {
    /// Space of the memories.
    pub space: String,
    /// Hash of the content.
    pub content_sha256: String,
    /// The memory to keep.
    pub canonical_memory_id: String,
    /// The others.
    pub duplicate_memory_ids: Vec<String>,
    /// Memories in the group.
    pub total_count: usize,
    /// Pinned memories in the group.
    pub pinned_count: usize,
    /// Whether there are more others.
    pub duplicate_ids_truncated: bool,
}

/// The members of a group that are proposed as duplicates.
pub open spec fn proposed_duplicates(ids: Seq<Seq<char>>) -> Seq<Seq<char>> {
    if ids.len() == 0 {
        ids
    } else {
        handled(ids.skip(1), MAX_DREAM_DUPLICATE_IDS as nat)
    }
}

/// Whether a proposal is that of a group.
pub open spec fn proposes(group: DreamDuplicateGroup, r: DreamDuplicateProposal) -> bool {
    let ids = views(group.ids@);
    &&& r.space@ == group.space@
    &&& r.content_sha256@ == group.content_sha256@
    &&& r.canonical_memory_id@ == if ids.len() == 0 {
        Seq::empty()
    } else {
        ids[0]
    }
    &&& views(r.duplicate_memory_ids@) == proposed_duplicates(ids)
    &&& r.total_count == group.total_count
    &&& r.pinned_count == group.pinned_count
    &&& r.duplicate_ids_truncated == (group.total_count > 0 && group.total_count - 1
        > r.duplicate_memory_ids@.len())
}

/// Proposes to keep the first memory of a group.
pub fn dream_duplicate_proposal(group: &DreamDuplicateGroup) -> (r: DreamDuplicateProposal)
    ensures
        proposes(*group, r),
{
    let ghost ids = views(group.ids@);
    let n: usize = group.ids.len();
    let end: usize = if n > MAX_DREAM_DUPLICATE_IDS + 1 {
        MAX_DREAM_DUPLICATE_IDS + 1
    } else {
        n
    };
    let mut rest: Vec<String> = Vec::new();
    let mut i: usize = 1;
    while i < end
        invariant
            1 <= i,
            end <= n,
            n == group.ids@.len(),
            ids == views(group.ids@),
            i <= end || i == 1,
            rest@.len() == i - 1,
            forall|k: int| 0 <= k < rest@.len() ==> #[trigger] rest@[k]@ == ids[k + 1],
        decreases end - i,
    {
        rest.push(group.ids[i].clone());
        i = i + 1;
    }
    proof {
        assert(views(rest@) =~= proposed_duplicates(ids));
    }
    let truncated: bool = group.total_count > 0 && group.total_count - 1 > rest.len();
    DreamDuplicateProposal {
        space: group.space.clone(),
        content_sha256: group.content_sha256.clone(),
        canonical_memory_id: if n == 0 {
            String::new()
        } else {
            group.ids[0].clone()
        },
        duplicate_memory_ids: rest,
        total_count: group.total_count,
        pinned_count: group.pinned_count,
        duplicate_ids_truncated: truncated,
    }
}

/// What the search for duplicates found.
pub struct DreamDedupeReport {
    /// Whether the task ran.
    pub attempted: bool,
    /// One proposal for each group.
    pub proposals: Vec<DreamDuplicateProposal>,
    /// Whether there are more.
    pub truncated: bool,
}

/// Whether a report shows the found groups.
pub open spec fn duplicates_of(
    groups: Seq<DreamDuplicateGroup>,
    max: nat,
    r: DreamDedupeReport,
) -> bool {
    let list = handled(groups, max);
    &&& r.attempted
    &&& r.truncated == (groups.len() > max)
    &&& r.proposals@.len() == list.len()
    &&& forall|i: int| 0 <= i < list.len() ==> proposes(list[i], #[trigger] r.proposals@[i])
}

/// Proposes one memory to keep for each group, up to the limit of the run.
pub fn dream_exact_duplicate_proposals(
    prepared: &PreparedDreamRequest,
    groups: &Vec<DreamDuplicateGroup>,
) -> (r: DreamDedupeReport)
    ensures
        duplicates_of(groups@, prepared.max_memories as nat, r),
{
    let ghost list = handled(groups@, prepared.max_memories as nat);
    let n: usize = if groups.len() > prepared.max_memories {
        prepared.max_memories
    } else {
        groups.len()
    };
    let mut proposals: Vec<DreamDuplicateProposal> = Vec::new();
    for i in 0..n
        invariant
            n <= groups@.len(),
            n == list.len(),
            list == handled(groups@, prepared.max_memories as nat),
            proposals@.len() == i,
            forall|k: int| 0 <= k < i ==> proposes(list[k], #[trigger] proposals@[k]),
    {
        assert(list[i as int] == groups@[i as int]);
        proposals.push(dream_duplicate_proposal(&groups[i]));
    }
    DreamDedupeReport { attempted: true, proposals, truncated: groups.len() > prepared.max_memories }
}

/// Two memories that share topic tags, as found.
pub struct TagLinkRow {
    /// The one memory.
    pub src: String,
    /// The other.
    pub dst: String,
    /// How many tags they share.
    pub shared_tag_count: usize,
    /// The shared tags as a JSON array.
    pub shared_tags_json: String,
}

/// Two memories to link.
pub struct DreamTagLinkCandidate {
    /// The one memory.
    pub src: String,
    /// The other.
    pub dst: String,
    /// The shared tags in order.
    pub shared_tags: Vec<String>,
}

/// The fault of a row, given how its tags parse.
pub open spec fn link_row_fault(
    count: nat,
    parsed: Result<Seq<Seq<char>>, Seq<char>>,
) -> Option<Fault> {
    match parsed {
        Err(error) => Some(
            Fault::InvalidRequest("dream link produced invalid shared-tag JSON: "@ + error),
        ),
        Ok(tags) => refused_if(
            sorted_set(tags).len() != count,
            "dream link shared-tag evidence count mismatch"@,
        ),
    }
}

/// The model of a parsed list of texts.
pub open spec fn parsed_model(parsed: Result<Vec<String>, String>) -> Result<
    Seq<Seq<char>>,
    Seq<char>,
> {
    match parsed {
        Ok(list) => Ok(views(list@)),
        Err(error) => Err(error@),
    }
}

/// Whether a candidate links the memories of a row.
pub open spec fn links_row(
    row: TagLinkRow,
    tags: Seq<Seq<char>>,
    candidate: DreamTagLinkCandidate,
) -> bool {
    &&& candidate.src@ == row.src@
    &&& candidate.dst@ == row.dst@
    &&& views(candidate.shared_tags@) == sorted_set(tags)
}

/// Reads a row, given how its tags parse. As many tags have to be shared as were
/// counted.
pub fn tag_link_candidate(row: &TagLinkRow, parsed: Result<Vec<String>, String>) -> (r: Result<
    DreamTagLinkCandidate,
    Error,
>)
    ensures
        match r {
            Ok(candidate) => {
                &&& link_row_fault(row.shared_tag_count as nat, parsed_model(parsed)) is None
                &&& links_row(*row, parsed_model(parsed)->Ok_0, candidate)
            },
            Err(e) => link_row_fault(row.shared_tag_count as nat, parsed_model(parsed)) == Some(
                e@,
            ),
        },
{
    match parsed {
        Err(error) => Err(
            invalid2("dream link produced invalid shared-tag JSON: ", error.as_str()),
        ),
        Ok(list) => {
            let shared_tags = sort_unique(list.as_slice());
            assert(views(shared_tags@).len() == shared_tags@.len());
            if shared_tags.len() != row.shared_tag_count {
                return Err(invalid("dream link shared-tag evidence count mismatch"));
            }
            Ok(
                DreamTagLinkCandidate {
                    src: row.src.clone(),
                    dst: row.dst.clone(),
                    shared_tags,
                },
            )
        },
    }
}

/// The fault of the first faulty row.
pub open spec fn link_rows_fault(rows: Seq<TagLinkRow>) -> Option<Fault>
    decreases rows.len(),
{
    if rows.len() == 0 {
        None
    } else {
        first_of(
            link_rows_fault(rows.drop_last()),
            link_row_fault(
                rows.last().shared_tag_count as nat,
                json_texts(rows.last().shared_tags_json@),
            ),
        )
    }
}

proof fn lemma_link_rows_prefix(rows: Seq<TagLinkRow>, n: int)
    requires
        0 <= n <= rows.len(),
        link_rows_fault(rows.take(n)) is Some,
    ensures
        link_rows_fault(rows) == link_rows_fault(rows.take(n)),
    decreases rows.len() - n,
{
    if n < rows.len() {
        assert(rows.take(n + 1).drop_last() =~= rows.take(n));
        lemma_link_rows_prefix(rows, n + 1);
    } else {
        assert(rows.take(n) =~= rows);
    }
}

/// Two memories that are linked as related.
pub struct LinkedPair {
    /// The one memory.
    pub src: String,
    /// The other.
    pub dst: String,
}

/// The ids of linked memories.
pub open spec fn pairs(list: Seq<LinkedPair>) -> Seq<(Seq<char>, Seq<char>)> {
    list.map_values(|p: LinkedPair| (p.src@, p.dst@))
}

/// Whether two memories are linked, in either direction.
pub open spec fn is_linked(
    linked: Seq<(Seq<char>, Seq<char>)>,
    src: Seq<char>,
    dst: Seq<char>,
) -> bool {
    linked.contains((src, dst)) || linked.contains((dst, src))
}

/// The rows of memories that are not linked yet, in order.
pub open spec fn unlinked(
    rows: Seq<TagLinkRow>,
    linked: Seq<(Seq<char>, Seq<char>)>,
) -> Seq<TagLinkRow>
    decreases rows.len(),
{
    if rows.len() == 0 {
        Seq::empty()
    } else if is_linked(linked, rows.last().src@, rows.last().dst@) {
        unlinked(rows.drop_last(), linked)
    } else {
        unlinked(rows.drop_last(), linked).push(rows.last())
    }
}

proof fn lemma_unlinked_prefix(
    rows: Seq<TagLinkRow>,
    linked: Seq<(Seq<char>, Seq<char>)>,
    n: int,
)
    requires
        0 <= n <= rows.len(),
    ensures
        unlinked(rows.take(n), linked).len() <= unlinked(rows, linked).len(),
        unlinked(rows.take(n), linked) == unlinked(rows, linked).take(
            unlinked(rows.take(n), linked).len() as int,
        ),
    decreases rows.len() - n,
{
    if n < rows.len() {
        assert(rows.take(n + 1).drop_last() =~= rows.take(n));
        lemma_unlinked_prefix(rows, linked, n + 1);
        let a = unlinked(rows.take(n), linked);
        let b = unlinked(rows.take(n + 1), linked);
        assert(a =~= b.take(a.len() as int));
        assert(a =~= unlinked(rows, linked).take(a.len() as int));
    } else {
        assert(rows.take(n) =~= rows);
        assert(unlinked(rows, linked) =~= unlinked(rows, linked).take(
            unlinked(rows, linked).len() as int,
        ));
    }
}

fn pair_is_linked(linked: &Vec<LinkedPair>, src: &str, dst: &str) -> (r: bool)
    ensures
        r == is_linked(pairs(linked@), src@, dst@),
{
    let ghost all = pairs(linked@);
    for i in 0..linked.len()
        invariant
            all == pairs(linked@),
            forall|k: int| 0 <= k < i ==> all[k] != (src@, dst@) && all[k] != (dst@, src@),
    {
        let pair = &linked[i];
        assert(all[i as int] == (pair.src@, pair.dst@));
        if (text_eq(pair.src.as_str(), src) && text_eq(pair.dst.as_str(), dst)) || (text_eq(
            pair.src.as_str(),
            dst,
        ) && text_eq(pair.dst.as_str(), src)) {
            return true;
        }
    }
    false
}

/// Whether candidates link the memories of rows.
pub open spec fn link_candidates(rows: Seq<TagLinkRow>, list: Seq<DreamTagLinkCandidate>) -> bool {
    &&& list.len() == rows.len()
    &&& forall|i: int|
        0 <= i < rows.len() ==> links_row(
            rows[i],
            json_texts(rows[i].shared_tags_json@)->Ok_0,
            #[trigger] list[i],
        )
}

/// Reads the pairs of memories to link: those that are not linked yet, up to the
/// limit of the run.
pub fn dream_tag_link_candidates(
    prepared: &PreparedDreamRequest,
    rows: &Vec<TagLinkRow>,
    linked: &Vec<LinkedPair>,
) -> (r: Result<(Vec<DreamTagLinkCandidate>, bool), Error>)
    ensures
        ({
            let left = unlinked(rows@, pairs(linked@));
            match r {
                Ok((list, truncated)) => {
                    &&& link_rows_fault(left) is None
                    &&& link_candidates(handled(left, prepared.max_memories as nat), list@)
                    &&& truncated == (left.len() > prepared.max_memories)
                },
                Err(e) => link_rows_fault(left) == Some(e@),
            }
        }),
{
    let ghost before_run = pairs(linked@);
    let ghost left = unlinked(rows@, before_run);
    let mut list: Vec<DreamTagLinkCandidate> = Vec::new();
    for i in 0..rows.len()
        invariant
            before_run == pairs(linked@),
            left == unlinked(rows@, before_run),
            link_rows_fault(unlinked(rows@.take(i as int), before_run)) is None,
            link_candidates(unlinked(rows@.take(i as int), before_run), list@),
    {
        let ghost done = unlinked(rows@.take(i as int), before_run);
        let ghost next = unlinked(rows@.take(i + 1), before_run);
        proof {
            assert(rows@.take(i + 1).drop_last() =~= rows@.take(i as int));
            assert(rows@.take(i + 1).last() == rows@[i as int]);
        }
        if !pair_is_linked(linked, rows[i].src.as_str(), rows[i].dst.as_str()) {
            assert(next == done.push(rows@[i as int]));
            assert(next.drop_last() =~= done);
            let parsed = json_parse_texts(rows[i].shared_tags_json.as_str());
            assert(parsed_model(parsed) == json_texts(rows@[i as int].shared_tags_json@));
            match tag_link_candidate(&rows[i], parsed) {
                Ok(candidate) => {
                    let ghost before = list@;
                    list.push(candidate);
                    assert forall|k: int| 0 <= k < next.len() implies links_row(
                        next[k],
                        json_texts(next[k].shared_tags_json@)->Ok_0,
                        #[trigger] list@[k],
                    ) by {
                        if k < done.len() {
                            assert(list@[k] == before[k]);
                            assert(done[k] == next[k]);
                        }
                    }
                },
                Err(e) => {
                    proof {
                        lemma_unlinked_prefix(rows@, before_run, i + 1);
                        lemma_link_rows_prefix(left, next.len() as int);
                    }
                    return Err(e);
                },
            }
        }
    }
    assert(rows@.take(rows@.len() as int) =~= rows@);
    let truncated: bool = list.len() > prepared.max_memories;
    if truncated {
        let ghost before = list@;
        list.truncate(prepared.max_memories);
        assert forall|k: int| 0 <= k < list@.len() implies links_row(
            handled(left, prepared.max_memories as nat)[k],
            json_texts(handled(left, prepared.max_memories as nat)[k].shared_tags_json@)->Ok_0,
            #[trigger] list@[k],
        ) by {
            assert(list@[k] == before[k]);
        }
    }
    Ok((list, truncated))
}

/// What linking did.
pub struct DreamLinkReport {
    /// Whether the task ran.
    pub attempted: bool,
    /// Pairs found.
    pub candidates: usize,
    /// Links written.
    pub links_written: usize,
    /// Whether there are more.
    pub truncated: bool,
}

/// The confidence that evidence gives: `count / (count + 1)`, where a count is at
/// least one and at most the greatest number of 32 bits.
pub open spec fn confidence_of(evidence_count: nat) -> (nat, nat) {
    let count = if evidence_count == 0 {
        1
    } else if evidence_count > u32::MAX {
        u32::MAX as nat
    } else {
        evidence_count
    };
    (count, count + 1)
}

/// The confidence that evidence gives: more evidence, more confidence.
pub fn relationship_confidence_from_evidence(evidence_count: usize) -> (r: (u64, u64))
    ensures
        (r.0 as nat, r.1 as nat) == confidence_of(evidence_count as nat),
{
    let count: u64 = if evidence_count == 0 {
        1
    } else if evidence_count as u64 > 0xffff_ffff {
        0xffff_ffff
    } else {
        evidence_count as u64
    };
    (count, count + 1)
}

/// A confidence lies strictly between zero and one, and strictly grows with the
/// evidence as far as evidence is counted.
pub proof fn law_confidence_grows(a: nat, b: nat)
    requires
        1 <= a < b <= u32::MAX,
    ensures
        0 < confidence_of(a).0 < confidence_of(a).1,
        confidence_of(a).0 * confidence_of(b).1 < confidence_of(b).0 * confidence_of(a).1,
{
    assert(a * (b + 1) < b * (a + 1)) by (nonlinear_arith)
        requires
            a < b,
    ;
}

/// The metadata of an automatic link.
pub open spec fn link_metadata(tags: Seq<Seq<char>>) -> Seq<char> {
    seq!['{'] + joined(
        seq![
            json_quoted("shared_tag_count"@) + seq![':'] + decimal(tags.len()),
            json_quoted("shared_tags"@) + seq![':'] + texts_array(tags),
            json_quoted("source"@) + seq![':'] + json_quoted("dream_tag_link"@),
        ],
        seq![','],
    ) + seq!['}']
}

/// A link to write.
pub struct TagLinkWrite {
    /// The one memory.
    pub src: String,
    /// The other.
    pub dst: String,
    /// The confidence, as a part and the whole.
    pub confidence: (u64, u64),
    /// Metadata.
    pub metadata_json: String,
}

/// Whether a write links a pair.
pub open spec fn writes_link(candidate: DreamTagLinkCandidate, write: TagLinkWrite) -> bool {
    let tags = views(candidate.shared_tags@);
    &&& write.src@ == candidate.src@
    &&& write.dst@ == candidate.dst@
    &&& (write.confidence.0 as nat, write.confidence.1 as nat) == confidence_of(tags.len())
    &&& write.metadata_json@ == link_metadata(tags)
}

/// Writes the metadata of an automatic link.
pub fn link_metadata_json(tags: &Vec<String>) -> (r: String)
    ensures
        r@ == link_metadata(views(tags@)),
{
    let mut members: Vec<(String, JsonMember)> = Vec::new();
    members.push(("shared_tag_count".to_owned(), JsonMember::Number(tags.len() as u64)));
    members.push(("shared_tags".to_owned(), JsonMember::Texts(clone_texts(tags))));
    members.push(("source".to_owned(), JsonMember::Text("dream_tag_link".to_owned())));
    proof {
        reveal_strlit("shared_tag_count");
        reveal_strlit("shared_tags");
        reveal_strlit("source");
        let names = member_names(members@);
        assert(names.len() == 3);
        lemma_less_at(names[0], names[1], 10);
        lemma_less_at(names[1], names[2], 1);
        lemma_less_at(names[0], names[2], 1);
        assert(member_texts(members@) =~= seq![
            json_quoted("shared_tag_count"@) + seq![':'] + decimal(views(tags@).len()),
            json_quoted("shared_tags"@) + seq![':'] + texts_array(views(tags@)),
            json_quoted("source"@) + seq![':'] + json_quoted("dream_tag_link"@),
        ]);
    }
    json_object(members)
}

/// The links of a run: one for each pair, none in a dry run.
pub fn link_writes(prepared: &PreparedDreamRequest, list: &Vec<DreamTagLinkCandidate>) -> (r: Vec<
    TagLinkWrite,
>)
    ensures
        prepared.dry_run ==> r@.len() == 0,
        !prepared.dry_run ==> r@.len() == list@.len() && forall|i: int|
            0 <= i < r@.len() ==> writes_link(list@[i], #[trigger] r@[i]),
{
    let mut out: Vec<TagLinkWrite> = Vec::new();
    if prepared.dry_run {
        return out;
    }
    for i in 0..list.len()
        invariant
            out@.len() == i,
            forall|k: int| 0 <= k < i ==> writes_link(list@[k], #[trigger] out@[k]),
    {
        assert(views(list@[i as int].shared_tags@).len() == list@[i as int].shared_tags@.len());
        out.push(
            TagLinkWrite {
                src: list[i].src.clone(),
                dst: list[i].dst.clone(),
                confidence: relationship_confidence_from_evidence(list[i].shared_tags.len()),
                metadata_json: link_metadata_json(&list[i].shared_tags),
            },
        );
    }
    out
}

/// Whether a report shows the linking of pairs that are not linked yet: a link for
/// each of them up to the limit, none in a dry run.
pub open spec fn linking_of(
    left: Seq<TagLinkRow>,
    prepared: PreparedDreamRequest,
    r: DreamLinkReport,
) -> bool {
    &&& r.attempted
    &&& r.candidates == handled(left, prepared.max_memories as nat).len()
    &&& r.links_written == if prepared.dry_run {
        0
    } else {
        handled(left, prepared.max_memories as nat).len()
    }
    &&& r.truncated == (left.len() > prepared.max_memories)
}

/// The linked memories after a run.
pub open spec fn linked_after(
    rows: Seq<TagLinkRow>,
    linked: Seq<(Seq<char>, Seq<char>)>,
    prepared: PreparedDreamRequest,
) -> Seq<(Seq<char>, Seq<char>)> {
    if prepared.dry_run {
        linked
    } else {
        linked + handled(unlinked(rows, linked), prepared.max_memories as nat).map_values(
            |row: TagLinkRow| (row.src@, row.dst@),
        )
    }
}

proof fn lemma_unlinked_rows(
    rows: Seq<TagLinkRow>,
    linked: Seq<(Seq<char>, Seq<char>)>,
    later: Seq<(Seq<char>, Seq<char>)>,
)
    requires
        forall|p: (Seq<char>, Seq<char>)| linked.contains(p) ==> #[trigger] later.contains(p),
        forall|i: int|
            0 <= i < unlinked(rows, linked).len() ==> later.contains(
                ((#[trigger] unlinked(rows, linked)[i]).src@, unlinked(rows, linked)[i].dst@),
            ),
    ensures
        unlinked(rows, later).len() == 0,
    decreases rows.len(),
{
    if rows.len() > 0 {
        let rest = rows.drop_last();
        let all = unlinked(rows, linked);
        let before = unlinked(rest, linked);
        assert forall|i: int| 0 <= i < before.len() implies later.contains(
            ((#[trigger] before[i]).src@, before[i].dst@),
        ) by {
            assert(all[i] == before[i]);
        }
        lemma_unlinked_rows(rest, linked, later);
        let row = rows.last();
        if !is_linked(linked, row.src@, row.dst@) {
            assert(all[all.len() - 1] == row);
        }
    }
}

/// A pair that is linked in either direction is no candidate for a link.
pub proof fn law_linked_pairs_are_no_candidates(
    rows: Seq<TagLinkRow>,
    linked: Seq<(Seq<char>, Seq<char>)>,
)
    ensures
        forall|i: int|
            0 <= i < unlinked(rows, linked).len() ==> !is_linked(
                linked,
                (#[trigger] unlinked(rows, linked)[i]).src@,
                unlinked(rows, linked)[i].dst@,
            ),
    decreases rows.len(),
{
    if rows.len() > 0 {
        let before = unlinked(rows.drop_last(), linked);
        let all = unlinked(rows, linked);
        law_linked_pairs_are_no_candidates(rows.drop_last(), linked);
        assert forall|i: int| 0 <= i < all.len() implies !is_linked(
            linked,
            (#[trigger] all[i]).src@,
            all[i].dst@,
        ) by {
            if i < before.len() {
                assert(all[i] == before[i]);
            }
        }
    }
}

/// Linking is done once: after a run that was no dry run and was not cut by its limit,
/// the same run on the same memories finds and writes nothing.
pub proof fn law_linking_is_done_once(
    rows: Seq<TagLinkRow>,
    linked: Seq<(Seq<char>, Seq<char>)>,
    prepared: PreparedDreamRequest,
    first: DreamLinkReport,
    second: DreamLinkReport,
)
    requires
        !prepared.dry_run,
        linking_of(unlinked(rows, linked), prepared, first),
        !first.truncated,
        linking_of(unlinked(rows, linked_after(rows, linked, prepared)), prepared, second),
    ensures
        second.candidates == 0,
        second.links_written == 0,
        !second.truncated,
{
    let left = unlinked(rows, linked);
    let later = linked_after(rows, linked, prepared);
    let made = left.map_values(|row: TagLinkRow| (row.src@, row.dst@));
    assert(handled(left, prepared.max_memories as nat) =~= left);
    assert(later =~= linked + made);
    assert forall|p: (Seq<char>, Seq<char>)| linked.contains(p) implies #[trigger] later.contains(
        p,
    ) by {
        let k = choose|k: int| 0 <= k < linked.len() && linked[k] == p;
        assert(later[k] == p);
    }
    assert forall|i: int| 0 <= i < left.len() implies later.contains(
        ((#[trigger] left[i]).src@, left[i].dst@),
    ) by {
        assert(later[linked.len() + i] == made[i]);
    }
    lemma_unlinked_rows(rows, linked, later);
}

/// Reports a linking.
pub fn dream_tag_link(
    prepared: &PreparedDreamRequest,
    rows: &Vec<TagLinkRow>,
    linked: &Vec<LinkedPair>,
) -> (r: Result<DreamLinkReport, Error>)
    ensures
        ({
            let left = unlinked(rows@, pairs(linked@));
            match r {
                Ok(report) => link_rows_fault(left) is None && linking_of(left, *prepared, report),
                Err(e) => link_rows_fault(left) == Some(e@),
            }
        }),
{
    match dream_tag_link_candidates(prepared, rows, linked) {
        Err(e) => Err(e),
        Ok(found) => Ok(
            DreamLinkReport {
                attempted: true,
                candidates: found.0.len(),
                links_written: if prepared.dry_run {
                    0
                } else {
                    found.0.len()
                },
                truncated: found.1,
            },
        ),
    }
}

/// An entity that a memory names and the graph does not have.
pub struct DreamEntityProjection {
    /// Space.
    pub space: String,
    /// Key of the entity.
    pub entity_key: String,
}

/// A relationship that links between memories suggest.
pub struct DreamRelationshipProposal {
    /// Space.
    pub space: String,
    /// A memory on the one side.
    pub src_memory_id: String,
    /// A memory on the other side.
    pub dst_memory_id: String,
    /// Type of the links.
    pub link_type: String,
    /// Entity on the one side.
    pub subject_entity_key: String,
    /// Type of the relationship.
    pub relation_type: String,
    /// Entity on the other side.
    pub object_entity_key: String,
    /// Links that support it.
    pub evidence_count: usize,
}

/// The links that support a relationship, as counted: at least one.
pub fn evidence_count_of(count: i64) -> (r: usize)
    ensures
        r == if count < 1 || count > usize::MAX {
            1
        } else {
            count as int
        },
{
    if count < 1 || count as u64 > usize::MAX as u64 {
        1
    } else {
        count as usize
    }
}

/// What the graph task finds. Each list holds one row more than the limit where
/// there is more.
pub struct DreamGraphRows {
    /// Entities that are missing.
    pub missing: Vec<DreamEntityProjection>,
    /// Entities without memory and relationship.
    pub orphans: Vec<String>,
    /// Relationships without an active entity at one end.
    pub dangling: Vec<String>,
    /// Relationships whose memory is gone or inactive.
    pub inactive: Vec<String>,
    /// Relationships that links suggest.
    pub proposals: Vec<DreamRelationshipProposal>,
}

/// What the graph task did.
pub struct DreamGraphReport {
    /// Whether the task ran.
    pub attempted: bool,
    /// Entities without memory and relationship.
    pub orphan_entities: usize,
    /// Relationships without an active entity at one end.
    pub dangling_relationships: usize,
    /// Relationships whose memory is gone or inactive.
    pub inactive_evidence_relationships: usize,
    /// Entities that were missing.
    pub missing_entity_projections: Vec<DreamEntityProjection>,
    /// Relationships that links suggest.
    pub relationship_proposals: Vec<DreamRelationshipProposal>,
    /// Whether there are more.
    pub truncated: bool,
    /// The orphans.
    pub orphan_entity_ids: Vec<String>,
    /// The dangling relationships.
    pub dangling_relationship_ids: Vec<String>,
    /// The relationships without active evidence.
    pub inactive_evidence_relationship_ids: Vec<String>,
}

/// Whether a report shows that nothing was attempted.
pub open spec fn no_graph(r: DreamGraphReport) -> bool {
    &&& !r.attempted && !r.truncated
    &&& r.orphan_entities == 0 && r.dangling_relationships == 0
    &&& r.inactive_evidence_relationships == 0
    &&& r.missing_entity_projections@.len() == 0 && r.relationship_proposals@.len() == 0
    &&& r.orphan_entity_ids@.len() == 0 && r.dangling_relationship_ids@.len() == 0
    &&& r.inactive_evidence_relationship_ids@.len() == 0
}

/// Whether a report shows what was found, each list up to the limit.
pub open spec fn graph_of(rows: DreamGraphRows, max: nat, r: DreamGraphReport) -> bool {
    &&& r.attempted
    &&& r.missing_entity_projections@ == handled(rows.missing@, max)
    &&& r.relationship_proposals@ == handled(rows.proposals@, max)
    &&& r.orphan_entity_ids@ == handled(rows.orphans@, max)
    &&& r.dangling_relationship_ids@ == handled(rows.dangling@, max)
    &&& r.inactive_evidence_relationship_ids@ == handled(rows.inactive@, max)
    &&& r.orphan_entities == r.orphan_entity_ids@.len()
    &&& r.dangling_relationships == r.dangling_relationship_ids@.len()
    &&& r.inactive_evidence_relationships == r.inactive_evidence_relationship_ids@.len()
    &&& r.truncated == (rows.missing@.len() > max || rows.orphans@.len() > max
        || rows.dangling@.len() > max || rows.inactive@.len() > max || rows.proposals@.len()
        > max)
}

/// The report of a graph task that did not run.
pub fn empty_dream_graph_report() -> (r: DreamGraphReport)
    ensures
        no_graph(r),
{
    DreamGraphReport {
        attempted: false,
        orphan_entities: 0,
        dangling_relationships: 0,
        inactive_evidence_relationships: 0,
        missing_entity_projections: Vec::new(),
        relationship_proposals: Vec::new(),
        truncated: false,
        orphan_entity_ids: Vec::new(),
        dangling_relationship_ids: Vec::new(),
        inactive_evidence_relationship_ids: Vec::new(),
    }
}

/// Reports what the graph task found, each list up to the limit of the run.
pub fn dream_graph_diagnostics(prepared: &PreparedDreamRequest, rows: DreamGraphRows) -> (r:
    DreamGraphReport)
    ensures
        graph_of(rows, prepared.max_memories as nat, r),
{
    let max: usize = prepared.max_memories;
    let truncated: bool = rows.missing.len() > max || rows.orphans.len() > max
        || rows.dangling.len() > max || rows.inactive.len() > max || rows.proposals.len() > max;
    let mut missing = rows.missing;
    let mut orphans = rows.orphans;
    let mut dangling = rows.dangling;
    let mut inactive = rows.inactive;
    let mut proposals = rows.proposals;
    missing.truncate(max);
    orphans.truncate(max);
    dangling.truncate(max);
    inactive.truncate(max);
    proposals.truncate(max);
    assert(missing@ =~= handled(rows.missing@, max as nat));
    assert(orphans@ =~= handled(rows.orphans@, max as nat));
    assert(dangling@ =~= handled(rows.dangling@, max as nat));
    assert(inactive@ =~= handled(rows.inactive@, max as nat));
    assert(proposals@ =~= handled(rows.proposals@, max as nat));
    DreamGraphReport {
        attempted: true,
        orphan_entities: orphans.len(),
        dangling_relationships: dangling.len(),
        inactive_evidence_relationships: inactive.len(),
        missing_entity_projections: missing,
        relationship_proposals: proposals,
        truncated,
        orphan_entity_ids: orphans,
        dangling_relationship_ids: dangling,
        inactive_evidence_relationship_ids: inactive,
    }
}

/// A table of the graph.
#[derive(Debug, Clone, Copy, PartialEq, Eq, Structural)]
pub enum GraphTable {
    /// The relationships.
    Relationships,
    /// The entities.
    Entities,
}

/// A row of the graph that is taken out of use.
pub struct GraphTombstone {
    /// Where it is.
    pub table: GraphTable,
    /// Its id.
    pub id: String,
}

/// The models of rows that are taken out of use.
pub open spec fn tombstones(list: Seq<GraphTombstone>) -> Seq<(GraphTable, Seq<char>)> {
    list.map_values(|t: GraphTombstone| (t.table, t.id@))
}

/// Rows of one table.
pub open spec fn rows_of(table: GraphTable, ids: Seq<Seq<char>>) -> Seq<(GraphTable, Seq<char>)> {
    ids.map_values(|id: Seq<char>| (table, id))
}

/// The statement that takes one active row of a table out of use.
pub fn tombstone_sql(table: GraphTable) -> (r: &'static str)
    ensures
        r@ == match table {
            GraphTable::Relationships => "UPDATE relationships SET status = ?1, updated_at = ?2 WHERE id = ?3 AND status = 'active'"@,
            GraphTable::Entities => "UPDATE entities SET status = ?1, updated_at = ?2 WHERE id = ?3 AND status = 'active'"@,
        },
{
    match table {
        GraphTable::Relationships => "UPDATE relationships SET status = ?1, updated_at = ?2 WHERE id = ?3 AND status = 'active'",
        GraphTable::Entities => "UPDATE entities SET status = ?1, updated_at = ?2 WHERE id = ?3 AND status = 'active'",
    }
}

fn add_tombstones(out: &mut Vec<GraphTombstone>, table: GraphTable, ids: &Vec<String>)
    ensures
        tombstones(final(out)@) == tombstones(old(out)@) + rows_of(table, views(ids@)),
{
    let ghost start = tombstones(out@);
    let ghost wanted = rows_of(table, views(ids@));
    assert(start + wanted.take(0) =~= start);
    for i in 0..ids.len()
        invariant
            wanted == rows_of(table, views(ids@)),
            tombstones(out@) == start + wanted.take(i as int),
    {
        let ghost before = out@;
        out.push(GraphTombstone { table, id: ids[i].clone() });
        assert(tombstones(out@) =~= tombstones(before).push(wanted[i as int]));
        assert(wanted.take(i + 1) =~= wanted.take(i as int).push(wanted[i as int]));
        assert(tombstones(out@) =~= start + wanted.take(i + 1));
    }
    assert(wanted.take(ids@.len() as int) =~= wanted);
}

/// The rows that a graph task takes out of use: exactly those that it reports,
/// relationships before entities; none in a dry run.
pub fn tombstone_graph_rows(prepared: &PreparedDreamRequest, report: &DreamGraphReport) -> (r: Vec<
    GraphTombstone,
>)
    ensures
        prepared.dry_run ==> r@.len() == 0,
        !prepared.dry_run ==> tombstones(r@) == rows_of(
            GraphTable::Relationships,
            views(report.dangling_relationship_ids@),
        ) + rows_of(
            GraphTable::Relationships,
            views(report.inactive_evidence_relationship_ids@),
        ) + rows_of(GraphTable::Entities, views(report.orphan_entity_ids@)),
{
    let mut out: Vec<GraphTombstone> = Vec::new();
    if prepared.dry_run {
        return out;
    }
    assert(tombstones(out@) =~= Seq::empty());
    add_tombstones(&mut out, GraphTable::Relationships, &report.dangling_relationship_ids);
    add_tombstones(&mut out, GraphTable::Relationships, &report.inactive_evidence_relationship_ids);
    add_tombstones(&mut out, GraphTable::Entities, &report.orphan_entity_ids);
    assert(tombstones(out@) =~= rows_of(
        GraphTable::Relationships,
        views(report.dangling_relationship_ids@),
    ) + rows_of(
        GraphTable::Relationships,
        views(report.inactive_evidence_relationship_ids@),
    ) + rows_of(GraphTable::Entities, views(report.orphan_entity_ids@)));
    out
}

/// What the tasks of a run found. What was found for a task that does not run is
/// not looked at.
pub struct DreamRows {
    /// Memories to promote.
    pub promote: Vec<String>,
    /// Memories to expire.
    pub expire: Vec<DreamExpireCandidate>,
    /// Memories and document chunks in the indexes.
    pub reindex: (usize, usize),
    /// Groups of memories with equal content.
    pub duplicates: Vec<DreamDuplicateGroup>,
    /// Pairs of memories that share topic tags.
    pub links: Vec<TagLinkRow>,
    /// Memories that were linked as related before the run.
    pub linked: Vec<LinkedPair>,
    /// What the graph task found.
    pub graph: DreamGraphRows,
}

/// Id and times of a run.
pub struct DreamRun {
    /// Id.
    pub run_id: String,
    /// When it began.
    pub started_at: String,
    /// When it ended.
    pub finished_at: String,
}

/// Report of a run.
pub struct DreamReport {
    /// Id of the run.
    pub run_id: String,
    /// Space.
    pub space: Option<String>,
    /// Silos.
    pub silos: Vec<String>,
    /// Tasks that ran.
    pub tasks: Vec<String>,
    /// How it ended.
    pub status: &'static str,
    /// When it began.
    pub started_at: String,
    /// When it ended.
    pub finished_at: String,
    /// Whether nothing was written.
    pub dry_run: bool,
    /// Whether the run is recorded.
    pub journaled: bool,
    /// Memories that each task handled at most.
    pub max_memories: usize,
    /// Promotion.
    pub promote: DreamPromoteReport,
    /// Expiry.
    pub expire: DreamExpireReport,
    /// Reindexing.
    pub reindex: DreamReindexReport,
    /// Duplicates.
    pub dedupe: DreamDedupeReport,
    /// Graph.
    pub graph: DreamGraphReport,
    /// Links.
    pub link: DreamLinkReport,
}

/// The fault of a run: that of the promotion, or that of the linking.
pub open spec fn dream_run_fault(prepared: PreparedDreamRequest, rows: DreamRows) -> Option<Fault> {
    first_of(
        if has_task(prepared, DREAM_TASK_PROMOTE@) {
            promote_fault(prepared)
        } else {
            None
        },
        if has_task(prepared, DREAM_TASK_LINK@) {
            link_rows_fault(unlinked(rows.links@, pairs(rows.linked@)))
        } else {
            None
        },
    )
}

/// Whether a report shows what the tasks of a run did: what was found by those
/// that ran, and nothing for the others.
pub open spec fn reports_tasks(
    prepared: PreparedDreamRequest,
    rows: DreamRows,
    r: DreamReport,
) -> bool {
    let max = prepared.max_memories as nat;
    &&& if has_task(prepared, DREAM_TASK_PROMOTE@) {
        promotion_of(views(rows.promote@), max, r.promote)
    } else {
        no_promotion(r.promote)
    }
    &&& if has_task(prepared, DREAM_TASK_EXPIRE@) {
        expiry_of(expire_models(rows.expire@), max, prepared.include_pinned, r.expire)
    } else {
        no_expiry(r.expire)
    }
    &&& if has_task(prepared, DREAM_TASK_REINDEX@) {
        r.reindex == (DreamReindexReport {
            attempted: true,
            memory_rows: rows.reindex.0,
            source_episode_rows: rows.reindex.1,
        })
    } else {
        r.reindex == (DreamReindexReport {
            attempted: false,
            memory_rows: 0,
            source_episode_rows: 0,
        })
    }
    &&& if has_task(prepared, DREAM_TASK_DEDUPE@) {
        duplicates_of(rows.duplicates@, max, r.dedupe)
    } else {
        !r.dedupe.attempted && r.dedupe.proposals@.len() == 0 && !r.dedupe.truncated
    }
    &&& if has_task(prepared, DREAM_TASK_LINK@) {
        linking_of(unlinked(rows.links@, pairs(rows.linked@)), prepared, r.link)
    } else {
        r.link == (DreamLinkReport {
            attempted: false,
            candidates: 0,
            links_written: 0,
            truncated: false,
        })
    }
    &&& if has_task(prepared, DREAM_TASK_GRAPH@) {
        graph_of(rows.graph, max, r.graph)
    } else {
        no_graph(r.graph)
    }
}

/// Whether a report shows a run as it was requested.
pub open spec fn reports_run(
    prepared: PreparedDreamRequest,
    rows: DreamRows,
    run: DreamRun,
    r: DreamReport,
) -> bool {
    &&& r.run_id@ == run.run_id@
    &&& r.started_at@ == run.started_at@
    &&& r.finished_at@ == run.finished_at@
    &&& text_of_string(r.space) == text_of_string(prepared.space)
    &&& views(r.silos@) == views(prepared.silos@)
    &&& views(r.tasks@) == views(prepared.tasks@)
    &&& r.status@ == "succeeded"@
    &&& r.dry_run == prepared.dry_run
    &&& r.journaled == !prepared.dry_run
    &&& r.max_memories == prepared.max_memories
    &&& reports_tasks(prepared, rows, r)
}

fn report_links(
    prepared: &PreparedDreamRequest,
    rows: &Vec<TagLinkRow>,
    linked: &Vec<LinkedPair>,
) -> (r: Result<DreamLinkReport, Error>)
    ensures
        match r {
            Ok(report) => if has_task(*prepared, DREAM_TASK_LINK@) {
                link_rows_fault(unlinked(rows@, pairs(linked@))) is None && linking_of(
                    unlinked(rows@, pairs(linked@)),
                    *prepared,
                    report,
                )
            } else {
                report == (DreamLinkReport {
                    attempted: false,
                    candidates: 0,
                    links_written: 0,
                    truncated: false,
                })
            },
            Err(e) => has_task(*prepared, DREAM_TASK_LINK@) && link_rows_fault(
                unlinked(rows@, pairs(linked@)),
            ) == Some(e@),
        },
{
    if dream_has_task(prepared, DREAM_TASK_LINK) {
        dream_tag_link(prepared, rows, linked)
    } else {
        Ok(
            DreamLinkReport { attempted: false, candidates: 0, links_written: 0, truncated: false },
        )
    }
}

/// Reports a run: each task that was asked for, in order, and nothing for the
/// others.
pub fn dream_store_tx(prepared: &PreparedDreamRequest, rows: DreamRows, run: &DreamRun) -> (r:
    Result<DreamReport, Error>)
    ensures
        match r {
            Ok(report) => dream_run_fault(*prepared, rows) is None && reports_run(
                *prepared,
                rows,
                *run,
                report,
            ),
            Err(e) => dream_run_fault(*prepared, rows) == Some(e@),
        },
{
    if dream_has_task(prepared, DREAM_TASK_PROMOTE) {
        if let Err(e) = promote_query(prepared) {
            return Err(e);
        }
    }
    let link = match report_links(prepared, &rows.links, &rows.linked) {
        Ok(report) => report,
        Err(e) => {
            return Err(e);
        },
    };
    let promote = if dream_has_task(prepared, DREAM_TASK_PROMOTE) {
        dream_promote_memories(prepared, &rows.promote)
    } else {
        empty_dream_promote_report()
    };
    let expire = if dream_has_task(prepared, DREAM_TASK_EXPIRE) {
        dream_expire_memories(prepared, &rows.expire)
    } else {
        empty_dream_expire_report()
    };
    let reindexing: bool = dream_has_task(prepared, DREAM_TASK_REINDEX);
    let reindex = DreamReindexReport {
        attempted: reindexing,
        memory_rows: if reindexing {
            rows.reindex.0
        } else {
            0
        },
        source_episode_rows: if reindexing {
            rows.reindex.1
        } else {
            0
        },
    };
    let dedupe = if dream_has_task(prepared, DREAM_TASK_DEDUPE) {
        dream_exact_duplicate_proposals(prepared, &rows.duplicates)
    } else {
        DreamDedupeReport { attempted: false, proposals: Vec::new(), truncated: false }
    };
    let graph = if dream_has_task(prepared, DREAM_TASK_GRAPH) {
        dream_graph_diagnostics(prepared, rows.graph)
    } else {
        empty_dream_graph_report()
    };
    Ok(
        DreamReport {
            run_id: run.run_id.clone(),
            space: clone_text(&prepared.space),
            silos: clone_texts(&prepared.silos),
            tasks: clone_texts(&prepared.tasks),
            status: "succeeded",
            started_at: run.started_at.clone(),
            finished_at: run.finished_at.clone(),
            dry_run: prepared.dry_run,
            journaled: !prepared.dry_run,
            max_memories: prepared.max_memories,
            promote,
            expire,
            reindex,
            dedupe,
            graph,
            link,
        },
    )
}

/// Whether a report is on the run that a request asks for, once it is checked.
pub open spec fn reports_dream(
    request: DreamRequest,
    rows: DreamRows,
    run: DreamRun,
    report: DreamReport,
) -> bool {
    exists|prepared: PreparedDreamRequest| #[trigger]
        prepares(request, prepared) && dream_run_fault(prepared, rows) is None && reports_run(
            prepared,
            rows,
            run,
            report,
        )
}

/// Whether the run that a request asks for, once it is checked, ends in a fault.
pub open spec fn prepared_dream_fault(
    request: DreamRequest,
    rows: DreamRows,
    fault: Fault,
) -> bool {
    exists|prepared: PreparedDreamRequest| #[trigger]
        prepares(request, prepared) && dream_run_fault(prepared, rows) == Some(fault)
}

/// A whole run, from the request to the report.
pub fn dream_store(
    request: &DreamRequest,
    facts: &DreamFacts,
    rows: DreamRows,
    run: &DreamRun,
) -> (r: Result<DreamReport, Error>)
    ensures
        match r {
            Ok(report) => {
                &&& dream_request_fault(*request) is None
                &&& dream_scope_fault(*request, *facts) is None
                &&& reports_dream(*request, rows, *run, report)
            },
            Err(e) => {
                ||| first_of(dream_request_fault(*request), dream_scope_fault(*request, *facts))
                    == Some(e@)
                ||| first_of(dream_request_fault(*request), dream_scope_fault(*request, *facts))
                    is None && prepared_dream_fault(*request, rows, e@)
            },
        },
{
    let prepared = match prepare_dream_request(request, facts) {
        Ok(prepared) => prepared,
        Err(e) => {
            return Err(e);
        },
    };
    assert(prepares(*request, prepared));
    dream_store_tx(&prepared, rows, run)
}

/// Whether the recorded runs after a run are those before it, and the run itself
/// where it was journaled.
pub open spec fn records_run(
    before: Seq<RunRecord>,
    after: Seq<RunRecord>,
    report: DreamReport,
) -> bool {
    if report.journaled {
        &&& after.len() == before.len() + 1
        &&& after.drop_last() == before
        &&& after.last().started_at@ == report.started_at@
        &&& after.last().status@ == report.status@
    } else {
        after == before
    }
}

/// A dry run leaves the time of the last synthesis as it was. A written run that
/// starts no earlier than the last one becomes the answer.
pub proof fn law_written_run_is_last_synthesis(
    prepared: PreparedDreamRequest,
    rows: DreamRows,
    run: DreamRun,
    report: DreamReport,
    before: Seq<RunRecord>,
    after: Seq<RunRecord>,
)
    requires
        reports_run(prepared, rows, run, report),
        records_run(before, after, report),
    ensures
        prepared.dry_run ==> last_success(after) == last_success(before),
        !prepared.dry_run && (last_success(before) matches Some(at) ==> !text_less(
            run.started_at@,
            at,
        )) ==> last_success(after) == Some(run.started_at@),
{
    if !prepared.dry_run {
        if let Some(at) = last_success(before) {
            if !text_less(at, run.started_at@) && !text_less(run.started_at@, at) {
                crate::order::lemma_less_total(at, run.started_at@);
            }
        }
    }
}

/// What a run is recorded with when it begins.
pub open spec fn budget_text(prepared: PreparedDreamRequest) -> Seq<char> {
    "{\"tasks\":"@ + array_text(views(prepared.tasks@)) + ",\"space\":"@ + json_optional(
        text_of_string(prepared.space),
    ) + ",\"silos\":"@ + array_text(views(prepared.silos@)) + ",\"max_memories\":"@ + decimal(
        prepared.max_memories as nat,
    ) + ",\"dry_run\":"@ + bool_text(prepared.dry_run) + ",\"include_pinned\":"@ + bool_text(
        prepared.include_pinned,
    ) + "}"@
}

/// Writes what a run is recorded with when it begins.
pub fn dream_budget_json(prepared: &PreparedDreamRequest) -> (r: String)
    ensures
        r@ == budget_text(*prepared),
{
    let tasks = string_array_json(prepared.tasks.as_slice());
    let space = optional_json_string_for_store(as_text(&prepared.space));
    let silos = string_array_json(prepared.silos.as_slice());
    let number = decimal_of(prepared.max_memories as u64);
    let mut out = concat3("{\"tasks\":", tasks.as_str(), ",\"space\":");
    out.append(space.as_str());
    out.append(",\"silos\":");
    out.append(silos.as_str());
    out.append(",\"max_memories\":");
    out.append(number.as_str());
    out.append(",\"dry_run\":");
    out.append(bool_json(prepared.dry_run));
    out.append(",\"include_pinned\":");
    out.append(bool_json(prepared.include_pinned));
    out.append("}");
    out
}

/// A member of a summary with a number.
pub open spec fn counted(name: Seq<char>, n: nat) -> Seq<char> {
    ",\""@ + name + "\":"@ + decimal(n)
}

fn append_counted(out: &mut String, name: &str, n: usize)
    ensures
        final(out)@ == old(out)@ + counted(name@, n as nat),
{
    let ghost before = out@;
    let number = decimal_of(n as u64);
    out.append(",\"");
    out.append(name);
    out.append("\":");
    out.append(number.as_str());
    assert(out@ =~= before + counted(name@, n as nat));
}

/// What a run is recorded with when it ends.
pub open spec fn summary_text(r: DreamReport) -> Seq<char> {
    "{\"status\":"@ + json_quoted(r.status@) + counted("promoted"@, r.promote.promoted as nat)
        + counted("expired"@, r.expire.expired as nat) + counted(
        "skipped_pinned"@,
        r.expire.skipped_pinned as nat,
    ) + counted("reindex_memory_rows"@, r.reindex.memory_rows as nat) + counted(
        "reindex_source_episode_rows"@,
        r.reindex.source_episode_rows as nat,
    ) + counted("duplicate_proposals"@, r.dedupe.proposals@.len()) + counted(
        "graph_orphan_entities"@,
        r.graph.orphan_entities as nat,
    ) + counted("graph_dangling_relationships"@, r.graph.dangling_relationships as nat) + counted(
        "graph_inactive_evidence_relationships"@,
        r.graph.inactive_evidence_relationships as nat,
    ) + counted(
        "graph_missing_entity_projections"@,
        r.graph.missing_entity_projections@.len(),
    ) + counted("graph_relationship_proposals"@, r.graph.relationship_proposals@.len()) + counted(
        "tag_links_written"@,
        r.link.links_written as nat,
    ) + ",\"dry_run\":"@ + bool_text(r.dry_run) + "}"@
}

/// Writes what a run is recorded with when it ends.
pub fn dream_summary_json(r: &DreamReport) -> (s: String)
    ensures
        s@ == summary_text(*r),
{
    let status = json_string_for_store(r.status);
    let mut out = crate::error::concat("{\"status\":", status.as_str());
    append_counted(&mut out, "promoted", r.promote.promoted);
    append_counted(&mut out, "expired", r.expire.expired);
    append_counted(&mut out, "skipped_pinned", r.expire.skipped_pinned);
    append_counted(&mut out, "reindex_memory_rows", r.reindex.memory_rows);
    append_counted(&mut out, "reindex_source_episode_rows", r.reindex.source_episode_rows);
    append_counted(&mut out, "duplicate_proposals", r.dedupe.proposals.len());
    append_counted(&mut out, "graph_orphan_entities", r.graph.orphan_entities);
    append_counted(&mut out, "graph_dangling_relationships", r.graph.dangling_relationships);
    append_counted(
        &mut out,
        "graph_inactive_evidence_relationships",
        r.graph.inactive_evidence_relationships,
    );
    append_counted(
        &mut out,
        "graph_missing_entity_projections",
        r.graph.missing_entity_projections.len(),
    );
    append_counted(
        &mut out,
        "graph_relationship_proposals",
        r.graph.relationship_proposals.len(),
    );
    append_counted(&mut out, "tag_links_written", r.link.links_written);
    out.append(",\"dry_run\":");
    out.append(bool_json(r.dry_run));
    out.append("}");
    out
}

} // verus!
