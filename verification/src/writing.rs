//! The decisions of a memory write, from the request and what the store holds.

use vstd::prelude::*;

use crate::capture::{graph_capture_status, tells_capture, GraphCaptureStatus};
use crate::digest::{sha256_text, text_digest};
use crate::error::{not_found, Error, Fault};
use crate::json::{
    array_text, as_text, bool_json, bool_text, json_quoted, json_string_for_store,
    string_array_json, text_of_string,
};
use crate::order::{text_less, text_lt};
use crate::pool::clone_texts;
use crate::remember::{
    optional_representation_fault, remember_request_fault, tags_fault, validate_remember_request,
    RememberRequest,
};
use crate::representation::{
    companion, retrieval_companion, validate_retrieval_representation,
};
use crate::similar::{
    accumulated, detect_remember_candidates, detected, related_models, RelatedRows,
    RememberCandidate,
};
use crate::supersession::{
    ensure_memories_in_space, missing_fault, states, superseded_all, supersede_memories,
    MemoryState, StateModel,
};
use crate::terms::{comparison_terms, memory_fts_metadata_text, metadata_text};
use crate::text::{
    bounded_char_slice, char_window, chars_of, collapse_whitespace, collapsed, join, joined, lower,
    text_eq, to_ascii_lower, views,
};
use crate::validate::{
    first_of, normal_tags, normalize_utc_timestamp, normalized_tags, to_milliseconds,
};
use crate::vocabulary::{
    DEFAULT_DURABLE_SILO, DEFAULT_SPACE, KIND_CONTINUITY, KIND_DECISION, KIND_FACT, KIND_LESSON,
    KIND_PREFERENCE, MAX_REMEMBER_CONFLICT_CANDIDATES, SCOPE_WORKSPACE,
};

verus! {

/// The first text that is there, else a default.
pub open spec fn text_or(value: Option<Seq<char>>, default: Seq<char>) -> Seq<char> {
    match value {
        Some(text) => text,
        None => default,
    }
}

/// The first text that is there, else a default.
pub fn text_or_default(value: &Option<String>, default: &str) -> (r: String)
    ensures
        r@ == text_or(text_of_string(*value), default@),
{
    match value {
        Some(text) => text.clone(),
        None => default.to_owned(),
    }
}

/// The part of a key behind the last of its separators `:`, `/` and `#`.
pub open spec fn last_segment(key: Seq<char>) -> Seq<char>
    decreases key.len(),
{
    if key.len() == 0 || key.last() == ':' || key.last() == '/' || key.last() == '#' {
        Seq::empty()
    } else {
        last_segment(key.drop_last()).push(key.last())
    }
}

/// A text with spaces in place of `_`, `-` and `.`.
pub open spec fn spaced(s: Seq<char>) -> Seq<char> {
    s.map_values(
        |c: char|
            if c == '_' || c == '-' || c == '.' {
                ' '
            } else {
                c
            },
    )
}

/// The readable name of an entity key; the key itself where nothing is readable.
pub open spec fn canonical_name(key: Seq<char>) -> Seq<char> {
    let name = collapsed(spaced(last_segment(key)));
    if name.len() == 0 {
        key
    } else {
        name
    }
}

proof fn lemma_last_segment(key: Seq<char>, start: int)
    requires
        0 <= start <= key.len(),
        start == 0 || key[start - 1] == ':' || key[start - 1] == '/' || key[start - 1] == '#',
        forall|i: int|
            start <= i < key.len() ==> (#[trigger] key[i]) != ':' && key[i] != '/' && key[i] != '#',
    ensures
        last_segment(key) == key.skip(start),
    decreases key.len(),
{
    if start == key.len() {
        assert(key.skip(start) =~= Seq::empty());
    } else {
        let rest = key.drop_last();
        assert forall|i: int| start <= i < rest.len() implies (#[trigger] rest[i]) != ':' && rest[i]
            != '/' && rest[i] != '#' by {
            assert(rest[i] == key[i]);
        }
        lemma_last_segment(rest, start);
        assert(key[key.len() - 1] == key.last());
        assert(key.skip(start) =~= rest.skip(start).push(key.last()));
    }
}

/// The readable name of an entity key.
pub fn canonical_name_from_entity_key(entity_key: &str) -> (r: String)
    ensures
        r@ == canonical_name(entity_key@),
{
    let chars = chars_of(entity_key);
    let mut start: usize = chars.len();
    while start > 0 && chars[start - 1] != ':' && chars[start - 1] != '/' && chars[start - 1] != '#'
        invariant
            chars@ == entity_key@,
            start <= chars@.len(),
            forall|i: int|
                start <= i < chars@.len() ==> (#[trigger] chars@[i]) != ':' && chars@[i] != '/'
                    && chars@[i] != '#',
        decreases start,
    {
        start = start - 1;
    }
    proof {
        lemma_last_segment(entity_key@, start as int);
    }
    let ghost segment = last_segment(entity_key@);
    let mut readable = String::new();
    assert(readable@ =~= spaced(segment).take(0));
    for i in start..chars.len()
        invariant
            chars@ == entity_key@,
            start <= chars@.len(),
            segment == entity_key@.skip(start as int),
            readable@ == spaced(segment).take(i - start),
    {
        let c = chars[i];
        assert(segment[i - start] == c);
        let shown = if c == '_' || c == '-' || c == '.' {
            ' '
        } else {
            c
        };
        readable.push(shown);
        assert(spaced(segment).take(i + 1 - start) =~= spaced(segment).take(i - start).push(shown));
    }
    assert(spaced(segment).take(chars@.len() - start) =~= spaced(segment));
    let name = collapse_whitespace(readable.as_str());
    if name.as_str().is_empty() {
        entity_key.to_owned()
    } else {
        name
    }
}

/// An alias in the form in which aliases are looked up.
pub open spec fn alias_form(value: Seq<char>) -> Seq<char> {
    collapsed(lower(value))
}

/// An alias in the form in which aliases are looked up.
pub fn normalized_alias(value: &str) -> (r: String)
    ensures
        r@ == alias_form(value@),
{
    let lowered = to_ascii_lower(value);
    collapse_whitespace(lowered.as_str())
}

/// An active memory with the entity and claim keys of a new one.
pub struct SameClaimCandidate {
    /// Memory id.
    pub memory_id: String,
    /// Kind.
    pub kind: String,
    /// Observation time.
    pub observed_at: String,
    /// Content.
    pub content: String,
    /// Whether it is protected.
    pub pinned: bool,
}

/// A memory of the same claim, as reported.
pub struct RememberConflictCandidate {
    /// Memory id.
    pub memory_id: String,
    /// Kind.
    pub kind: String,
    /// Observation time.
    pub observed_at: String,
    /// Start of the content.
    pub snippet: String,
}

/// The model of a memory of the same claim.
pub struct ConflictModel {
    /// Memory id.
    pub memory_id: Seq<char>,
    /// Kind.
    pub kind: Seq<char>,
    /// Observation time.
    pub observed_at: Seq<char>,
    /// Start of the content.
    pub snippet: Seq<char>,
}

impl View for RememberConflictCandidate {
    type V = ConflictModel;

    open spec fn view(&self) -> ConflictModel {
        ConflictModel {
            memory_id: self.memory_id@,
            kind: self.kind@,
            observed_at: self.observed_at@,
            snippet: self.snippet@,
        }
    }
}

/// The models of memories of the same claim.
pub open spec fn conflicts(list: Seq<RememberConflictCandidate>) -> Seq<ConflictModel> {
    list.map_values(|c: RememberConflictCandidate| c@)
}

/// A memory of the same claim, as reported.
pub open spec fn as_conflict(candidate: SameClaimCandidate) -> ConflictModel {
    ConflictModel {
        memory_id: candidate.memory_id@,
        kind: candidate.kind@,
        observed_at: candidate.observed_at@,
        snippet: char_window(candidate.content@, 0, 240),
    }
}

/// Reports a memory of the same claim.
pub fn same_claim_conflict_candidate(candidate: &SameClaimCandidate) -> (r:
    RememberConflictCandidate)
    ensures
        r@ == as_conflict(*candidate),
{
    RememberConflictCandidate {
        memory_id: candidate.memory_id.clone(),
        kind: candidate.kind.clone(),
        observed_at: candidate.observed_at.clone(),
        snippet: bounded_char_slice(candidate.content.as_str(), 0, 240),
    }
}

/// The memories of the same claim that count: none where the request names the
/// memories it resolves itself or has no claim, else all of them.
pub open spec fn same_claim(request: RememberRequest, rows: Seq<SameClaimCandidate>) -> Seq<
    SameClaimCandidate,
> {
    if request.supersedes@.len() > 0 || request.contradicts@.len() > 0 || request.entity_key is None
        || request.claim_key is None {
        Seq::empty()
    } else {
        rows
    }
}

/// How many of the rows of the same claim count.
fn same_claim_count(request: &RememberRequest, rows: &Vec<SameClaimCandidate>) -> (r: usize)
    ensures
        r <= rows@.len(),
        rows@.take(r as int) == same_claim(*request, rows@),
{
    let n: usize = if request.supersedes.len() > 0 || request.contradicts.len() > 0
        || request.entity_key.is_none() || request.claim_key.is_none() {
        0
    } else {
        rows.len()
    };
    assert(rows@.take(n as int) =~= same_claim(*request, rows@));
    n
}

/// The ids of the memories that are not pinned.
pub open spec fn unpinned_ids(list: Seq<SameClaimCandidate>) -> Seq<Seq<char>>
    decreases list.len(),
{
    if list.len() == 0 {
        Seq::empty()
    } else if list.last().pinned {
        unpinned_ids(list.drop_last())
    } else {
        unpinned_ids(list.drop_last()).push(list.last().memory_id@)
    }
}

/// The ids of the memories that are not pinned and were observed before.
pub open spec fn older_unpinned_ids(list: Seq<SameClaimCandidate>, observed_at: Seq<char>) -> Seq<
    Seq<char>,
>
    decreases list.len(),
{
    if list.len() == 0 {
        Seq::empty()
    } else {
        let before = older_unpinned_ids(list.drop_last(), observed_at);
        if !list.last().pinned && text_less(list.last().observed_at@, observed_at) {
            before.push(list.last().memory_id@)
        } else {
            before
        }
    }
}

/// Whether a memory of the kind replaces older ones of its claim by itself.
pub open spec fn replacing_kind(kind: Seq<char>) -> bool {
    kind == KIND_FACT@ || kind == KIND_PREFERENCE@ || kind == KIND_DECISION@ || kind == KIND_LESSON@
}

/// Tests [`replacing_kind`].
pub fn is_auto_supersede_kind(kind: &str) -> (r: bool)
    ensures
        r == replacing_kind(kind@),
{
    text_eq(kind, KIND_FACT) || text_eq(kind, KIND_PREFERENCE) || text_eq(kind, KIND_DECISION)
        || text_eq(kind, KIND_LESSON)
}

/// The memories that a new one of the kind replaces by itself.
pub open spec fn auto_replaced(
    kind: Seq<char>,
    observed_at: Seq<char>,
    list: Seq<SameClaimCandidate>,
) -> Seq<Seq<char>> {
    if kind == KIND_CONTINUITY@ || !replacing_kind(kind) {
        Seq::empty()
    } else {
        older_unpinned_ids(list, observed_at)
    }
}

/// What a write resolves to: the memories it replaces beyond the named ones, the
/// memories it suggests to replace, and whether it opens conflicts.
pub open spec fn resolution(
    mode: Seq<char>,
    kind: Seq<char>,
    observed_at: Seq<char>,
    list: Seq<SameClaimCandidate>,
) -> (Seq<Seq<char>>, Seq<Seq<char>>, bool) {
    if mode == "append"@ {
        (Seq::empty(), Seq::empty(), false)
    } else if mode == "supersede"@ {
        (unpinned_ids(list), Seq::empty(), false)
    } else if mode == "suggest"@ {
        (Seq::empty(), unpinned_ids(list), false)
    } else if mode == "conflict"@ {
        (Seq::empty(), Seq::empty(), true)
    } else {
        (auto_replaced(kind, observed_at, list), Seq::empty(), false)
    }
}

fn unpinned(rows: &Vec<SameClaimCandidate>, n: usize) -> (r: Vec<String>)
    requires
        n <= rows@.len(),
    ensures
        views(r@) == unpinned_ids(rows@.take(n as int)),
{
    let mut out: Vec<String> = Vec::new();
    assert(views(out@) =~= unpinned_ids(rows@.take(0)));
    for i in 0..n
        invariant
            n <= rows@.len(),
            views(out@) == unpinned_ids(rows@.take(i as int)),
    {
        assert(rows@.take(i + 1).drop_last() =~= rows@.take(i as int));
        assert(rows@.take(i + 1).last() == rows@[i as int]);
        if !rows[i].pinned {
            let ghost before = out@;
            out.push(rows[i].memory_id.clone());
            assert(views(out@) =~= views(before).push(rows@[i as int].memory_id@));
        }
    }
    out
}

/// The memories that a new one of the kind replaces by itself.
pub fn auto_supersede_candidates(
    kind: &str,
    observed_at: &str,
    rows: &Vec<SameClaimCandidate>,
    n: usize,
) -> (r: Vec<String>)
    requires
        n <= rows@.len(),
    ensures
        views(r@) == auto_replaced(kind@, observed_at@, rows@.take(n as int)),
{
    let mut out: Vec<String> = Vec::new();
    assert(views(out@) =~= Seq::empty());
    if text_eq(kind, KIND_CONTINUITY) || !is_auto_supersede_kind(kind) {
        return out;
    }
    assert(views(out@) =~= older_unpinned_ids(rows@.take(0), observed_at@));
    for i in 0..n
        invariant
            n <= rows@.len(),
            views(out@) == older_unpinned_ids(rows@.take(i as int), observed_at@),
    {
        assert(rows@.take(i + 1).drop_last() =~= rows@.take(i as int));
        assert(rows@.take(i + 1).last() == rows@[i as int]);
        if !rows[i].pinned && text_lt(rows[i].observed_at.as_str(), observed_at) {
            let ghost before = out@;
            out.push(rows[i].memory_id.clone());
            assert(views(out@) =~= views(before).push(rows@[i as int].memory_id@));
        }
    }
    out
}

/// The conflict candidates that a write reports: the first few memories of the
/// same claim, for a continuity note and for a write that opens conflicts.
pub open spec fn reported_conflicts(
    kind: Seq<char>,
    open: bool,
    list: Seq<SameClaimCandidate>,
) -> Seq<ConflictModel> {
    if kind == KIND_CONTINUITY@ || open {
        let shown = if list.len() > MAX_REMEMBER_CONFLICT_CANDIDATES {
            list.take(MAX_REMEMBER_CONFLICT_CANDIDATES as int)
        } else {
            list
        };
        shown.map_values(|c: SameClaimCandidate| as_conflict(c))
    } else {
        Seq::empty()
    }
}

fn conflict_list(kind: &str, open: bool, rows: &Vec<SameClaimCandidate>, n: usize) -> (r: Vec<
    RememberConflictCandidate,
>)
    requires
        n <= rows@.len(),
    ensures
        conflicts(r@) == reported_conflicts(kind@, open, rows@.take(n as int)),
{
    let mut out: Vec<RememberConflictCandidate> = Vec::new();
    assert(conflicts(out@) =~= Seq::empty());
    if !(text_eq(kind, KIND_CONTINUITY) || open) {
        return out;
    }
    let shown: usize = if n > MAX_REMEMBER_CONFLICT_CANDIDATES {
        MAX_REMEMBER_CONFLICT_CANDIDATES
    } else {
        n
    };
    assert(rows@.take(n as int).take(shown as int) =~= rows@.take(shown as int));
    let ghost wanted = rows@.take(shown as int).map_values(|c: SameClaimCandidate| as_conflict(c));
    for i in 0..shown
        invariant
            shown <= rows@.len(),
            wanted == rows@.take(shown as int).map_values(|c: SameClaimCandidate| as_conflict(c)),
            conflicts(out@) == wanted.take(i as int),
    {
        let ghost before = out@;
        out.push(same_claim_conflict_candidate(&rows[i]));
        assert(conflicts(out@) =~= conflicts(before).push(wanted[i as int]));
        assert(wanted.take(i + 1) =~= wanted.take(i as int).push(wanted[i as int]));
    }
    assert(wanted.take(shown as int) =~= wanted);
    out
}

/// A conflict candidate as JSON.
pub open spec fn conflict_json(c: ConflictModel) -> Seq<char> {
    "{\"memory_id\":"@ + json_quoted(c.memory_id) + ",\"kind\":"@ + json_quoted(c.kind)
        + ",\"observed_at\":"@ + json_quoted(c.observed_at) + ",\"snippet\":"@ + json_quoted(
        c.snippet,
    ) + "}"@
}

/// Conflict candidates as a JSON array.
pub open spec fn conflicts_json(list: Seq<ConflictModel>) -> Seq<char> {
    seq!['['] + joined(list.map_values(|c: ConflictModel| conflict_json(c)), ","@) + seq![']']
}

/// Writes conflict candidates as a JSON array.
pub fn remember_conflict_candidates_json(candidates: &Vec<RememberConflictCandidate>) -> (r:
    String)
    ensures
        r@ == conflicts_json(conflicts(candidates@)),
{
    let ghost wanted = conflicts(candidates@).map_values(|c: ConflictModel| conflict_json(c));
    let mut parts: Vec<String> = Vec::new();
    assert(views(parts@) =~= wanted.take(0));
    for i in 0..candidates.len()
        invariant
            wanted == conflicts(candidates@).map_values(|c: ConflictModel| conflict_json(c)),
            views(parts@) == wanted.take(i as int),
    {
        let c = &candidates[i];
        let id = json_string_for_store(c.memory_id.as_str());
        let kind = json_string_for_store(c.kind.as_str());
        let observed_at = json_string_for_store(c.observed_at.as_str());
        let snippet = json_string_for_store(c.snippet.as_str());
        let mut part = "{\"memory_id\":".to_owned();
        part.append(id.as_str());
        part.append(",\"kind\":");
        part.append(kind.as_str());
        part.append(",\"observed_at\":");
        part.append(observed_at.as_str());
        part.append(",\"snippet\":");
        part.append(snippet.as_str());
        part.append("}");
        assert(part@ == wanted[i as int]);
        let ghost before = parts@;
        parts.push(part);
        assert(views(parts@) =~= views(before).push(wanted[i as int]));
        assert(wanted.take(i + 1) =~= wanted.take(i as int).push(wanted[i as int]));
    }
    assert(wanted.take(candidates@.len() as int) =~= wanted);
    let body = join(parts.as_slice(), ",");
    let mut out = String::new();
    out.push('[');
    let ghost head = out@;
    assert(head =~= seq!['[']);
    out.append(body.as_str());
    let ghost middle = out@;
    out.push(']');
    assert(out@ =~= middle + seq![']']);
    out
}

/// The event data of a memory write.
pub open spec fn event_data(
    dry_run: bool,
    supersedes: Seq<Seq<char>>,
    contradicts: Seq<Seq<char>>,
    auto_superseded: Seq<Seq<char>>,
    conflict_list: Seq<ConflictModel>,
) -> Seq<char> {
    "{\"dry_run\":"@ + bool_text(dry_run) + ",\"supersedes\":"@ + array_text(supersedes)
        + ",\"contradicts\":"@ + array_text(contradicts) + ",\"auto_superseded\":"@ + array_text(
        auto_superseded,
    ) + ",\"conflict_candidates\":"@ + conflicts_json(conflict_list) + "}"@
}

/// Writes the event data of a memory write.
pub fn event_data_json(
    dry_run: bool,
    supersedes: &Vec<String>,
    contradicts: &Vec<String>,
    auto_superseded: &Vec<String>,
    conflict_candidates: &Vec<RememberConflictCandidate>,
) -> (r: String)
    ensures
        r@ == event_data(
            dry_run,
            views(supersedes@),
            views(contradicts@),
            views(auto_superseded@),
            conflicts(conflict_candidates@),
        ),
{
    let replaced = string_array_json(supersedes.as_slice());
    let contradicted = string_array_json(contradicts.as_slice());
    let automatic = string_array_json(auto_superseded.as_slice());
    let open = remember_conflict_candidates_json(conflict_candidates);
    let mut out = "{\"dry_run\":".to_owned();
    out.append(bool_json(dry_run));
    out.append(",\"supersedes\":");
    out.append(replaced.as_str());
    out.append(",\"contradicts\":");
    out.append(contradicted.as_str());
    out.append(",\"auto_superseded\":");
    out.append(automatic.as_str());
    out.append(",\"conflict_candidates\":");
    out.append(open.as_str());
    out.append("}");
    out
}

/// What a memory write has to know of the store.
pub struct RememberFacts {
    /// The time of the write.
    pub now: String,
    /// The id of the new memory.
    pub memory_id: String,
    /// The default silo of the space, where the space has one.
    pub default_silo: Option<String>,
    /// Whether the space exists.
    pub space_exists: bool,
    /// Whether the space has the silo.
    pub silo_exists: bool,
    /// Whether the space has the named source episode.
    pub source_episode_exists: bool,
    /// The kind that the start of the content suggests.
    pub inferred_kind: Option<String>,
    /// Active memories that may be related.
    pub related: RelatedRows,
    /// Active memories with the same entity and claim keys, newest first.
    pub same_claim: Vec<SameClaimCandidate>,
    /// The states of the memories that the write names or replaces.
    pub states: Vec<MemoryState>,
}

/// A directed link between two memories.
pub struct MemoryLink {
    /// Where it starts.
    pub src_memory_id: String,
    /// Where it ends.
    pub dst_memory_id: String,
    /// What it says.
    pub link_type: &'static str,
}

/// The models of links.
pub open spec fn links(list: Seq<MemoryLink>) -> Seq<(Seq<char>, Seq<char>, Seq<char>)> {
    list.map_values(|l: MemoryLink| (l.src_memory_id@, l.dst_memory_id@, l.link_type@))
}

/// How the alternate text of a memory was stored.
pub struct RepresentationWriteStatus {
    /// Kind of the representation.
    pub kind: String,
    /// Digest of its text.
    pub text_sha256: String,
    /// Whether it is in the full-text index.
    pub fts_indexed: bool,
    /// Whether it is in the semantic index.
    pub semantic_indexed: bool,
    /// The state in a word.
    pub status: &'static str,
}

/// Everything that a memory write puts into the store and reports.
pub struct RememberPlan {
    /// Space.
    pub space: String,
    /// Silo.
    pub silo: String,
    /// Scope.
    pub scope: String,
    /// Kind.
    pub kind: String,
    /// Observation time.
    pub observed_at: String,
    /// Start of validity.
    pub valid_from: Option<String>,
    /// End of validity.
    pub valid_to: Option<String>,
    /// Expiry.
    pub expires_at: Option<String>,
    /// Digest of the content.
    pub content_sha256: String,
    /// Tags.
    pub tags: Vec<String>,
    /// Tags as indexed.
    pub tags_text: String,
    /// Metadata as indexed.
    pub metadata_text: String,
    /// Alternate text as indexed.
    pub retrieval_text: Option<String>,
    /// Data of the write's event.
    pub event_data_json: String,
    /// Memories that become superseded, in order.
    pub superseded: Vec<String>,
    /// Links that are made, in order.
    pub links: Vec<MemoryLink>,
    /// Memories with which a conflict is opened, in order.
    pub open_conflicts: Vec<String>,
    /// The name of the entity that the memory is about.
    pub entity_name: Option<String>,
    /// Related memories.
    pub candidates: Vec<RememberCandidate>,
    /// Whether there were more of them.
    pub candidates_truncated: bool,
    /// Memories replaced beyond the named ones.
    pub auto_superseded: Vec<String>,
    /// Memories of the same claim.
    pub conflict_candidates: Vec<RememberConflictCandidate>,
    /// Memories that the write suggests to replace.
    pub supersede_suggestions: Vec<String>,
    /// The state of the write in a word.
    pub processing_status: &'static str,
    /// How the alternate text was stored.
    pub representation: Option<RepresentationWriteStatus>,
    /// What is written of what came with the memory.
    pub graph_capture: Option<GraphCaptureStatus>,
}

/// The space of a write.
pub open spec fn write_space(request: RememberRequest) -> Seq<char> {
    text_or(text_of_string(request.space), DEFAULT_SPACE@)
}

/// The silo of a write.
pub open spec fn write_silo(request: RememberRequest, default_silo: Option<Seq<char>>) -> Seq<char> {
    text_or(text_of_string(request.silo), text_or(default_silo, DEFAULT_DURABLE_SILO@))
}

/// The kind of a write.
pub open spec fn write_kind(request: RememberRequest, inferred: Option<Seq<char>>) -> Seq<char> {
    text_or(text_of_string(request.kind), text_or(inferred, KIND_FACT@))
}

/// The observation time of a write.
pub open spec fn write_observed_at(request: RememberRequest, now: Seq<char>) -> Seq<char> {
    match text_of_string(request.observed_at) {
        Some(at) => to_milliseconds(at),
        None => now,
    }
}

/// Where a write goes.
pub struct WriteTarget {
    /// Space.
    pub space: String,
    /// Silo.
    pub silo: String,
    /// Kind.
    pub kind: String,
}

/// Where a write goes: the named space, silo and kind, else the defaults.
pub fn remember_target(
    request: &RememberRequest,
    default_silo: &Option<String>,
    inferred_kind: &Option<String>,
) -> (r: WriteTarget)
    ensures
        r.space@ == write_space(*request),
        r.silo@ == write_silo(*request, text_of_string(*default_silo)),
        r.kind@ == write_kind(*request, text_of_string(*inferred_kind)),
{
    let space = text_or_default(&request.space, DEFAULT_SPACE);
    let silo = match &request.silo {
        Some(silo) => silo.clone(),
        None => text_or_default(default_silo, DEFAULT_DURABLE_SILO),
    };
    let kind = match &request.kind {
        Some(kind) => kind.clone(),
        None => text_or_default(inferred_kind, KIND_FACT),
    };
    WriteTarget { space, silo, kind }
}

/// The fault of a missing silo: the space is named where it is missing itself.
pub open spec fn silo_fault(
    space_exists: bool,
    silo_exists: bool,
    space: Seq<char>,
    silo: Seq<char>,
) -> Option<Fault> {
    if silo_exists {
        None
    } else if !space_exists {
        Some(Fault::NotFound("space"@, space))
    } else {
        Some(Fault::NotFound("silo"@, space + "/"@ + silo))
    }
}

/// Checks that a silo exists.
pub fn ensure_silo_exists(space_exists: bool, silo_exists: bool, space: &str, silo: &str) -> (r:
    Result<(), Error>)
    ensures
        crate::error::verdict(r) == silo_fault(space_exists, silo_exists, space@, silo@),
{
    if silo_exists {
        Ok(())
    } else if !space_exists {
        Err(not_found("space", space))
    } else {
        let id = crate::error::concat3(space, "/", silo);
        Err(not_found("silo", id.as_str()))
    }
}

/// The fault of a missing source episode.
pub open spec fn source_fault(request: RememberRequest, exists: bool) -> Option<Fault> {
    match text_of_string(request.source_episode_id) {
        Some(id) => if exists {
            None
        } else {
            Some(Fault::NotFound("source_episode"@, id))
        },
        None => None,
    }
}

/// What a write resolves to.
pub open spec fn write_resolution(request: RememberRequest, facts: RememberFacts) -> (
    Seq<Seq<char>>,
    Seq<Seq<char>>,
    bool,
) {
    resolution(
        request.mode@,
        write_kind(request, text_of_string(facts.inferred_kind)),
        write_observed_at(request, facts.now@),
        same_claim(request, facts.same_claim@),
    )
}

/// The fault of replacing memories: the named ones first, then the others.
pub open spec fn replacing_fault(request: RememberRequest, facts: RememberFacts) -> Option<Fault> {
    match superseded_all(
        states(facts.states@),
        write_space(request),
        views(request.supersedes@) + write_resolution(request, facts).0,
    ) {
        Ok(_) => None,
        Err(fault) => Some(fault),
    }
}

/// The first fault of a write against what the store holds.
pub open spec fn remember_fault(request: RememberRequest, facts: RememberFacts) -> Option<Fault> {
    let space = write_space(request);
    first_of(
        silo_fault(
            facts.space_exists,
            facts.silo_exists,
            space,
            write_silo(request, text_of_string(facts.default_silo)),
        ),
        first_of(
            source_fault(request, facts.source_episode_exists),
            first_of(
                tags_fault(views(request.tags@)),
                first_of(
                    optional_representation_fault(request.retrieval_representation),
                    first_of(
                        replacing_fault(request, facts),
                        missing_fault(states(facts.states@), space, views(request.contradicts@)),
                    ),
                ),
            ),
        ),
    )
}

/// The links of replaced memories: one each way.
pub open spec fn replacing_links(id: Seq<char>, replaced: Seq<Seq<char>>) -> Seq<
    (Seq<char>, Seq<char>, Seq<char>),
>
    decreases replaced.len(),
{
    if replaced.len() == 0 {
        Seq::empty()
    } else {
        replacing_links(id, replaced.drop_last()).push((id, replaced.last(), "supersedes"@)).push(
            (replaced.last(), id, "superseded_by"@),
        )
    }
}

/// The links of contradicted memories: one each way.
pub open spec fn contradicting_links(id: Seq<char>, contradicted: Seq<Seq<char>>) -> Seq<
    (Seq<char>, Seq<char>, Seq<char>),
>
    decreases contradicted.len(),
{
    if contradicted.len() == 0 {
        Seq::empty()
    } else {
        contradicting_links(id, contradicted.drop_last()).push(
            (id, contradicted.last(), "contradicts"@),
        ).push((contradicted.last(), id, "contradicts"@))
    }
}

fn push_link(list: &mut Vec<MemoryLink>, src: &str, dst: &str, link_type: &'static str)
    ensures
        links(final(list)@) == links(old(list)@).push((src@, dst@, link_type@)),
{
    let ghost before = list@;
    list.push(
        MemoryLink { src_memory_id: src.to_owned(), dst_memory_id: dst.to_owned(), link_type },
    );
    assert(links(list@) =~= links(before).push((src@, dst@, link_type@)));
}

fn link_all(id: &str, replaced: &Vec<String>, contradicted: &Vec<String>) -> (r: Vec<MemoryLink>)
    ensures
        links(r@) == replacing_links(id@, views(replaced@)) + contradicting_links(
            id@,
            views(contradicted@),
        ),
{
    let mut out: Vec<MemoryLink> = Vec::new();
    let ghost first = views(replaced@);
    let ghost second = views(contradicted@);
    assert(links(out@) =~= replacing_links(id@, first.take(0)));
    for i in 0..replaced.len()
        invariant
            first == views(replaced@),
            links(out@) == replacing_links(id@, first.take(i as int)),
    {
        assert(first.take(i + 1).drop_last() =~= first.take(i as int));
        assert(first.take(i + 1).last() == replaced@[i as int]@);
        push_link(&mut out, id, replaced[i].as_str(), "supersedes");
        push_link(&mut out, replaced[i].as_str(), id, "superseded_by");
    }
    assert(first.take(replaced@.len() as int) =~= first);
    let ghost base = links(out@);
    assert(base + contradicting_links(id@, second.take(0)) =~= base);
    for i in 0..contradicted.len()
        invariant
            second == views(contradicted@),
            links(out@) == base + contradicting_links(id@, second.take(i as int)),
    {
        assert(second.take(i + 1).drop_last() =~= second.take(i as int));
        assert(second.take(i + 1).last() == contradicted@[i as int]@);
        push_link(&mut out, id, contradicted[i].as_str(), "contradicts");
        push_link(&mut out, contradicted[i].as_str(), id, "contradicts");
        assert(links(out@) =~= base + contradicting_links(id@, second.take(i + 1)));
    }
    assert(second.take(contradicted@.len() as int) =~= second);
    out
}

/// A time brought to milliseconds, where there is one.
pub open spec fn optional_milliseconds(value: Option<Seq<char>>) -> Option<Seq<char>> {
    match value {
        Some(at) => Some(to_milliseconds(at)),
        None => None,
    }
}

fn optional_time(value: &Option<String>) -> (r: Option<String>)
    ensures
        text_of_string(r) == optional_milliseconds(text_of_string(*value)),
{
    match value {
        Some(at) => Some(normalize_utc_timestamp(at.as_str())),
        None => None,
    }
}

/// The memories with which a write opens conflicts.
pub open spec fn opened_conflicts(open: bool, list: Seq<SameClaimCandidate>) -> Seq<Seq<char>> {
    if open {
        list.map_values(|c: SameClaimCandidate| c.memory_id@)
    } else {
        Seq::empty()
    }
}

fn open_conflict_ids(open: bool, rows: &Vec<SameClaimCandidate>, n: usize) -> (r: Vec<String>)
    requires
        n <= rows@.len(),
    ensures
        views(r@) == opened_conflicts(open, rows@.take(n as int)),
{
    let mut out: Vec<String> = Vec::new();
    assert(views(out@) =~= Seq::empty());
    if !open {
        return out;
    }
    let ghost wanted = opened_conflicts(true, rows@.take(n as int));
    for i in 0..n
        invariant
            n <= rows@.len(),
            wanted == opened_conflicts(true, rows@.take(n as int)),
            views(out@) == wanted.take(i as int),
    {
        let ghost before = out@;
        out.push(rows[i].memory_id.clone());
        assert(views(out@) =~= views(before).push(wanted[i as int]));
        assert(wanted.take(i + 1) =~= wanted.take(i as int).push(wanted[i as int]));
    }
    assert(wanted.take(n as int) =~= wanted);
    out
}

fn append_texts(a: &Vec<String>, b: &Vec<String>) -> (r: Vec<String>)
    ensures
        views(r@) == views(a@) + views(b@),
{
    let mut out = clone_texts(a);
    let ghost base = views(a@);
    let ghost more = views(b@);
    assert(base + more.take(0) =~= base);
    for i in 0..b.len()
        invariant
            more == views(b@),
            views(out@) == base + more.take(i as int),
    {
        let ghost before = out@;
        out.push(b[i].clone());
        assert(views(out@) =~= views(before).push(more[i as int]));
        assert(base + more.take(i + 1) =~= (base + more.take(i as int)).push(more[i as int]));
    }
    assert(more.take(b@.len() as int) =~= more);
    out
}

/// Whether a plan is what the request and the store's contents call for.
pub open spec fn plan_matches(
    plan: RememberPlan,
    request: RememberRequest,
    facts: RememberFacts,
) -> bool {
    let space = write_space(request);
    let kind = write_kind(request, text_of_string(facts.inferred_kind));
    let observed_at = write_observed_at(request, facts.now@);
    let same = same_claim(request, facts.same_claim@);
    let (automatic, suggestions, open) = write_resolution(request, facts);
    let tags = normal_tags(views(request.tags@))->Ok_0;
    let tags_text = joined(tags, " "@);
    let replaced = views(request.supersedes@) + automatic;
    &&& plan.space@ == space
    &&& plan.silo@ == write_silo(request, text_of_string(facts.default_silo))
    &&& plan.scope@ == text_or(text_of_string(request.scope), SCOPE_WORKSPACE@)
    &&& plan.kind@ == kind
    &&& plan.observed_at@ == observed_at
    &&& text_of_string(plan.valid_from) == optional_milliseconds(text_of_string(request.valid_from))
    &&& text_of_string(plan.valid_to) == optional_milliseconds(text_of_string(request.valid_to))
    &&& text_of_string(plan.expires_at) == optional_milliseconds(text_of_string(request.expires_at))
    &&& plan.content_sha256@ == text_digest(request.content@)
    &&& views(plan.tags@) == tags
    &&& plan.tags_text@ == tags_text
    &&& plan.metadata_text@ == metadata_text(
        text_of_string(request.project_key),
        text_of_string(request.entity_key),
        text_of_string(request.claim_key),
        request.content@,
        text_of_string(request.summary),
        tags_text,
    )
    &&& text_of_string(plan.retrieval_text) == companion(
        text_of_string(request.summary),
        request.retrieval_representation,
    )
    &&& plan.event_data_json@ == event_data(
        request.dry_run,
        views(request.supersedes@),
        views(request.contradicts@),
        automatic,
        reported_conflicts(kind, open, same),
    )
    &&& views(plan.superseded@) == replaced
    &&& links(plan.links@) == replacing_links(facts.memory_id@, replaced) + contradicting_links(
        facts.memory_id@,
        views(request.contradicts@),
    )
    &&& views(plan.open_conflicts@) == opened_conflicts(open, same)
    &&& text_of_string(plan.entity_name) == match text_of_string(request.entity_key) {
        Some(key) => Some(canonical_name(key)),
        None => None,
    }
    &&& (related_models(plan.candidates@), plan.candidates_truncated) == detected(
        accumulated(
            facts.related,
            views(request.supersedes@) + views(request.contradicts@),
            request.claim_key is Some,
            request.entity_key is Some,
            comparison_terms(request.content@),
        ),
    )
    &&& views(plan.auto_superseded@) == automatic
    &&& conflicts(plan.conflict_candidates@) == reported_conflicts(kind, open, same)
    &&& views(plan.supersede_suggestions@) == suggestions
    &&& plan.processing_status@ == if request.dry_run {
        "dry_run"@
    } else {
        "indexed"@
    }
    &&& representation_matches(plan.representation, request)
    &&& tells_capture(request.graph, plan.graph_capture)
}

/// Whether a status says how the request's alternate text was stored.
pub open spec fn representation_matches(
    status: Option<RepresentationWriteStatus>,
    request: RememberRequest,
) -> bool {
    match request.retrieval_representation {
        None => status is None,
        Some(input) => status matches Some(s) && s.kind@ == input.kind@ && s.text_sha256@
            == text_digest(input.text@) && s.fts_indexed && s.semantic_indexed
            == request.token_embedding && s.status@ == if request.token_embedding {
            "indexed"@
        } else {
            "lexical_only"@
        },
    }
}

/// What a write resolves to.
fn resolve_write(
    mode: &str,
    kind: &str,
    observed_at: &str,
    rows: &Vec<SameClaimCandidate>,
    n: usize,
) -> (r: (Vec<String>, Vec<String>, bool))
    requires
        n <= rows@.len(),
    ensures
        (views(r.0@), views(r.1@), r.2) == resolution(
            mode@,
            kind@,
            observed_at@,
            rows@.take(n as int),
        ),
{
    let none_a: Vec<String> = Vec::new();
    let none_b: Vec<String> = Vec::new();
    assert(views(none_a@) =~= Seq::empty());
    assert(views(none_b@) =~= Seq::empty());
    if text_eq(mode, "append") {
        (none_a, none_b, false)
    } else if text_eq(mode, "supersede") {
        (unpinned(rows, n), none_b, false)
    } else if text_eq(mode, "suggest") {
        (none_a, unpinned(rows, n), false)
    } else if text_eq(mode, "conflict") {
        (none_a, none_b, true)
    } else {
        (auto_supersede_candidates(kind, observed_at, rows, n), none_b, false)
    }
}

/// What is wrong with replacing memories, or nothing.
fn check_replacing(facts: &RememberFacts, space: &str, replaced: &Vec<String>) -> (r: Result<
    (),
    Error,
>)
    ensures
        match r {
            Ok(_) => superseded_all(states(facts.states@), space@, views(replaced@)) is Ok,
            Err(e) => superseded_all(states(facts.states@), space@, views(replaced@)) == Err::<
                Seq<StateModel>,
                Fault,
            >(e@),
        },
{
    let mut table: Vec<MemoryState> = Vec::new();
    let ghost wanted = states(facts.states@);
    assert(states(table@) =~= wanted.take(0));
    for i in 0..facts.states.len()
        invariant
            wanted == states(facts.states@),
            states(table@) == wanted.take(i as int),
    {
        let s = &facts.states[i];
        let ghost before = table@;
        table.push(
            MemoryState {
                id: s.id.clone(),
                space: s.space.clone(),
                status: s.status.clone(),
                pinned: s.pinned,
            },
        );
        assert(states(table@) =~= states(before).push(wanted[i as int]));
        assert(wanted.take(i + 1) =~= wanted.take(i as int).push(wanted[i as int]));
    }
    assert(wanted.take(facts.states@.len() as int) =~= wanted);
    supersede_memories(&mut table, space, replaced)
}

/// The alternate text under which a memory is indexed, and how it was stored.
fn write_representation(request: &RememberRequest) -> (r: (
    Option<String>,
    Option<RepresentationWriteStatus>,
))
    ensures
        text_of_string(r.0) == companion(
            text_of_string(request.summary),
            request.retrieval_representation,
        ),
        representation_matches(r.1, *request),
{
    let retrieval_text = match retrieval_companion(
        as_text(&request.summary),
        &request.retrieval_representation,
    ) {
        Some(text) => Some(text.to_owned()),
        None => None,
    };
    let representation = match &request.retrieval_representation {
        None => None,
        Some(input) => Some(
            RepresentationWriteStatus {
                kind: input.kind.clone(),
                text_sha256: sha256_text(input.text.as_str()),
                fts_indexed: true,
                semantic_indexed: request.token_embedding,
                status: if request.token_embedding {
                    "indexed"
                } else {
                    "lexical_only"
                },
            },
        ),
    };
    (retrieval_text, representation)
}

/// The metadata under which a memory is indexed.
fn write_metadata(request: &RememberRequest, tags_text: &str) -> (r: String)
    ensures
        r@ == metadata_text(
            text_of_string(request.project_key),
            text_of_string(request.entity_key),
            text_of_string(request.claim_key),
            request.content@,
            text_of_string(request.summary),
            tags_text@,
        ),
{
    memory_fts_metadata_text(
        as_text(&request.project_key),
        as_text(&request.entity_key),
        as_text(&request.claim_key),
        request.content.as_str(),
        as_text(&request.summary),
        tags_text,
    )
}

/// Decides a memory write: everything that goes into the store and the report,
/// or the first thing in the store that stands against it.
#[verifier::rlimit(40)]
#[verifier::spinoff_prover]
pub fn remember_memory_tx(request: &RememberRequest, facts: &RememberFacts) -> (r: Result<
    RememberPlan,
    Error,
>)
    ensures
        match r {
            Ok(plan) => remember_fault(*request, *facts) is None && plan_matches(
                plan,
                *request,
                *facts,
            ),
            Err(e) => remember_fault(*request, *facts) == Some(e@),
        },
{
    let target = remember_target(request, &facts.default_silo, &facts.inferred_kind);
    if let Err(e) = ensure_silo_exists(
        facts.space_exists,
        facts.silo_exists,
        target.space.as_str(),
        target.silo.as_str(),
    ) {
        return Err(e);
    }
    if let Some(id) = &request.source_episode_id {
        if !facts.source_episode_exists {
            return Err(not_found("source_episode", id.as_str()));
        }
    }
    let observed_at = match &request.observed_at {
        Some(at) => normalize_utc_timestamp(at.as_str()),
        None => facts.now.clone(),
    };
    let tags = match normalized_tags(request.tags.as_slice()) {
        Ok(tags) => tags,
        Err(e) => {
            return Err(e);
        },
    };
    let tags_text = join(tags.as_slice(), " ");
    let metadata = write_metadata(request, tags_text.as_str());
    let excluded = append_texts(&request.supersedes, &request.contradicts);
    let (candidates, candidates_truncated) = detect_remember_candidates(
        &facts.related,
        &excluded,
        request.claim_key.is_some(),
        request.entity_key.is_some(),
        request.content.as_str(),
    );
    let n: usize = same_claim_count(request, &facts.same_claim);
    let (auto_superseded, suggestions, open) = resolve_write(
        request.mode.as_str(),
        target.kind.as_str(),
        observed_at.as_str(),
        &facts.same_claim,
        n,
    );
    let conflict_candidates = conflict_list(target.kind.as_str(), open, &facts.same_claim, n);
    if let Some(input) = &request.retrieval_representation {
        if let Err(e) = validate_retrieval_representation(input) {
            return Err(e);
        }
    }
    let superseded = append_texts(&request.supersedes, &auto_superseded);
    if let Err(e) = check_replacing(facts, target.space.as_str(), &superseded) {
        return Err(e);
    }
    if let Err(e) = ensure_memories_in_space(
        &facts.states,
        target.space.as_str(),
        &request.contradicts,
    ) {
        return Err(e);
    }
    let event_data_json = event_data_json(
        request.dry_run,
        &request.supersedes,
        &request.contradicts,
        &auto_superseded,
        &conflict_candidates,
    );
    let links = link_all(facts.memory_id.as_str(), &superseded, &request.contradicts);
    let (retrieval_text, representation) = write_representation(request);
    let entity_name = match &request.entity_key {
        Some(key) => Some(canonical_name_from_entity_key(key.as_str())),
        None => None,
    };
    Ok(
        RememberPlan {
            space: target.space,
            silo: target.silo,
            scope: text_or_default(&request.scope, SCOPE_WORKSPACE),
            kind: target.kind,
            observed_at,
            valid_from: optional_time(&request.valid_from),
            valid_to: optional_time(&request.valid_to),
            expires_at: optional_time(&request.expires_at),
            content_sha256: sha256_text(request.content.as_str()),
            tags,
            tags_text,
            metadata_text: metadata,
            retrieval_text,
            event_data_json,
            superseded,
            links,
            open_conflicts: open_conflict_ids(open, &facts.same_claim, n),
            entity_name,
            candidates,
            candidates_truncated,
            auto_superseded,
            conflict_candidates,
            supersede_suggestions: suggestions,
            processing_status: if request.dry_run {
                "dry_run"
            } else {
                "indexed"
            },
            representation,
            graph_capture: graph_capture_status(&request.graph),
        },
    )
}

/// Store one explicit memory: checks the request, then decides the write.
pub fn remember_memory(request: &RememberRequest, facts: &RememberFacts) -> (r: Result<
    RememberPlan,
    Error,
>)
    ensures
        match r {
            Ok(plan) => first_of(
                remember_request_fault(*request),
                remember_fault(*request, *facts),
            ) is None && plan_matches(plan, *request, *facts),
            Err(e) => first_of(
                remember_request_fault(*request),
                remember_fault(*request, *facts),
            ) == Some(e@),
        },
{
    if let Err(e) = validate_remember_request(request) {
        return Err(e);
    }
    remember_memory_tx(request, facts)
}

/// Only the modes that say so replace memories beyond the named ones or open
/// conflicts: an appending or suggesting write does neither, and a suggesting one
/// names exactly what a superseding one would replace.
pub proof fn law_modes_are_exclusive(
    kind: Seq<char>,
    observed_at: Seq<char>,
    list: Seq<SameClaimCandidate>,
)
    ensures
        resolution("append"@, kind, observed_at, list).0.len() == 0,
        !resolution("append"@, kind, observed_at, list).2,
        resolution("suggest"@, kind, observed_at, list).0.len() == 0,
        !resolution("suggest"@, kind, observed_at, list).2,
        resolution("conflict"@, kind, observed_at, list).0.len() == 0,
        resolution("conflict"@, kind, observed_at, list).2,
        resolution("suggest"@, kind, observed_at, list).1 == resolution(
            "supersede"@,
            kind,
            observed_at,
            list,
        ).0,
{
    reveal_strlit("append");
    reveal_strlit("supersede");
    reveal_strlit("suggest");
    reveal_strlit("conflict");
    assert("append"@.len() == 6);
    assert("supersede"@.len() == 9);
    assert("suggest"@.len() == 7);
    assert("conflict"@.len() == 8);
}

proof fn lemma_older_are_candidates(
    list: Seq<SameClaimCandidate>,
    observed_at: Seq<char>,
    id: Seq<char>,
)
    requires
        older_unpinned_ids(list, observed_at).contains(id),
    ensures
        exists|i: int|
            0 <= i < list.len() && (#[trigger] list[i]).memory_id@ == id && !list[i].pinned
                && text_less(list[i].observed_at@, observed_at),
    decreases list.len(),
{
    let rest = list.drop_last();
    let before = older_unpinned_ids(rest, observed_at);
    if before.contains(id) {
        lemma_older_are_candidates(rest, observed_at, id);
        let i = choose|i: int|
            0 <= i < rest.len() && (#[trigger] rest[i]).memory_id@ == id && !rest[i].pinned
                && text_less(rest[i].observed_at@, observed_at);
        assert(list[i] == rest[i]);
    } else {
        crate::order::lemma_push_contains(before, list.last().memory_id@, id);
        assert(list[list.len() - 1] == list.last());
    }
}

proof fn lemma_unpinned_are_candidates(list: Seq<SameClaimCandidate>, id: Seq<char>)
    ensures
        unpinned_ids(list).contains(id) <==> exists|i: int|
            0 <= i < list.len() && (#[trigger] list[i]).memory_id@ == id && !list[i].pinned,
    decreases list.len(),
{
    if list.len() > 0 {
        let rest = list.drop_last();
        let before = unpinned_ids(rest);
        lemma_unpinned_are_candidates(rest, id);
        crate::order::lemma_push_contains(before, list.last().memory_id@, id);
        assert(list[list.len() - 1] == list.last());
        if exists|i: int|
            0 <= i < rest.len() && (#[trigger] rest[i]).memory_id@ == id && !rest[i].pinned {
            let i = choose|i: int|
                0 <= i < rest.len() && (#[trigger] rest[i]).memory_id@ == id && !rest[i].pinned;
            assert(list[i] == rest[i]);
        }
        if exists|i: int|
            0 <= i < list.len() && (#[trigger] list[i]).memory_id@ == id && !list[i].pinned {
            let i = choose|i: int|
                0 <= i < list.len() && (#[trigger] list[i]).memory_id@ == id && !list[i].pinned;
            if i < rest.len() {
                assert(rest[i] == list[i]);
            }
        }
    }
}

/// A superseding write that names no memories itself replaces every memory of its
/// claim that is not pinned, however many there are and whatever their kind.
pub proof fn law_superseding_write_replaces_all(
    request: RememberRequest,
    facts: RememberFacts,
    id: Seq<char>,
)
    requires
        request.mode@ == "supersede"@,
        request.supersedes@.len() == 0,
        request.contradicts@.len() == 0,
        request.entity_key is Some,
        request.claim_key is Some,
    ensures
        write_resolution(request, facts).0 == unpinned_ids(facts.same_claim@),
        write_resolution(request, facts).0.contains(id) <==> exists|i: int|
            0 <= i < facts.same_claim@.len() && (#[trigger] facts.same_claim@[i]).memory_id@ == id
                && !facts.same_claim@[i].pinned,
{
    reveal_strlit("append");
    reveal_strlit("supersede");
    assert("append"@.len() == 6);
    assert("supersede"@.len() == 9);
    lemma_unpinned_are_candidates(facts.same_claim@, id);
}

/// A write replaces by itself only memories of its own claim that are not pinned
/// and were observed strictly earlier.
pub proof fn law_auto_replacement_is_safe(
    kind: Seq<char>,
    observed_at: Seq<char>,
    list: Seq<SameClaimCandidate>,
    id: Seq<char>,
)
    requires
        auto_replaced(kind, observed_at, list).contains(id),
    ensures
        replacing_kind(kind),
        exists|i: int|
            0 <= i < list.len() && (#[trigger] list[i]).memory_id@ == id && !list[i].pinned
                && text_less(list[i].observed_at@, observed_at),
{
    lemma_older_are_candidates(list, observed_at, id);
}

} // verus!
