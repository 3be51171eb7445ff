//! Listing memories in order of time.

use vstd::prelude::*;

use crate::error::{concat3, invalid, Error, Fault};
use crate::filters::{
    all_of, filter_conditions, filter_size, filters_where_clause, prepare_filters,
    prepared_filters, ArgsModel, SqlArgs,
};
use crate::json::text_of_string;
use crate::neighbors::{
    check_most, check_range, most_fault, page_total, range_fault, shown_rows, total_of_page,
};
use crate::pool::{clone_text, clone_texts};
use crate::ranking::Score;
use crate::requests::SearchFilters;
use crate::search::{clone_if_asked, if_asked};
use crate::text::{bounded_char_slice, char_window, decimal, decimal_of, text_eq, views};
use crate::validate::{first_of, normal_tags, refused_if};
use crate::vocabulary::{MAX_MEMORY_LIST_LIMIT, MAX_SEARCH_OFFSET, MAX_SNIPPET_CHARS};

verus! {

/// Request to list memories.
pub struct MemoryListRequest {
    /// Filters.
    pub filters: SearchFilters,
    /// Memories at most.
    pub limit: usize,
    /// Memories to skip.
    pub offset: usize,
    /// Characters in a snippet at most.
    pub snippet_chars: usize,
    /// Whether the content comes back.
    pub include_content: bool,
    /// Whether the source comes back.
    pub include_source: bool,
    /// Which time decides the order.
    pub order: String,
}

/// Whether a text names an order.
pub open spec fn known_order(order: Seq<char>) -> bool {
    order == "updated_desc"@ || order == "observed_desc"@ || order == "created_desc"@
}

/// The fault of a request to list memories.
pub open spec fn list_fault(request: MemoryListRequest) -> Option<Fault> {
    first_of(
        range_fault("limit"@, request.limit as nat, MAX_MEMORY_LIST_LIMIT as nat),
        first_of(
            most_fault("offset"@, request.offset as nat, MAX_SEARCH_OFFSET as nat),
            first_of(
                most_fault(
                    "snippet_chars"@,
                    request.snippet_chars as nat,
                    MAX_SNIPPET_CHARS as nat,
                ),
                first_of(
                    refused_if(
                        !known_order(request.order@),
                        "order must be updated_desc, observed_desc, or created_desc"@,
                    ),
                    crate::records::fault_of(prepared_filters(request.filters@)),
                ),
            ),
        ),
    )
}

/// A request that was checked.
pub struct PreparedMemoryListRequest {
    /// Filters.
    pub filters: SearchFilters,
    /// Memories at most.
    pub limit: usize,
    /// Memories to skip.
    pub offset: usize,
    /// Characters in a snippet at most.
    pub snippet_chars: usize,
    /// Whether the content comes back.
    pub include_content: bool,
    /// Whether the source comes back.
    pub include_source: bool,
    /// Which time decides the order.
    pub order: String,
}

/// Whether a prepared request is what a request asks for.
pub open spec fn prepares_list(request: MemoryListRequest, r: PreparedMemoryListRequest) -> bool {
    &&& r.filters@ == prepared_filters(request.filters@)->Ok_0
    &&& r.limit == request.limit
    &&& r.offset == request.offset
    &&& r.snippet_chars == request.snippet_chars
    &&& r.include_content == request.include_content
    &&& r.include_source == request.include_source
    &&& r.order@ == request.order@
}

/// Checks a request to list memories.
pub fn prepare_memory_list_request(request: &MemoryListRequest) -> (r: Result<
    PreparedMemoryListRequest,
    Error,
>)
    ensures
        match r {
            Ok(prepared) => list_fault(*request) is None && prepares_list(*request, prepared),
            Err(e) => list_fault(*request) == Some(e@),
        },
{
    if let Err(e) = check_range("limit", request.limit, MAX_MEMORY_LIST_LIMIT) {
        return Err(e);
    }
    if let Err(e) = check_most("offset", request.offset, MAX_SEARCH_OFFSET) {
        return Err(e);
    }
    if let Err(e) = check_most("snippet_chars", request.snippet_chars, MAX_SNIPPET_CHARS) {
        return Err(e);
    }
    let order = request.order.as_str();
    if !text_eq(order, "updated_desc") && !text_eq(order, "observed_desc") && !text_eq(
        order,
        "created_desc",
    ) {
        return Err(invalid("order must be updated_desc, observed_desc, or created_desc"));
    }
    let filters = match prepare_filters(&request.filters) {
        Ok(filters) => filters,
        Err(e) => {
            return Err(e);
        },
    };
    Ok(
        PreparedMemoryListRequest {
            filters,
            limit: request.limit,
            offset: request.offset,
            snippet_chars: request.snippet_chars,
            include_content: request.include_content,
            include_source: request.include_source,
            order: request.order.clone(),
        },
    )
}

/// The columns of a listing up to the snippet.
pub const LIST_HEAD: &'static str = "SELECT
            m.id,
            m.active_version_id,
            m.space_name,
            m.silo_name,
            m.scope,
            m.project_key,
            m.kind,
            m.status,
            m.entity_key,
            m.claim_key,
            m.confidence,
            m.pinned,
            m.observed_at,
            m.created_at,
            m.updated_at,
            ";

/// The columns of a listing between the content and the source.
pub const LIST_TAGS: &'static str = ",
            COALESCE((SELECT group_concat(tag, char(31)) FROM (SELECT tag FROM memory_tags WHERE memory_id = m.id ORDER BY tag)), ''),
            v.summary,
            ";

/// The tables of a listing.
pub const LIST_FROM: &'static str = "
         FROM memories m
         JOIN memory_versions v ON v.id = m.active_version_id
         WHERE ";

/// The text that snippets of a listing are cut from: one character more than is
/// shown.
pub open spec fn list_snippet_sql(snippet_chars: usize) -> Seq<char> {
    if snippet_chars == 0 {
        "''"@
    } else {
        "substr(COALESCE(v.summary, v.content), 1, "@ + decimal((snippet_chars + 1) as nat) + ")"@
    }
}

/// A column that is read only where it is asked for.
pub open spec fn column_if(column: Seq<char>, asked: bool) -> Seq<char> {
    if asked {
        column
    } else {
        "NULL"@
    }
}

/// The name of a column where it is asked for.
pub fn column_or_null(column: &'static str, asked: bool) -> (r: &'static str)
    ensures
        r@ == column_if(column@, asked),
{
    if asked {
        column
    } else {
        "NULL"
    }
}

/// The order of a listing.
pub open spec fn list_order(order: Seq<char>) -> Seq<char> {
    if order == "observed_desc"@ {
        "m.observed_at DESC, m.updated_at DESC"@
    } else if order == "created_desc"@ {
        "m.created_at DESC, m.updated_at DESC"@
    } else {
        "m.updated_at DESC, m.observed_at DESC"@
    }
}

/// Writes the order of a listing.
pub fn memory_list_order_sql(order: &str) -> (r: &'static str)
    ensures
        r@ == list_order(order@),
{
    if text_eq(order, "observed_desc") {
        "m.observed_at DESC, m.updated_at DESC"
    } else if text_eq(order, "created_desc") {
        "m.created_at DESC, m.updated_at DESC"
    } else {
        "m.updated_at DESC, m.observed_at DESC"
    }
}

/// The statement of a listing.
pub open spec fn list_sql(p: PreparedMemoryListRequest) -> Seq<char> {
    let none = ArgsModel { reserved: 0, values: Seq::empty() };
    LIST_HEAD@ + list_snippet_sql(p.snippet_chars) + ", "@ + column_if(
        "v.content"@,
        p.include_content,
    ) + LIST_TAGS@ + column_if("v.source_ref_json"@, p.include_source) + LIST_FROM@ + all_of(
        filter_conditions(p.filters@, none).texts,
    ) + " ORDER BY "@ + list_order(p.order@) + ", m.id ASC LIMIT "@ + decimal(
        (p.limit + 1) as nat,
    ) + " OFFSET "@ + decimal(p.offset as nat)
}

/// Writes the statement of a listing, with the values that it is run with.
pub fn memory_list_sql(p: &PreparedMemoryListRequest) -> (r: (String, Vec<String>))
    requires
        normal_tags(p.filters@.tags) is Ok,
        filter_size(p.filters@) < u64::MAX,
        p.limit <= MAX_MEMORY_LIST_LIMIT,
        p.snippet_chars <= MAX_SNIPPET_CHARS,
    ensures
        r.0@ == list_sql(*p),
        views(r.1@) == filter_conditions(
            p.filters@,
            (ArgsModel { reserved: 0, values: Seq::empty() }),
        ).args.values,
{
    let mut args = SqlArgs::with_reserved(0);
    let conditions = filters_where_clause(&p.filters, &mut args);
    let snippet_sql = if p.snippet_chars == 0 {
        "''".to_owned()
    } else {
        let number = decimal_of((p.snippet_chars + 1) as u64);
        concat3("substr(COALESCE(v.summary, v.content), 1, ", number.as_str(), ")")
    };
    let mut sql = LIST_HEAD.to_owned();
    sql.append(snippet_sql.as_str());
    sql.append(", ");
    sql.append(column_or_null("v.content", p.include_content));
    sql.append(LIST_TAGS);
    sql.append(column_or_null("v.source_ref_json", p.include_source));
    sql.append(LIST_FROM);
    sql.append(conditions.as_str());
    sql.append(" ORDER BY ");
    sql.append(memory_list_order_sql(p.order.as_str()));
    sql.append(", m.id ASC LIMIT ");
    let limit = decimal_of((p.limit + 1) as u64);
    sql.append(limit.as_str());
    sql.append(" OFFSET ");
    let offset = decimal_of(p.offset as u64);
    sql.append(offset.as_str());
    (sql, args.into_values())
}

/// A memory that was read for a listing.
pub struct MemoryListCandidate {
    /// Memory id.
    pub memory_id: String,
    /// Active version id.
    pub version_id: String,
    /// Space.
    pub space: String,
    /// Silo.
    pub silo: String,
    /// Scope.
    pub scope: String,
    /// Project key.
    pub project_key: Option<String>,
    /// Kind.
    pub kind: String,
    /// Status.
    pub status: String,
    /// Entity key.
    pub entity_key: Option<String>,
    /// Claim key.
    pub claim_key: Option<String>,
    /// Confidence.
    pub confidence: Score,
    /// Whether it is pinned.
    pub pinned: bool,
    /// Observation time.
    pub observed_at: String,
    /// When it was made.
    pub created_at: String,
    /// When it was last changed.
    pub updated_at: String,
    /// Text that the snippet is cut from.
    pub snippet_text: String,
    /// Content, where it was read.
    pub content: Option<String>,
    /// Tags.
    pub tags: Vec<String>,
    /// Summary.
    pub summary: Option<String>,
    /// Source reference.
    pub source_ref_json: Option<String>,
}

/// A listed memory.
pub struct MemoryListItem {
    /// Rank, from one.
    pub rank: usize,
    /// Memory id.
    pub memory_id: String,
    /// Active version id.
    pub version_id: String,
    /// Space.
    pub space: String,
    /// Silo.
    pub silo: String,
    /// Scope.
    pub scope: String,
    /// Project key.
    pub project_key: Option<String>,
    /// Kind.
    pub kind: String,
    /// Status.
    pub status: String,
    /// Summary.
    pub summary: Option<String>,
    /// Snippet.
    pub snippet: String,
    /// Content, where it was asked for.
    pub content: Option<String>,
    /// Tags.
    pub tags: Vec<String>,
    /// Entity key.
    pub entity_key: Option<String>,
    /// Claim key.
    pub claim_key: Option<String>,
    /// Confidence.
    pub confidence: Score,
    /// Whether it is pinned.
    pub pinned: bool,
    /// Observation time.
    pub observed_at: String,
    /// When it was made.
    pub created_at: String,
    /// When it was last changed.
    pub updated_at: String,
    /// Source reference, where it was asked for.
    pub source_ref_json: Option<String>,
}

/// Whether an item shows a memory that was read.
pub open spec fn shows_memory(
    c: MemoryListCandidate,
    rank: int,
    p: MemoryListRequest,
    r: MemoryListItem,
) -> bool {
    &&& r.rank == rank
    &&& r.memory_id@ == c.memory_id@
    &&& r.version_id@ == c.version_id@
    &&& r.space@ == c.space@
    &&& r.silo@ == c.silo@
    &&& r.scope@ == c.scope@
    &&& text_of_string(r.project_key) == text_of_string(c.project_key)
    &&& r.kind@ == c.kind@
    &&& r.status@ == c.status@
    &&& text_of_string(r.summary) == text_of_string(c.summary)
    &&& r.snippet@ == char_window(c.snippet_text@, 0, p.snippet_chars as nat)
    &&& text_of_string(r.content) == if_asked(c.content, p.include_content)
    &&& views(r.tags@) == views(c.tags@)
    &&& text_of_string(r.entity_key) == text_of_string(c.entity_key)
    &&& text_of_string(r.claim_key) == text_of_string(c.claim_key)
    &&& r.confidence == c.confidence
    &&& r.pinned == c.pinned
    &&& r.observed_at@ == c.observed_at@
    &&& r.created_at@ == c.created_at@
    &&& r.updated_at@ == c.updated_at@
    &&& text_of_string(r.source_ref_json) == if_asked(c.source_ref_json, p.include_source)
}

fn into_item(c: &MemoryListCandidate, rank: usize, p: &MemoryListRequest) -> (r: MemoryListItem)
    ensures
        shows_memory(*c, rank as int, *p, r),
{
    MemoryListItem {
        rank,
        memory_id: c.memory_id.clone(),
        version_id: c.version_id.clone(),
        space: c.space.clone(),
        silo: c.silo.clone(),
        scope: c.scope.clone(),
        project_key: clone_text(&c.project_key),
        kind: c.kind.clone(),
        status: c.status.clone(),
        summary: clone_text(&c.summary),
        snippet: bounded_char_slice(c.snippet_text.as_str(), 0, p.snippet_chars),
        content: clone_if_asked(&c.content, p.include_content),
        tags: clone_texts(&c.tags),
        entity_key: clone_text(&c.entity_key),
        claim_key: clone_text(&c.claim_key),
        confidence: c.confidence,
        pinned: c.pinned,
        observed_at: c.observed_at.clone(),
        created_at: c.created_at.clone(),
        updated_at: c.updated_at.clone(),
        source_ref_json: clone_if_asked(&c.source_ref_json, p.include_source),
    }
}

/// Report of a listing.
pub struct MemoryListReport {
    /// How it was listed.
    pub strategy: &'static str,
    /// The number of memories, as far as known.
    pub total_estimate: usize,
    /// Whether there are more.
    pub truncated: bool,
    /// The memories in order.
    pub results: Vec<MemoryListItem>,
}

/// Whether a report shows a page of what was read.
pub open spec fn reports_list(
    request: MemoryListRequest,
    candidates: Seq<MemoryListCandidate>,
    r: MemoryListReport,
) -> bool {
    let shown = shown_rows(candidates.len(), request.limit);
    &&& r.strategy@ == "deterministic_list_v0"@
    &&& r.truncated == (candidates.len() > request.limit)
    &&& r.total_estimate == if shown == 0 && !r.truncated {
        0
    } else {
        page_total(request.offset, shown, r.truncated)
    }
    &&& r.results@.len() == shown
    &&& forall|i: int|
        0 <= i < shown ==> shows_memory(
            candidates[i],
            request.offset + i + 1,
            request,
            #[trigger] r.results@[i],
        )
}

/// Lists memories: checks the request, and reports a page of what was read.
pub fn list_memories(request: &MemoryListRequest, candidates: &Vec<MemoryListCandidate>) -> (r:
    Result<MemoryListReport, Error>)
    ensures
        match r {
            Ok(report) => list_fault(*request) is None && reports_list(
                *request,
                candidates@,
                report,
            ),
            Err(e) => list_fault(*request) == Some(e@),
        },
{
    if let Err(e) = prepare_memory_list_request(request) {
        return Err(e);
    }
    let truncated: bool = candidates.len() > request.limit;
    let n: usize = if truncated {
        request.limit
    } else {
        candidates.len()
    };
    let mut results: Vec<MemoryListItem> = Vec::new();
    for i in 0..n
        invariant
            n <= candidates@.len(),
            n <= MAX_MEMORY_LIST_LIMIT,
            request.offset <= MAX_SEARCH_OFFSET,
            results@.len() == i,
            forall|k: int|
                0 <= k < i ==> shows_memory(
                    candidates@[k],
                    request.offset + k + 1,
                    *request,
                    #[trigger] results@[k],
                ),
    {
        results.push(into_item(&candidates[i], request.offset + i + 1, request));
    }
    let total_estimate: usize = if n == 0 && !truncated {
        0
    } else {
        total_of_page(request.offset, n, truncated)
    };
    Ok(
        MemoryListReport {
            strategy: "deterministic_list_v0",
            total_estimate,
            truncated,
            results,
        },
    )
}

/// Content and source come back only where they were asked for.
pub proof fn law_listing_keeps_source_private(
    request: MemoryListRequest,
    candidates: Seq<MemoryListCandidate>,
    r: MemoryListReport,
    i: int,
)
    requires
        reports_list(request, candidates, r),
        0 <= i < r.results@.len(),
    ensures
        !request.include_content ==> r.results@[i].content is None,
        !request.include_source ==> r.results@[i].source_ref_json is None,
{
    assert(shows_memory(candidates[i], request.offset + i + 1, request, r.results@[i]));
}

} // verus!
