//! Reading the graph: searching entities, and walking from one to its neighbors.

use vstd::prelude::*;

use crate::entities::{bounded_fault, core_of, graph_value_fault, normalize_bounded, normalize_optional_graph_value};
use crate::error::{concat3, invalid, invalid2, invalid3, not_found, verdict, Error, Fault};
use crate::json::{as_text, text_of_string};
use crate::merging::EntityRecord;
use crate::pool::{clone_text, clone_texts};
use crate::ranking::{
    key_models, positions, sort_order, sorting, KeyModel, Score, SortKey, SortText,
};
use crate::relationships::named;
use crate::spaces::{normalize_space_name, space_name_fault};
use crate::sql::{
    append_values, clause_models, clause_values, collect_values, conjunction, join_clauses, on_text, one_of_clause,
    one_of_texts, plain, plain_clause, text_clause, value_models, Clause, ClauseModel, SqlModel,
    SqlValue, Statement,
};
use crate::text::{decimal, decimal_of, list_contains, text_eq, views};
use crate::validate::{
    filter_values_fault, first_of, normalize_filter_values, refused_if, trimmed_all,
};
use crate::vocabulary::{
    is_supported_entity_status, is_supported_relationship_status, supported_entity_status,
    supported_relationship_status, DEFAULT_SPACE, MAX_ENTITY_SEARCH_LIMIT,
    MAX_GRAPH_NEIGHBOR_DEPTH, MAX_GRAPH_NEIGHBOR_EDGES, MAX_SEARCH_OFFSET, MAX_SEARCH_QUERY_CHARS,
};
use crate::writing::{alias_form, normalized_alias, text_or, text_or_default};

verus! {

/// The fault of a number that has to lie between one and a maximum.
pub open spec fn range_fault(name: Seq<char>, value: nat, max: nat) -> Option<Fault> {
    refused_if(
        value == 0 || value > max,
        name + " must be between 1 and "@ + decimal(max),
    )
}

/// Checks a number that has to lie between one and a maximum.
pub fn check_range(name: &str, value: usize, max: usize) -> (r: Result<(), Error>)
    ensures
        verdict(r) == range_fault(name@, value as nat, max as nat),
{
    if value == 0 || value > max {
        let number = decimal_of(max as u64);
        Err(invalid3(name, " must be between 1 and ", number.as_str()))
    } else {
        Ok(())
    }
}

/// The fault of a number that has to be at most a maximum.
pub open spec fn most_fault(name: Seq<char>, value: nat, max: nat) -> Option<Fault> {
    refused_if(value > max, name + " must be at most "@ + decimal(max))
}

/// Checks a number that has to be at most a maximum.
pub fn check_most(name: &str, value: usize, max: usize) -> (r: Result<(), Error>)
    ensures
        verdict(r) == most_fault(name@, value as nat, max as nat),
{
    if value > max {
        let number = decimal_of(max as u64);
        Err(invalid3(name, " must be at most ", number.as_str()))
    } else {
        Ok(())
    }
}

/// The number of matches, as far as a page shows it.
pub open spec fn page_total(offset: usize, shown: nat, truncated: bool) -> int {
    let sum = offset + shown + if truncated {
        1int
    } else {
        0int
    };
    if sum > usize::MAX {
        usize::MAX as int
    } else {
        sum
    }
}

/// The number of matches, as far as a page shows it.
pub fn total_of_page(offset: usize, shown: usize, truncated: bool) -> (r: usize)
    ensures
        r == page_total(offset, shown as nat, truncated),
{
    let more: usize = if truncated {
        1
    } else {
        0
    };
    if shown > usize::MAX - offset {
        usize::MAX
    } else if more > usize::MAX - offset - shown {
        usize::MAX
    } else {
        offset + shown + more
    }
}

/// Request to search entities.
pub struct EntitySearchRequest {
    /// Space.
    pub space: Option<String>,
    /// Text that occurs in the key, the name or an alias.
    pub query: Option<String>,
    /// Key.
    pub entity_key: Option<String>,
    /// Types.
    pub entity_types: Vec<String>,
    /// Statuses.
    pub statuses: Vec<String>,
    /// Results at most.
    pub limit: usize,
    /// Results to skip.
    pub offset: usize,
    /// Whether the source comes back.
    pub include_source: bool,
}

/// A request that was checked.
pub struct PreparedEntitySearchRequest {
    /// Space.
    pub space: String,
    /// Text to look for.
    pub query: Option<String>,
    /// The text in the form of aliases.
    pub normalized_query: Option<String>,
    /// Key.
    pub entity_key: Option<String>,
    /// Types.
    pub entity_types: Vec<String>,
    /// Statuses.
    pub statuses: Vec<String>,
    /// Results at most.
    pub limit: usize,
    /// Results to skip.
    pub offset: usize,
    /// Whether the source comes back.
    pub include_source: bool,
}

/// The statuses of a request: the active one where none is named.
pub open spec fn chosen_statuses(values: Seq<Seq<char>>) -> Seq<Seq<char>> {
    if values.len() == 0 {
        seq!["active"@]
    } else {
        trimmed_all(values)
    }
}

/// The fault of the first unsupported status of an entity or relationship.
pub open spec fn statuses_fault(statuses: Seq<Seq<char>>, entity: bool) -> Option<Fault>
    decreases statuses.len(),
{
    if statuses.len() == 0 {
        None
    } else {
        let status = statuses.last();
        first_of(
            statuses_fault(statuses.drop_last(), entity),
            if entity {
                refused_if(
                    !supported_entity_status(status),
                    "unsupported entity status: "@ + status,
                )
            } else {
                refused_if(
                    !supported_relationship_status(status),
                    "unsupported relationship status: "@ + status,
                )
            },
        )
    }
}

proof fn lemma_statuses_prefix(statuses: Seq<Seq<char>>, entity: bool, n: int)
    requires
        0 <= n <= statuses.len(),
        statuses_fault(statuses.take(n), entity) is Some,
    ensures
        statuses_fault(statuses, entity) == statuses_fault(statuses.take(n), entity),
    decreases statuses.len() - n,
{
    if n < statuses.len() {
        assert(statuses.take(n + 1).drop_last() =~= statuses.take(n));
        lemma_statuses_prefix(statuses, entity, n + 1);
    } else {
        assert(statuses.take(n) =~= statuses);
    }
}

/// The fault of the statuses of a request.
pub open spec fn status_filter_fault(values: Seq<Seq<char>>, entity: bool) -> Option<Fault> {
    first_of(filter_values_fault(values), statuses_fault(chosen_statuses(values), entity))
}

fn read_statuses(values: &Vec<String>, entity: bool) -> (r: Result<Vec<String>, Error>)
    ensures
        match r {
            Ok(list) => status_filter_fault(views(values@), entity) is None && views(list@)
                == chosen_statuses(views(values@)),
            Err(e) => status_filter_fault(views(values@), entity) == Some(e@),
        },
{
    let mut list = match normalize_filter_values(values) {
        Ok(list) => list,
        Err(e) => {
            return Err(e);
        },
    };
    assert(views(list@).len() == list@.len());
    assert(views(values@).len() == values@.len());
    if list.len() == 0 {
        list.push("active".to_owned());
        assert(views(list@) =~= seq!["active"@]);
    }
    let ghost all = views(list@);
    for i in 0..list.len()
        invariant
            all == views(list@),
            all == chosen_statuses(views(values@)),
            filter_values_fault(views(values@)) is None,
            statuses_fault(all.take(i as int), entity) is None,
    {
        proof {
            assert(all.take(i + 1).drop_last() =~= all.take(i as int));
            assert(all.take(i + 1).last() == list@[i as int]@);
            if statuses_fault(all.take(i + 1), entity) is Some {
                lemma_statuses_prefix(all, entity, i + 1);
            }
        }
        let status = list[i].as_str();
        if entity {
            if !is_supported_entity_status(status) {
                return Err(invalid2("unsupported entity status: ", status));
            }
        } else if !is_supported_relationship_status(status) {
            return Err(invalid2("unsupported relationship status: ", status));
        }
    }
    assert(all.take(list@.len() as int) =~= all);
    Ok(list)
}

/// The fault of a request to search entities.
pub open spec fn entity_search_fault(request: EntitySearchRequest) -> Option<Fault> {
    first_of(
        range_fault("limit"@, request.limit as nat, MAX_ENTITY_SEARCH_LIMIT as nat),
        first_of(
            most_fault("offset"@, request.offset as nat, MAX_SEARCH_OFFSET as nat),
            first_of(
                space_name_fault(text_of_string(request.space)),
                first_of(
                    bounded_fault(
                        "query"@,
                        text_of_string(request.query),
                        MAX_SEARCH_QUERY_CHARS as nat,
                    ),
                    first_of(
                        graph_value_fault("entity_key"@, text_of_string(request.entity_key)),
                        first_of(
                            filter_values_fault(views(request.entity_types@)),
                            status_filter_fault(views(request.statuses@), true),
                        ),
                    ),
                ),
            ),
        ),
    )
}

/// A text in the form of aliases.
pub open spec fn form_of(value: Option<Seq<char>>) -> Option<Seq<char>> {
    match value {
        Some(text) => Some(alias_form(text)),
        None => None,
    }
}

/// Whether a prepared request is what a request asks for.
pub open spec fn prepares_search(
    request: EntitySearchRequest,
    r: PreparedEntitySearchRequest,
) -> bool {
    &&& r.space@ == text_or(text_of_string(request.space), DEFAULT_SPACE@)
    &&& text_of_string(r.query) == core_of(text_of_string(request.query))
    &&& text_of_string(r.normalized_query) == form_of(core_of(text_of_string(request.query)))
    &&& text_of_string(r.entity_key) == core_of(text_of_string(request.entity_key))
    &&& views(r.entity_types@) == trimmed_all(views(request.entity_types@))
    &&& views(r.statuses@) == chosen_statuses(views(request.statuses@))
    &&& r.limit == request.limit
    &&& r.offset == request.offset
    &&& r.include_source == request.include_source
}

/// Checks a request to search entities.
pub fn prepare_entity_search_request(request: &EntitySearchRequest) -> (r: Result<
    PreparedEntitySearchRequest,
    Error,
>)
    ensures
        match r {
            Ok(prepared) => entity_search_fault(*request) is None && prepares_search(
                *request,
                prepared,
            ),
            Err(e) => entity_search_fault(*request) == Some(e@),
        },
{
    if let Err(e) = check_range("limit", request.limit, MAX_ENTITY_SEARCH_LIMIT) {
        return Err(e);
    }
    if let Err(e) = check_most("offset", request.offset, MAX_SEARCH_OFFSET) {
        return Err(e);
    }
    let space = match normalize_space_name(as_text(&request.space)) {
        Ok(space) => space,
        Err(e) => {
            return Err(e);
        },
    };
    let query = match normalize_bounded("query", as_text(&request.query), MAX_SEARCH_QUERY_CHARS) {
        Ok(query) => query,
        Err(e) => {
            return Err(e);
        },
    };
    let entity_key = match normalize_optional_graph_value(
        "entity_key",
        as_text(&request.entity_key),
    ) {
        Ok(key) => key,
        Err(e) => {
            return Err(e);
        },
    };
    let entity_types = match normalize_filter_values(&request.entity_types) {
        Ok(list) => list,
        Err(e) => {
            return Err(e);
        },
    };
    let statuses = match read_statuses(&request.statuses, true) {
        Ok(list) => list,
        Err(e) => {
            return Err(e);
        },
    };
    let normalized_query = match &query {
        Some(text) => Some(normalized_alias(text.as_str())),
        None => None,
    };
    Ok(
        PreparedEntitySearchRequest {
            space: text_or_default(&space, DEFAULT_SPACE),
            query,
            normalized_query,
            entity_key,
            entity_types,
            statuses,
            limit: request.limit,
            offset: request.offset,
            include_source: request.include_source,
        },
    )
}

/// The condition that a text occurs in the key, the name or an alias.
pub const ENTITY_MATCH: &'static str = "(instr(lower(e.entity_key), lower(?)) > 0 OR instr(lower(e.canonical_name), lower(?)) > 0 OR EXISTS (SELECT 1 FROM entity_aliases ea WHERE ea.entity_id = e.id AND instr(ea.normalized_alias, ?) > 0))";

/// What comes before the conditions of a search.
pub const ENTITY_HEAD: &'static str = "SELECT e.id, e.space_name, e.entity_key, e.entity_type, e.canonical_name, e.status, e.confidence, e.source_episode_id, e.created_at, e.updated_at FROM entities e WHERE ";

/// What comes after the conditions of a search.
pub const ENTITY_TAIL: &'static str = " ORDER BY e.status ASC, e.entity_key ASC, e.id ASC LIMIT ? OFFSET ?";

/// A condition that a column has one of the given texts, where any is given.
pub open spec fn in_filter(column: Seq<char>, values: Seq<Seq<char>>) -> Seq<ClauseModel> {
    if values.len() == 0 {
        Seq::empty()
    } else {
        seq![one_of_texts(column, values)]
    }
}

/// The condition on the key.
pub open spec fn key_filter(key: Option<Seq<char>>) -> Seq<ClauseModel> {
    match key {
        Some(text) => seq![on_text("e.entity_key = ?"@, text)],
        None => Seq::empty(),
    }
}

/// The condition on the text.
pub open spec fn match_filter(query: Option<Seq<char>>, form: Option<Seq<char>>) -> Seq<ClauseModel> {
    match query {
        Some(text) => seq![
            ClauseModel {
                text: ENTITY_MATCH@,
                values: seq![
                    SqlModel::Text(text),
                    SqlModel::Text(text),
                    SqlModel::Text(
                        match form {
                            Some(f) => f,
                            None => Seq::empty(),
                        },
                    ),
                ],
            },
        ],
        None => Seq::empty(),
    }
}

/// The conditions of a search.
pub open spec fn entity_clauses(p: PreparedEntitySearchRequest) -> Seq<ClauseModel> {
    seq![on_text("e.space_name = ?"@, p.space@)] + key_filter(text_of_string(p.entity_key))
        + in_filter("e.entity_type"@, views(p.entity_types@)) + in_filter(
        "e.status"@,
        views(p.statuses@),
    ) + match_filter(text_of_string(p.query), text_of_string(p.normalized_query))
}

/// Adds a condition that a column has one of the given texts, where any is given.
pub fn append_sql_in_filter(clauses: &mut Vec<Clause>, column: &str, values: &Vec<String>)
    ensures
        clause_models(final(clauses)@) == clause_models(old(clauses)@) + in_filter(
            column@,
            views(values@),
        ),
{
    let ghost before = clauses@;
    if values.len() > 0 {
        clauses.push(one_of_clause(column, values));
    }
    assert(views(values@).len() == values@.len());
    assert(clause_models(clauses@) =~= clause_models(before) + in_filter(column@, views(values@)));
}

/// The statement of a search for entities: one row more than the limit, to see
/// whether there is more.
pub fn entity_search_query(p: &PreparedEntitySearchRequest) -> (r: Statement)
    requires
        p.limit < i64::MAX,
        p.offset <= i64::MAX,
    ensures
        r.sql@ == ENTITY_HEAD@ + conjunction(entity_clauses(*p)) + ENTITY_TAIL@,
        value_models(r.values@) == clause_values(entity_clauses(*p)).push(
            SqlModel::Integer(p.limit + 1),
        ).push(SqlModel::Integer(p.offset as int)),
{
    let mut clauses: Vec<Clause> = Vec::new();
    clauses.push(text_clause("e.space_name = ?", p.space.as_str()));
    if let Some(key) = &p.entity_key {
        clauses.push(text_clause("e.entity_key = ?", key.as_str()));
    }
    assert(clause_models(clauses@) =~= seq![on_text("e.space_name = ?"@, p.space@)] + key_filter(
        text_of_string(p.entity_key),
    ));
    append_sql_in_filter(&mut clauses, "e.entity_type", &p.entity_types);
    append_sql_in_filter(&mut clauses, "e.status", &p.statuses);
    let ghost before = clauses@;
    if let Some(query) = &p.query {
        let mut values: Vec<SqlValue> = Vec::new();
        values.push(SqlValue::Text(query.clone()));
        values.push(SqlValue::Text(query.clone()));
        let form = match &p.normalized_query {
            Some(text) => text.clone(),
            None => String::new(),
        };
        let ghost form_text = form@;
        values.push(SqlValue::Text(form));
        assert(value_models(values@) =~= seq![
            SqlModel::Text(query@),
            SqlModel::Text(query@),
            SqlModel::Text(form_text),
        ]);
        let clause = Clause { text: ENTITY_MATCH.to_owned(), values };
        assert(clause@.values =~= match_filter(
            text_of_string(p.query),
            text_of_string(p.normalized_query),
        )[0].values);
        clauses.push(clause);
    }
    assert(clause_models(clauses@) =~= clause_models(before) + match_filter(
        text_of_string(p.query),
        text_of_string(p.normalized_query),
    ));
    assert(clause_models(clauses@) =~= entity_clauses(*p));
    let conditions = join_clauses(&clauses);
    let sql = concat3(ENTITY_HEAD, conditions.as_str(), ENTITY_TAIL);
    let mut values = collect_values(&clauses);
    let ghost bound = values@;
    values.push(SqlValue::Integer(p.limit as i64 + 1));
    values.push(SqlValue::Integer(p.offset as i64));
    assert(value_models(values@) =~= value_models(bound).push(
        SqlModel::Integer(p.limit + 1),
    ).push(SqlModel::Integer(p.offset as int)));
    Statement { sql, values }
}

/// An entity that was found.
pub struct EntityRow {
    /// The entity.
    pub entity: EntityRecord,
    /// The aliases in which the text occurs.
    pub matched_aliases: Vec<String>,
}

/// An entity that was found, with its rank.
pub struct EntitySearchResult {
    /// Rank, from one.
    pub rank: usize,
    /// The entity.
    pub entity: EntityRecord,
    /// The aliases in which the text occurs.
    pub matched_aliases: Vec<String>,
}

/// Report of a search for entities.
pub struct EntitySearchReport {
    /// How it was searched.
    pub strategy: &'static str,
    /// Space.
    pub space: String,
    /// The number of matches, as far as known.
    pub total_estimate: usize,
    /// Whether there are more.
    pub truncated: bool,
    /// The results.
    pub results: Vec<EntitySearchResult>,
}

/// How many rows a page shows.
pub open spec fn shown_rows(found: nat, limit: usize) -> nat {
    if found > limit {
        limit as nat
    } else {
        found
    }
}

/// Whether a report shows a page of the found entities.
pub open spec fn reports_entities(
    rows: Seq<EntityRow>,
    space: Seq<char>,
    limit: usize,
    offset: usize,
    r: EntitySearchReport,
) -> bool {
    let shown = shown_rows(rows.len(), limit);
    &&& r.strategy@ == "deterministic_entity_search_v0"@
    &&& r.space@ == space
    &&& r.truncated == (rows.len() > limit)
    &&& r.total_estimate == if shown == 0 && !r.truncated {
        0
    } else {
        page_total(offset, shown, r.truncated)
    }
    &&& r.results@.len() == shown
    &&& forall|i: int|
        0 <= i < shown ==> (#[trigger] r.results@[i]).rank == offset + i + 1
            && r.results@[i].entity == rows[i].entity && r.results@[i].matched_aliases
            == rows[i].matched_aliases
}

/// The fault of a space that does not exist.
pub open spec fn missing_space_fault(exists_here: bool, space: Seq<char>) -> Option<Fault> {
    if exists_here {
        None
    } else {
        Some(Fault::NotFound("space"@, space))
    }
}

/// Searches entities: checks the request, and reports a page of what was found.
pub fn search_entities(
    request: &EntitySearchRequest,
    space_exists: bool,
    rows: Vec<EntityRow>,
) -> (r: Result<EntitySearchReport, Error>)
    ensures
        match r {
            Ok(report) => {
                &&& entity_search_fault(*request) is None
                &&& space_exists
                &&& reports_entities(
                    rows@,
                    text_or(text_of_string(request.space), DEFAULT_SPACE@),
                    request.limit,
                    request.offset,
                    report,
                )
            },
            Err(e) => first_of(
                entity_search_fault(*request),
                missing_space_fault(
                    space_exists,
                    text_or(text_of_string(request.space), DEFAULT_SPACE@),
                ),
            ) == Some(e@),
        },
{
    let prepared = match prepare_entity_search_request(request) {
        Ok(prepared) => prepared,
        Err(e) => {
            return Err(e);
        },
    };
    if !space_exists {
        return Err(not_found("space", prepared.space.as_str()));
    }
    let ghost all = rows@;
    let truncated: bool = rows.len() > prepared.limit;
    let n: usize = if truncated {
        prepared.limit
    } else {
        rows.len()
    };
    let mut rest = rows;
    let mut results: Vec<EntitySearchResult> = Vec::new();
    let mut i: usize = 0;
    while i < n
        invariant
            i <= n,
            n <= all.len(),
            n <= MAX_ENTITY_SEARCH_LIMIT,
            prepared.offset <= MAX_SEARCH_OFFSET,
            prepared.offset == request.offset,
            rest@.len() == all.len() - i,
            forall|k: int| 0 <= k < rest@.len() ==> #[trigger] rest@[k] == all[i + k],
            results@.len() == i,
            forall|k: int|
                0 <= k < i ==> (#[trigger] results@[k]).rank == request.offset + k + 1
                    && results@[k].entity == all[k].entity && results@[k].matched_aliases
                    == all[k].matched_aliases,
        decreases n - i,
    {
        let row = rest.remove(0);
        assert(row == all[i as int]);
        results.push(
            EntitySearchResult {
                rank: prepared.offset + i + 1,
                entity: row.entity,
                matched_aliases: row.matched_aliases,
            },
        );
        i = i + 1;
        assert forall|k: int| 0 <= k < rest@.len() implies #[trigger] rest@[k] == all[i + k] by {}
    }
    let total_estimate: usize = if n == 0 && !truncated {
        0
    } else {
        total_of_page(prepared.offset, n, truncated)
    };
    Ok(
        EntitySearchReport {
            strategy: "deterministic_entity_search_v0",
            space: prepared.space,
            total_estimate,
            truncated,
            results,
        },
    )
}

/// Request to walk from an entity to its neighbors.
pub struct GraphNeighborsRequest {
    /// Space.
    pub space: Option<String>,
    /// The entity by id.
    pub entity_id: Option<String>,
    /// The entity by key.
    pub entity_key: Option<String>,
    /// Steps at most.
    pub depth: usize,
    /// Types of relationships.
    pub relation_types: Vec<String>,
    /// Statuses of relationships.
    pub statuses: Vec<String>,
    /// Relationships at most.
    pub max_edges: usize,
    /// Whether what was taken out of use is walked too.
    pub include_tombstoned: bool,
    /// Whether the source comes back.
    pub include_source: bool,
}

/// A request that was checked.
pub struct PreparedGraphNeighborsRequest {
    /// Space.
    pub space: String,
    /// The entity by id.
    pub entity_id: Option<String>,
    /// The entity by key.
    pub entity_key: Option<String>,
    /// Steps at most.
    pub depth: usize,
    /// Types of relationships.
    pub relation_types: Vec<String>,
    /// Statuses of relationships.
    pub statuses: Vec<String>,
    /// Relationships at most.
    pub max_edges: usize,
    /// Whether what was taken out of use is walked too.
    pub include_tombstoned: bool,
    /// Whether the source comes back.
    pub include_source: bool,
}

/// The fault of a request to walk.
pub open spec fn neighbors_fault(request: GraphNeighborsRequest) -> Option<Fault> {
    first_of(
        range_fault("depth"@, request.depth as nat, MAX_GRAPH_NEIGHBOR_DEPTH as nat),
        first_of(
            range_fault("max_edges"@, request.max_edges as nat, MAX_GRAPH_NEIGHBOR_EDGES as nat),
            first_of(
                refused_if(
                    request.entity_id is Some == request.entity_key is Some,
                    "exactly one of entity_id or entity_key is required"@,
                ),
                first_of(
                    space_name_fault(text_of_string(request.space)),
                    first_of(
                        graph_value_fault("entity_id"@, text_of_string(request.entity_id)),
                        first_of(
                            graph_value_fault("entity_key"@, text_of_string(request.entity_key)),
                            first_of(
                                filter_values_fault(views(request.relation_types@)),
                                first_of(
                                    status_filter_fault(views(request.statuses@), false),
                                    refused_if(
                                        !request.include_tombstoned && chosen_statuses(
                                            views(request.statuses@),
                                        ).contains("tombstoned"@),
                                        "include_tombstoned=true is required for tombstoned relationships"@,
                                    ),
                                ),
                            ),
                        ),
                    ),
                ),
            ),
        ),
    )
}

/// Whether a prepared request is what a request asks for.
pub open spec fn prepares_walk(
    request: GraphNeighborsRequest,
    r: PreparedGraphNeighborsRequest,
) -> bool {
    &&& r.space@ == text_or(text_of_string(request.space), DEFAULT_SPACE@)
    &&& text_of_string(r.entity_id) == core_of(text_of_string(request.entity_id))
    &&& text_of_string(r.entity_key) == core_of(text_of_string(request.entity_key))
    &&& r.depth == request.depth
    &&& views(r.relation_types@) == trimmed_all(views(request.relation_types@))
    &&& views(r.statuses@) == chosen_statuses(views(request.statuses@))
    &&& r.max_edges == request.max_edges
    &&& r.include_tombstoned == request.include_tombstoned
    &&& r.include_source == request.include_source
}

/// Checks a request to walk.
pub fn prepare_graph_neighbors_request(request: &GraphNeighborsRequest) -> (r: Result<
    PreparedGraphNeighborsRequest,
    Error,
>)
    ensures
        match r {
            Ok(prepared) => neighbors_fault(*request) is None && prepares_walk(*request, prepared),
            Err(e) => neighbors_fault(*request) == Some(e@),
        },
{
    if let Err(e) = check_range("depth", request.depth, MAX_GRAPH_NEIGHBOR_DEPTH) {
        return Err(e);
    }
    if let Err(e) = check_range("max_edges", request.max_edges, MAX_GRAPH_NEIGHBOR_EDGES) {
        return Err(e);
    }
    if request.entity_id.is_some() == request.entity_key.is_some() {
        return Err(invalid("exactly one of entity_id or entity_key is required"));
    }
    let space = match normalize_space_name(as_text(&request.space)) {
        Ok(space) => space,
        Err(e) => {
            return Err(e);
        },
    };
    let entity_id = match normalize_optional_graph_value("entity_id", as_text(&request.entity_id)) {
        Ok(value) => value,
        Err(e) => {
            return Err(e);
        },
    };
    let entity_key = match normalize_optional_graph_value(
        "entity_key",
        as_text(&request.entity_key),
    ) {
        Ok(value) => value,
        Err(e) => {
            return Err(e);
        },
    };
    let relation_types = match normalize_filter_values(&request.relation_types) {
        Ok(list) => list,
        Err(e) => {
            return Err(e);
        },
    };
    let statuses = match read_statuses(&request.statuses, false) {
        Ok(list) => list,
        Err(e) => {
            return Err(e);
        },
    };
    if !request.include_tombstoned && list_contains(statuses.as_slice(), "tombstoned") {
        return Err(
            invalid("include_tombstoned=true is required for tombstoned relationships"),
        );
    }
    Ok(
        PreparedGraphNeighborsRequest {
            space: text_or_default(&space, DEFAULT_SPACE),
            entity_id,
            entity_key,
            depth: request.depth,
            relation_types,
            statuses,
            max_edges: request.max_edges,
            include_tombstoned: request.include_tombstoned,
            include_source: request.include_source,
        },
    )
}

/// The condition on an id.
pub open spec fn equals_filter(text: Seq<char>, value: Option<Seq<char>>) -> Seq<ClauseModel> {
    match value {
        Some(found) => seq![on_text(text, found)],
        None => Seq::empty(),
    }
}

/// A condition that stands only where tombstoned rows are left out.
pub open spec fn in_use(text: Seq<char>, include_tombstoned: bool) -> Seq<ClauseModel> {
    if include_tombstoned {
        Seq::empty()
    } else {
        seq![plain(text)]
    }
}

/// The conditions on the entity where a walk begins.
pub open spec fn seed_clauses(p: PreparedGraphNeighborsRequest) -> Seq<ClauseModel> {
    seq![on_text("space_name = ?"@, p.space@)] + equals_filter(
        "id = ?"@,
        text_of_string(p.entity_id),
    ) + equals_filter("entity_key = ?"@, text_of_string(p.entity_key)) + in_use(
        "status != 'tombstoned'"@,
        p.include_tombstoned,
    )
}

fn push_equals(clauses: &mut Vec<Clause>, text: &str, value: &Option<String>)
    ensures
        clause_models(final(clauses)@) == clause_models(old(clauses)@) + equals_filter(
            text@,
            text_of_string(*value),
        ),
{
    let ghost before = clauses@;
    if let Some(found) = value {
        clauses.push(text_clause(text, found.as_str()));
    }
    assert(clause_models(clauses@) =~= clause_models(before) + equals_filter(
        text@,
        text_of_string(*value),
    ));
}

fn push_in_use(clauses: &mut Vec<Clause>, text: &str, include_tombstoned: bool)
    ensures
        clause_models(final(clauses)@) == clause_models(old(clauses)@) + in_use(
            text@,
            include_tombstoned,
        ),
{
    let ghost before = clauses@;
    if !include_tombstoned {
        clauses.push(plain_clause(text));
    }
    assert(clause_models(clauses@) =~= clause_models(before) + in_use(text@, include_tombstoned));
}

/// The statement that finds the entity where a walk begins.
pub fn graph_seed_query(p: &PreparedGraphNeighborsRequest) -> (r: Statement)
    ensures
        r.sql@ == "SELECT id FROM entities WHERE "@ + conjunction(seed_clauses(*p))
            + " ORDER BY id ASC LIMIT 1"@,
        value_models(r.values@) == clause_values(seed_clauses(*p)),
{
    let mut clauses: Vec<Clause> = Vec::new();
    clauses.push(text_clause("space_name = ?", p.space.as_str()));
    assert(clause_models(clauses@) =~= seq![on_text("space_name = ?"@, p.space@)]);
    push_equals(&mut clauses, "id = ?", &p.entity_id);
    push_equals(&mut clauses, "entity_key = ?", &p.entity_key);
    push_in_use(&mut clauses, "status != 'tombstoned'", p.include_tombstoned);
    let conditions = join_clauses(&clauses);
    Statement {
        sql: concat3(
            "SELECT id FROM entities WHERE ",
            conditions.as_str(),
            " ORDER BY id ASC LIMIT 1",
        ),
        values: collect_values(&clauses),
    }
}

/// The condition that what supports a relationship is in use.
pub const SUPPORTED_EDGE: &'static str = "(r.memory_id IS NULL OR evidence_memory.status = 'active')";

/// The walk up to its depth.
pub const WALK_HEAD: &'static str = "WITH RECURSIVE walk(entity_id, depth) AS (
             SELECT ?, 0
             UNION
             SELECT CASE
                      WHEN r.subject_entity_id = walk.entity_id THEN r.object_entity_id
                      ELSE r.subject_entity_id
                    END,
                    walk.depth + 1
               FROM walk
               JOIN relationships r
                 ON r.space_name = ?
                AND (r.subject_entity_id = walk.entity_id OR r.object_entity_id = walk.entity_id)
               JOIN entities next_entity
                 ON next_entity.id = CASE
                      WHEN r.subject_entity_id = walk.entity_id THEN r.object_entity_id
                      ELSE r.subject_entity_id
                    END
               LEFT JOIN memories evidence_memory ON evidence_memory.id = r.memory_id
              WHERE walk.depth < ";

/// The relationships among the entities of a walk, up to their conditions.
pub const WALK_EDGES: &'static str = "
           ),
           nodes AS (
             SELECT entity_id, MIN(depth) AS depth FROM walk GROUP BY entity_id
           )
         SELECT r.id, r.space_name, r.subject_entity_id, r.relation_type, r.object_entity_id,
                r.memory_id, r.source_episode_id, r.status, r.confidence, r.observed_at,
                r.valid_from, r.valid_to, r.created_at, r.updated_at, s.depth, o.depth
           FROM relationships r
           JOIN nodes s ON s.entity_id = r.subject_entity_id
           JOIN nodes o ON o.entity_id = r.object_entity_id
           JOIN entities subject_entity ON subject_entity.id = r.subject_entity_id
           JOIN entities object_entity ON object_entity.id = r.object_entity_id
           LEFT JOIN memories evidence_memory ON evidence_memory.id = r.memory_id
          WHERE ";

/// The order of the relationships of a walk, up to their number.
pub const WALK_ORDER: &'static str = "
          ORDER BY min(s.depth, o.depth) ASC, max(s.depth, o.depth) ASC, r.relation_type ASC, r.id ASC
          LIMIT ";

/// The conditions on a step of a walk.
pub open spec fn step_clauses(p: PreparedGraphNeighborsRequest) -> Seq<ClauseModel> {
    seq![one_of_texts("r.status"@, views(p.statuses@))] + in_filter(
        "r.relation_type"@,
        views(p.relation_types@),
    ) + in_use("next_entity.status != 'tombstoned'"@, p.include_tombstoned) + seq![
        plain(SUPPORTED_EDGE@),
    ]
}

/// The conditions on the relationships among the entities of a walk.
pub open spec fn edge_clauses(p: PreparedGraphNeighborsRequest) -> Seq<ClauseModel> {
    seq![
        on_text("r.space_name = ?"@, p.space@),
        one_of_texts("r.status"@, views(p.statuses@)),
    ] + in_filter("r.relation_type"@, views(p.relation_types@)) + in_use(
        "subject_entity.status != 'tombstoned' AND object_entity.status != 'tombstoned'"@,
        p.include_tombstoned,
    ) + seq![plain(SUPPORTED_EDGE@)]
}

fn build_step_clauses(p: &PreparedGraphNeighborsRequest) -> (r: Vec<Clause>)
    ensures
        clause_models(r@) == step_clauses(*p),
{
    let mut clauses: Vec<Clause> = Vec::new();
    clauses.push(one_of_clause("r.status", &p.statuses));
    assert(clause_models(clauses@) =~= seq![one_of_texts("r.status"@, views(p.statuses@))]);
    append_sql_in_filter(&mut clauses, "r.relation_type", &p.relation_types);
    push_in_use(&mut clauses, "next_entity.status != 'tombstoned'", p.include_tombstoned);
    let ghost before = clauses@;
    clauses.push(plain_clause(SUPPORTED_EDGE));
    assert(clause_models(clauses@) =~= clause_models(before) + seq![plain(SUPPORTED_EDGE@)]);
    clauses
}

fn build_edge_clauses(p: &PreparedGraphNeighborsRequest) -> (r: Vec<Clause>)
    ensures
        clause_models(r@) == edge_clauses(*p),
{
    let mut clauses: Vec<Clause> = Vec::new();
    clauses.push(text_clause("r.space_name = ?", p.space.as_str()));
    clauses.push(one_of_clause("r.status", &p.statuses));
    assert(clause_models(clauses@) =~= seq![
        on_text("r.space_name = ?"@, p.space@),
        one_of_texts("r.status"@, views(p.statuses@)),
    ]);
    append_sql_in_filter(&mut clauses, "r.relation_type", &p.relation_types);
    push_in_use(
        &mut clauses,
        "subject_entity.status != 'tombstoned' AND object_entity.status != 'tombstoned'",
        p.include_tombstoned,
    );
    let ghost before = clauses@;
    clauses.push(plain_clause(SUPPORTED_EDGE));
    assert(clause_models(clauses@) =~= clause_models(before) + seq![plain(SUPPORTED_EDGE@)]);
    clauses
}

/// The statement of a walk: one row more than is asked for, to see whether there
/// is more.
pub fn graph_walk_query(seed_id: &str, p: &PreparedGraphNeighborsRequest) -> (r: Statement)
    requires
        p.max_edges < usize::MAX,
    ensures
        r.sql@ == WALK_HEAD@ + decimal(p.depth as nat) + " AND "@ + conjunction(step_clauses(*p))
            + WALK_EDGES@ + conjunction(edge_clauses(*p)) + WALK_ORDER@ + decimal(
            (p.max_edges + 1) as nat,
        ),
        value_models(r.values@) == seq![SqlModel::Text(seed_id@), SqlModel::Text(p.space@)]
            + clause_values(step_clauses(*p)) + clause_values(edge_clauses(*p)),
{
    let steps = build_step_clauses(p);
    let edges = build_edge_clauses(p);
    let mut sql = WALK_HEAD.to_owned();
    let depth = decimal_of(p.depth as u64);
    sql.append(depth.as_str());
    sql.append(" AND ");
    let step_text = join_clauses(&steps);
    sql.append(step_text.as_str());
    sql.append(WALK_EDGES);
    let edge_text = join_clauses(&edges);
    sql.append(edge_text.as_str());
    sql.append(WALK_ORDER);
    let limit = decimal_of((p.max_edges + 1) as u64);
    sql.append(limit.as_str());
    let mut values: Vec<SqlValue> = Vec::new();
    values.push(SqlValue::Text(seed_id.to_owned()));
    values.push(SqlValue::Text(p.space.clone()));
    assert(value_models(values@) =~= seq![SqlModel::Text(seed_id@), SqlModel::Text(p.space@)]);
    append_values(&mut values, &collect_values(&steps));
    append_values(&mut values, &collect_values(&edges));
    Statement { sql, values }
}

/// A relationship of the graph.
pub struct RelationshipRecord {
    /// Id.
    pub id: String,
    /// Space.
    pub space: String,
    /// Entity on the one side.
    pub subject_entity_id: String,
    /// Type.
    pub relation_type: String,
    /// Entity on the other side.
    pub object_entity_id: String,
    /// Memory that supports it.
    pub memory_id: Option<String>,
    /// Source episode.
    pub source_episode_id: Option<String>,
    /// Status.
    pub status: String,
    /// Confidence.
    pub confidence: Score,
    /// Observation time.
    pub observed_at: Option<String>,
    /// Start of validity.
    pub valid_from: Option<String>,
    /// End of validity.
    pub valid_to: Option<String>,
    /// When it was made.
    pub created_at: String,
    /// When it was last changed.
    pub updated_at: String,
}

/// A relationship, with the distances of its ends.
pub struct GraphRelationshipRecord {
    /// Steps to the one side.
    pub subject_depth: usize,
    /// Steps to the other side.
    pub object_depth: usize,
    /// The relationship.
    pub relationship: RelationshipRecord,
}

/// An entity, with its distance.
pub struct GraphEntityRecord {
    /// Steps to it.
    pub depth: usize,
    /// The entity.
    pub entity: EntityRecord,
}

/// An entity by id, with its distance.
pub struct EntityDepth {
    /// Id.
    pub id: String,
    /// Steps to it.
    pub depth: usize,
}

/// The models of entities by id.
pub open spec fn depth_models(list: Seq<EntityDepth>) -> Seq<(Seq<char>, usize)> {
    list.map_values(|d: EntityDepth| (d.id@, d.depth))
}

/// The first place of an entity.
pub open spec fn find_depth(list: Seq<(Seq<char>, usize)>, id: Seq<char>) -> Option<int>
    decreases list.len(),
{
    if list.len() == 0 {
        None
    } else {
        match find_depth(list.drop_last(), id) {
            Some(i) => Some(i),
            None => if list.last().0 == id {
                Some(list.len() - 1)
            } else {
                None
            },
        }
    }
}

/// The distances with one more: the lesser one counts.
pub open spec fn with_depth(
    list: Seq<(Seq<char>, usize)>,
    id: Seq<char>,
    depth: usize,
) -> Seq<(Seq<char>, usize)> {
    match find_depth(list, id) {
        Some(i) => if depth < list[i].1 {
            list.update(i, (id, depth))
        } else {
            list
        },
        None => list.push((id, depth)),
    }
}

/// The distances of the entities of the first `n` relationships.
pub open spec fn depths_of(
    seed: Seq<char>,
    rows: Seq<GraphRelationshipRecord>,
    n: nat,
) -> Seq<(Seq<char>, usize)>
    decreases n,
{
    if n == 0 {
        seq![(seed, 0usize)]
    } else {
        let row = rows[n - 1];
        with_depth(
            with_depth(
                depths_of(seed, rows, (n - 1) as nat),
                row.relationship.subject_entity_id@,
                row.subject_depth,
            ),
            row.relationship.object_entity_id@,
            row.object_depth,
        )
    }
}

proof fn lemma_find_depth(list: Seq<(Seq<char>, usize)>, id: Seq<char>, i: int)
    requires
        0 <= i <= list.len(),
        forall|k: int| 0 <= k < i ==> (#[trigger] list[k]).0 != id,
        i < list.len() ==> list[i].0 == id,
    ensures
        find_depth(list, id) == if i < list.len() {
            Some(i)
        } else {
            None
        },
    decreases list.len(),
{
    if list.len() > 0 {
        let rest = list.drop_last();
        assert forall|k: int| 0 <= k < rest.len() implies rest[k] == list[k] by {}
        if i < list.len() {
            lemma_find_depth(rest, id, i);
        } else {
            assert(list[list.len() - 1].0 != id);
            lemma_find_depth(rest, id, i - 1);
        }
    }
}

fn note_depth(list: &mut Vec<EntityDepth>, id: &str, depth: usize)
    ensures
        depth_models(final(list)@) == with_depth(depth_models(old(list)@), id@, depth),
{
    let ghost before = depth_models(list@);
    let n: usize = list.len();
    let mut i: usize = 0;
    while i < n && !text_eq(list[i].id.as_str(), id)
        invariant
            i <= n,
            n == list@.len(),
            before == depth_models(list@),
            forall|k: int| 0 <= k < i ==> (#[trigger] before[k]).0 != id@,
        decreases n - i,
    {
        assert(before[i as int].0 != id@);
        i = i + 1;
    }
    proof {
        if i < n {
            assert(before[i as int].0 == id@);
        }
        lemma_find_depth(before, id@, i as int);
    }
    if i == n {
        list.push(EntityDepth { id: id.to_owned(), depth });
        assert(depth_models(list@) =~= before.push((id@, depth)));
    } else if depth < list[i].depth {
        list.set(i, EntityDepth { id: id.to_owned(), depth });
        assert(depth_models(list@) =~= before.update(i as int, (id@, depth)));
    }
}

/// The entities of a walk, each with its least distance: the first one is where
/// it begins.
pub fn entity_depths(seed_id: &str, rows: &Vec<GraphRelationshipRecord>, max_edges: usize) -> (r:
    Vec<EntityDepth>)
    ensures
        depth_models(r@) == depths_of(seed_id@, rows@, shown_rows(rows@.len(), max_edges)),
{
    let n: usize = if rows.len() > max_edges {
        max_edges
    } else {
        rows.len()
    };
    let mut list: Vec<EntityDepth> = Vec::new();
    list.push(EntityDepth { id: seed_id.to_owned(), depth: 0 });
    assert(depth_models(list@) =~= depths_of(seed_id@, rows@, 0));
    for i in 0..n
        invariant
            n <= rows@.len(),
            depth_models(list@) == depths_of(seed_id@, rows@, i as nat),
    {
        let row = &rows[i];
        note_depth(&mut list, row.relationship.subject_entity_id.as_str(), row.subject_depth);
        note_depth(&mut list, row.relationship.object_entity_id.as_str(), row.object_depth);
    }
    list
}

/// The sort key of an entity: by distance, then by key, then by id.
pub open spec fn neighbor_key(depth: usize, entity: EntityRecord) -> KeyModel {
    KeyModel {
        numbers: seq![depth as i128],
        texts: seq![(entity.entity_key@, false), (entity.id@, false)],
    }
}

/// The sort keys of entities.
pub open spec fn neighbor_keys(
    depths: Seq<(Seq<char>, usize)>,
    entities: Seq<EntityRecord>,
) -> Seq<KeyModel> {
    Seq::new(depths.len(), |i: int| neighbor_key(depths[i].1, entities[i]))
}

/// Report of a walk.
pub struct GraphNeighborsReport {
    /// How it was walked.
    pub strategy: &'static str,
    /// Where it began.
    pub seed: EntityRecord,
    /// Steps at most.
    pub depth: usize,
    /// Relationships at most.
    pub max_edges: usize,
    /// Whether there are more.
    pub truncated: bool,
    /// The entities in order.
    pub entities: Vec<GraphEntityRecord>,
    /// The relationships in order.
    pub relationships: Vec<GraphRelationshipRecord>,
}

/// Whether two entity records are the same.
pub open spec fn same_entity(a: EntityRecord, b: EntityRecord) -> bool {
    &&& a.id@ == b.id@
    &&& a.space@ == b.space@
    &&& a.entity_key@ == b.entity_key@
    &&& text_of_string(a.entity_type) == text_of_string(b.entity_type)
    &&& a.canonical_name@ == b.canonical_name@
    &&& a.status@ == b.status@
    &&& a.confidence == b.confidence
    &&& views(a.aliases@) == views(b.aliases@)
    &&& text_of_string(a.source_episode_id) == text_of_string(b.source_episode_id)
    &&& a.created_at@ == b.created_at@
    &&& a.updated_at@ == b.updated_at@
}

fn clone_entity(entity: &EntityRecord) -> (r: EntityRecord)
    ensures
        same_entity(r, *entity),
{
    EntityRecord {
        id: entity.id.clone(),
        space: entity.space.clone(),
        entity_key: entity.entity_key.clone(),
        entity_type: clone_text(&entity.entity_type),
        canonical_name: entity.canonical_name.clone(),
        status: entity.status.clone(),
        confidence: entity.confidence,
        aliases: clone_texts(&entity.aliases),
        source_episode_id: clone_text(&entity.source_episode_id),
        created_at: entity.created_at.clone(),
        updated_at: entity.updated_at.clone(),
    }
}

/// The fault of the first entity by id that has no record in its place.
pub open spec fn loading_fault(
    depths: Seq<(Seq<char>, usize)>,
    entities: Seq<EntityRecord>,
) -> Option<Fault>
    decreases depths.len(),
{
    if depths.len() == 0 {
        None
    } else {
        first_of(
            loading_fault(depths.drop_last(), entities),
            if entities.len() >= depths.len() && entities[depths.len() - 1].id@
                == depths.last().0 {
                None
            } else {
                Some(Fault::NotFound("entity"@, depths.last().0))
            },
        )
    }
}

proof fn lemma_loading_prefix(
    depths: Seq<(Seq<char>, usize)>,
    entities: Seq<EntityRecord>,
    n: int,
)
    requires
        0 <= n <= depths.len(),
        loading_fault(depths.take(n), entities) is Some,
    ensures
        loading_fault(depths, entities) == loading_fault(depths.take(n), entities),
    decreases depths.len() - n,
{
    if n < depths.len() {
        assert(depths.take(n + 1).drop_last() =~= depths.take(n));
        lemma_loading_prefix(depths, entities, n + 1);
    } else {
        assert(depths.take(n) =~= depths);
    }
}

proof fn lemma_loaded(depths: Seq<(Seq<char>, usize)>, entities: Seq<EntityRecord>)
    requires
        loading_fault(depths, entities) is None,
    ensures
        entities.len() >= depths.len(),
    decreases depths.len(),
{
}

/// Whether a report shows a walk.
pub open spec fn reports_walk(
    depth: usize,
    max_edges: usize,
    seed: EntityRecord,
    rows: Seq<GraphRelationshipRecord>,
    entities: Seq<EntityRecord>,
    r: GraphNeighborsReport,
) -> bool {
    let shown = shown_rows(rows.len(), max_edges);
    let depths = depths_of(seed.id@, rows, shown);
    let order = sorting(neighbor_keys(depths, entities));
    &&& r.strategy@ == "deterministic_graph_neighbors_v0"@
    &&& r.seed == seed
    &&& r.depth == depth
    &&& r.max_edges == max_edges
    &&& r.truncated == (rows.len() > max_edges)
    &&& r.entities@.len() == depths.len()
    &&& forall|i: int|
        0 <= i < depths.len() ==> (#[trigger] r.entities@[i]).depth == depths[order[i]].1
            && same_entity(r.entities@[i].entity, entities[order[i]])
    &&& r.relationships@ == rows.take(shown as int)
}

fn neighbor_order(depths: &Vec<EntityDepth>, entities: &Vec<EntityRecord>) -> (r: Vec<usize>)
    requires
        entities@.len() >= depths@.len(),
    ensures
        positions(r@) == sorting(neighbor_keys(depth_models(depths@), entities@)),
        r@.len() == depths@.len(),
        forall|i: int| 0 <= i < r@.len() ==> (#[trigger] r@[i]) < depths@.len(),
{
    let ghost wanted = neighbor_keys(depth_models(depths@), entities@);
    let mut keys: Vec<SortKey> = Vec::new();
    assert(key_models(keys@) =~= wanted.take(0));
    for i in 0..depths.len()
        invariant
            entities@.len() >= depths@.len(),
            wanted == neighbor_keys(depth_models(depths@), entities@),
            key_models(keys@) == wanted.take(i as int),
    {
        let mut numbers: Vec<i128> = Vec::new();
        numbers.push(depths[i].depth as i128);
        let mut texts: Vec<SortText> = Vec::new();
        texts.push(SortText { text: entities[i].entity_key.clone(), descending: false });
        texts.push(SortText { text: entities[i].id.clone(), descending: false });
        let key = SortKey { numbers, texts };
        proof {
            assert(depth_models(depths@)[i as int].1 == depths@[i as int].depth);
            assert(key@.numbers =~= wanted[i as int].numbers);
            assert(key@.texts =~= wanted[i as int].texts);
        }
        let ghost before = keys@;
        keys.push(key);
        assert(key_models(keys@) =~= key_models(before).push(wanted[i as int]));
        assert(wanted.take(i + 1) =~= wanted.take(i as int).push(wanted[i as int]));
    }
    assert(wanted.len() == depths@.len());
    assert(wanted.take(depths@.len() as int) =~= wanted);
    let order = sort_order(keys.as_slice());
    proof {
        assert(positions(order@).len() == order@.len());
        assert forall|i: int| 0 <= i < order@.len() implies (#[trigger] order@[i])
            < depths@.len() by {
            assert(positions(order@)[i] == order@[i]);
        }
    }
    order
}

/// Reports a walk, given the entities that it came to (see [`entity_depths`]).
pub fn report_neighbors(
    depth: usize,
    max_edges: usize,
    seed: EntityRecord,
    rows: Vec<GraphRelationshipRecord>,
    entities: &Vec<EntityRecord>,
) -> (r: GraphNeighborsReport)
    requires
        loading_fault(
            depths_of(seed.id@, rows@, shown_rows(rows@.len(), max_edges)),
            entities@,
        ) is None,
    ensures
        reports_walk(depth, max_edges, seed, rows@, entities@, r),
{
    let depths = entity_depths(seed.id.as_str(), &rows, max_edges);
    let ghost all = depth_models(depths@);
    assert(all.len() == depths@.len());
    proof {
        lemma_loaded(all, entities@);
    }
    let order = neighbor_order(&depths, entities);
    let ghost wanted = sorting(neighbor_keys(all, entities@));
    let mut found: Vec<GraphEntityRecord> = Vec::new();
    for i in 0..order.len()
        invariant
            all == depth_models(depths@),
            all.len() == depths@.len(),
            entities@.len() >= depths@.len(),
            order@.len() == depths@.len(),
            positions(order@) == wanted,
            forall|k: int| 0 <= k < order@.len() ==> (#[trigger] order@[k]) < depths@.len(),
            found@.len() == i,
            forall|k: int|
                0 <= k < i ==> (#[trigger] found@[k]).depth == all[wanted[k]].1 && same_entity(
                    found@[k].entity,
                    entities@[wanted[k]],
                ),
    {
        let at: usize = order[i];
        assert(positions(order@)[i as int] == at);
        assert(all[at as int].1 == depths@[at as int].depth);
        found.push(
            GraphEntityRecord { depth: depths[at].depth, entity: clone_entity(&entities[at]) },
        );
    }
    let truncated: bool = rows.len() > max_edges;
    let ghost before = rows@;
    let mut relationships = rows;
    relationships.truncate(max_edges);
    assert(relationships@ =~= before.take(shown_rows(before.len(), max_edges) as int));
    GraphNeighborsReport {
        strategy: "deterministic_graph_neighbors_v0",
        seed,
        depth,
        max_edges,
        truncated,
        entities: found,
        relationships,
    }
}

fn check_loaded(depths: &Vec<EntityDepth>, entities: &Vec<EntityRecord>) -> (r: Result<(), Error>)
    ensures
        verdict(r) == loading_fault(depth_models(depths@), entities@),
{
    let ghost all = depth_models(depths@);
    for i in 0..depths.len()
        invariant
            all == depth_models(depths@),
            loading_fault(all.take(i as int), entities@) is None,
    {
        proof {
            assert(all.take(i + 1).drop_last() =~= all.take(i as int));
            assert(all.take(i + 1).last().0 == depths@[i as int].id@);
            if loading_fault(all.take(i + 1), entities@) is Some {
                lemma_loading_prefix(all, entities@, i + 1);
            }
        }
        if entities.len() <= i || !text_eq(entities[i].id.as_str(), depths[i].id.as_str()) {
            return Err(not_found("entity", depths[i].id.as_str()));
        }
    }
    assert(all.take(depths@.len() as int) =~= all);
    Ok(())
}

/// The fault of a walk against what the store knows.
pub open spec fn walk_fault(
    request: GraphNeighborsRequest,
    space_exists: bool,
    seed: Option<EntityRecord>,
    rows: Seq<GraphRelationshipRecord>,
    entities: Seq<EntityRecord>,
) -> Option<Fault> {
    first_of(
        missing_space_fault(
            space_exists,
            text_or(text_of_string(request.space), DEFAULT_SPACE@),
        ),
        match seed {
            Some(found) => loading_fault(
                depths_of(found.id@, rows, shown_rows(rows.len(), request.max_edges)),
                entities,
            ),
            None => Some(
                Fault::NotFound(
                    "entity"@,
                    named(
                        core_of(text_of_string(request.entity_id)),
                        core_of(text_of_string(request.entity_key)),
                    ),
                ),
            ),
        },
    )
}

/// Walks from an entity to its neighbors: checks the request, and reports what
/// was found. The records of the entities stand in the order of
/// [`entity_depths`].
pub fn graph_neighbors(
    request: &GraphNeighborsRequest,
    space_exists: bool,
    seed: Option<EntityRecord>,
    rows: Vec<GraphRelationshipRecord>,
    entities: &Vec<EntityRecord>,
) -> (r: Result<GraphNeighborsReport, Error>)
    ensures
        match r {
            Ok(report) => {
                &&& neighbors_fault(*request) is None
                &&& walk_fault(*request, space_exists, seed, rows@, entities@) is None
                &&& reports_walk(
                    request.depth,
                    request.max_edges,
                    seed->0,
                    rows@,
                    entities@,
                    report,
                )
            },
            Err(e) => first_of(
                neighbors_fault(*request),
                walk_fault(*request, space_exists, seed, rows@, entities@),
            ) == Some(e@),
        },
{
    let prepared = match prepare_graph_neighbors_request(request) {
        Ok(prepared) => prepared,
        Err(e) => {
            return Err(e);
        },
    };
    if !space_exists {
        return Err(not_found("space", prepared.space.as_str()));
    }
    match seed {
        None => {
            let name = match &prepared.entity_id {
                Some(id) => id.clone(),
                None => match &prepared.entity_key {
                    Some(key) => key.clone(),
                    None => String::new(),
                },
            };
            Err(not_found("entity", name.as_str()))
        },
        Some(found) => {
            let depths = entity_depths(found.id.as_str(), &rows, prepared.max_edges);
            if let Err(e) = check_loaded(&depths, entities) {
                return Err(e);
            }
            Ok(report_neighbors(prepared.depth, prepared.max_edges, found, rows, entities))
        },
    }
}

proof fn lemma_depths_distinct(list: Seq<(Seq<char>, usize)>, id: Seq<char>, depth: usize)
    requires
        forall|i: int, j: int|
            0 <= i < j < list.len() ==> (#[trigger] list[i]).0 != (#[trigger] list[j]).0,
    ensures
        forall|i: int, j: int|
            0 <= i < j < with_depth(list, id, depth).len() ==> (#[trigger] with_depth(
                list,
                id,
                depth,
            )[i]).0 != (#[trigger] with_depth(list, id, depth)[j]).0,
        with_depth(list, id, depth).len() >= list.len(),
        forall|i: int|
            0 <= i < list.len() ==> (#[trigger] with_depth(list, id, depth)[i]).0 == list[i].0
                && with_depth(list, id, depth)[i].1 <= list[i].1,
{
    lemma_found_depth(list, id);
}

proof fn lemma_found_depth(list: Seq<(Seq<char>, usize)>, id: Seq<char>)
    ensures
        match find_depth(list, id) {
            Some(i) => 0 <= i < list.len() && list[i].0 == id,
            None => forall|k: int| 0 <= k < list.len() ==> (#[trigger] list[k]).0 != id,
        },
    decreases list.len(),
{
    if list.len() > 0 {
        lemma_found_depth(list.drop_last(), id);
        assert forall|k: int| 0 <= k < list.len() - 1 implies list.drop_last()[k] == list[k] by {}
    }
}

/// A walk lists no entity twice, and lists where it began first, at no distance.
pub proof fn law_walk_lists_each_entity_once(
    seed: Seq<char>,
    rows: Seq<GraphRelationshipRecord>,
    n: nat,
)
    ensures
        ({
            let depths = depths_of(seed, rows, n);
            &&& depths.len() > 0
            &&& depths[0] == (seed, 0usize)
            &&& forall|i: int, j: int|
                0 <= i < j < depths.len() ==> (#[trigger] depths[i]).0 != (#[trigger] depths[j]).0
        }),
    decreases n,
{
    if n > 0 {
        law_walk_lists_each_entity_once(seed, rows, (n - 1) as nat);
        let row = rows[n - 1];
        let before = depths_of(seed, rows, (n - 1) as nat);
        let middle = with_depth(before, row.relationship.subject_entity_id@, row.subject_depth);
        lemma_depths_distinct(before, row.relationship.subject_entity_id@, row.subject_depth);
        lemma_depths_distinct(middle, row.relationship.object_entity_id@, row.object_depth);
        let after = depths_of(seed, rows, n);
        assert(middle[0].0 == before[0].0 && middle[0].1 <= before[0].1);
        assert(after[0].0 == middle[0].0 && after[0].1 <= middle[0].1);
    }
}

} // verus!
