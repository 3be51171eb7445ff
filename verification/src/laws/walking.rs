//! What looking for entities and walking the graph promise.

use vstd::prelude::*;

use crate::context::{
    evidence_ids, graph_context, graph_context_evidence_memory_ids, graph_context_memory_ids,
    graph_full, live_edges, united, with_all, with_new, ActiveEntity, ContextFacts, EntityEdge,
    EntityEdgeModel, GraphContextReport, GraphContextRequest, GraphFullReport,
};
use crate::error::Error;
use crate::json::text_of_string;
use crate::laws::ordering::{lemma_key_order, lemma_sorting_names_each};
use crate::merging::EntityRecord;
use crate::neighbors::{
    depth_models, depths_of, entity_depths, entity_search_query, find_depth, graph_neighbors,
    graph_seed_query, graph_walk_query, neighbor_keys, prepare_entity_search_request,
    prepare_graph_neighbors_request, search_entities, shown_rows, with_depth, EntityDepth,
    EntityRow, EntitySearchReport, EntitySearchRequest, GraphNeighborsReport,
    GraphNeighborsRequest, GraphRelationshipRecord, PreparedEntitySearchRequest,
    PreparedGraphNeighborsRequest,
};
use crate::order::text_less;
use crate::ranking::sorting;
use crate::sql::{
    clause_values, conjunction, on_text, one_of_texts, plain, value_models, ClauseModel, SqlModel,
    Statement,
};
use crate::text::{decimal, trimmed, views};

verus! {

/// Whether an entity is an end of one of the first `n` relationships, at a depth.
pub open spec fn is_end_at(
    rows: Seq<GraphRelationshipRecord>,
    n: int,
    id: Seq<char>,
    depth: usize,
) -> bool {
    exists|k: int|
        0 <= k < n && (((#[trigger] rows[k]).relationship.subject_entity_id@ == id
            && rows[k].subject_depth == depth) || (rows[k].relationship.object_entity_id@ == id
            && rows[k].object_depth == depth))
}

/// Whether an entity is listed, at a depth or nearer.
pub open spec fn is_listed_within(
    list: Seq<(Seq<char>, usize)>,
    id: Seq<char>,
    depth: usize,
) -> bool {
    exists|i: int| 0 <= i < list.len() && (#[trigger] list[i]).0 == id && list[i].1 <= depth
}

proof fn lemma_find_depth(list: Seq<(Seq<char>, usize)>, id: Seq<char>)
    ensures
        match find_depth(list, id) {
            Some(i) => 0 <= i < list.len() && list[i].0 == id,
            None => forall|k: int| 0 <= k < list.len() ==> (#[trigger] list[k]).0 != id,
        },
    decreases list.len(),
{
    if list.len() > 0 {
        let rest = list.drop_last();
        lemma_find_depth(rest, id);
        if find_depth(list, id) is None {
            assert forall|k: int| 0 <= k < list.len() implies (#[trigger] list[k]).0 != id by {
                if k < rest.len() {
                    assert(rest[k] == list[k]);
                }
            }
        }
    }
}

proof fn lemma_with_depth(list: Seq<(Seq<char>, usize)>, id: Seq<char>, depth: usize)
    ensures
        is_listed_within(with_depth(list, id, depth), id, depth),
        forall|other: Seq<char>, d: usize| #[trigger]
            is_listed_within(list, other, d) ==> is_listed_within(
                with_depth(list, id, depth),
                other,
                d,
            ),
        forall|i: int|
            0 <= i < with_depth(list, id, depth).len() ==> list.contains(
                #[trigger] with_depth(list, id, depth)[i],
            ) || with_depth(list, id, depth)[i] == (id, depth),
{
    let after = with_depth(list, id, depth);
    lemma_find_depth(list, id);
    assert forall|i: int| 0 <= i < after.len() implies list.contains(#[trigger] after[i])
        || after[i] == (id, depth) by {
        if i < list.len() && after[i] == list[i] {
            assert(list.contains(list[i]));
        }
    }
    match find_depth(list, id) {
        Some(i) => {
            assert(after[i].0 == id && after[i].1 <= depth);
        },
        None => {
            assert(after[list.len() as int] == (id, depth));
        },
    }
    assert forall|other: Seq<char>, d: usize| #[trigger]
        is_listed_within(list, other, d) implies is_listed_within(after, other, d) by {
        let i = choose|i: int| 0 <= i < list.len() && (#[trigger] list[i]).0 == other && list[i].1 <= d;
        assert(after[i].0 == other && after[i].1 <= d);
    }
}

/// Whether both ends of a relationship are listed, at their depths or nearer.
spec fn lists_ends(list: Seq<(Seq<char>, usize)>, row: GraphRelationshipRecord) -> bool {
    &&& is_listed_within(list, row.relationship.subject_entity_id@, row.subject_depth)
    &&& is_listed_within(list, row.relationship.object_entity_id@, row.object_depth)
}

proof fn lemma_depths(seed: Seq<char>, rows: Seq<GraphRelationshipRecord>, n: nat)
    requires
        n <= rows.len(),
    ensures
        is_listed_within(depths_of(seed, rows, n), seed, 0),
        forall|k: int| 0 <= k < n ==> lists_ends(depths_of(seed, rows, n), #[trigger] rows[k]),
    decreases n,
{
    let after = depths_of(seed, rows, n);
    if n == 0 {
        assert(after[0] == (seed, 0usize));
    } else {
        let m = (n - 1) as nat;
        lemma_depths(seed, rows, m);
        let before = depths_of(seed, rows, m);
        let row = rows[n - 1];
        let middle = with_depth(before, row.relationship.subject_entity_id@, row.subject_depth);
        lemma_with_depth(before, row.relationship.subject_entity_id@, row.subject_depth);
        lemma_with_depth(middle, row.relationship.object_entity_id@, row.object_depth);
        assert(is_listed_within(middle, seed, 0));
        assert forall|k: int| 0 <= k < n implies lists_ends(after, #[trigger] rows[k]) by {
            if k < m {
                assert(lists_ends(before, rows[k]));
                assert(lists_ends(middle, rows[k]));
            } else {
                assert(is_listed_within(
                    middle,
                    row.relationship.subject_entity_id@,
                    row.subject_depth,
                ));
            }
        }
    }
}

/// Whether a pair is the start, or an end of one of the first `n` relationships.
spec fn is_met(
    seed: Seq<char>,
    rows: Seq<GraphRelationshipRecord>,
    n: int,
    pair: (Seq<char>, usize),
) -> bool {
    pair == (seed, 0usize) || is_end_at(rows, n, pair.0, pair.1)
}

proof fn lemma_met_later(
    seed: Seq<char>,
    rows: Seq<GraphRelationshipRecord>,
    n: int,
    pair: (Seq<char>, usize),
)
    requires
        is_met(seed, rows, n, pair),
    ensures
        is_met(seed, rows, n + 1, pair),
{
    if is_end_at(rows, n, pair.0, pair.1) {
        let k = choose|k: int|
            0 <= k < n && (((#[trigger] rows[k]).relationship.subject_entity_id@ == pair.0
                && rows[k].subject_depth == pair.1) || (rows[k].relationship.object_entity_id@
                == pair.0 && rows[k].object_depth == pair.1));
        assert(0 <= k < n + 1 && ((rows[k].relationship.subject_entity_id@ == pair.0
            && rows[k].subject_depth == pair.1) || (rows[k].relationship.object_entity_id@
            == pair.0 && rows[k].object_depth == pair.1)));
    }
}

proof fn lemma_depths_from(seed: Seq<char>, rows: Seq<GraphRelationshipRecord>, n: nat)
    requires
        n <= rows.len(),
    ensures
        forall|i: int|
            0 <= i < depths_of(seed, rows, n).len() ==> is_met(
                seed,
                rows,
                n as int,
                #[trigger] depths_of(seed, rows, n)[i],
            ),
    decreases n,
{
    if n > 0 {
        let m = (n - 1) as nat;
        lemma_depths_from(seed, rows, m);
        let before = depths_of(seed, rows, m);
        let after = depths_of(seed, rows, n);
        let row = rows[n - 1];
        let subject = row.relationship.subject_entity_id@;
        let object = row.relationship.object_entity_id@;
        let middle = with_depth(before, subject, row.subject_depth);
        lemma_with_depth(before, subject, row.subject_depth);
        lemma_with_depth(middle, object, row.object_depth);
        assert forall|i: int| 0 <= i < after.len() implies is_met(
            seed,
            rows,
            n as int,
            #[trigger] after[i],
        ) by {
            let pair = after[i];
            assert(rows[n - 1] == row);
            if pair != (object, row.object_depth) && pair != (subject, row.subject_depth) {
                assert(middle.contains(pair));
                let p = choose|p: int| 0 <= p < middle.len() && middle[p] == pair;
                assert(before.contains(middle[p]));
                let q = choose|q: int| 0 <= q < before.len() && before[q] == pair;
                assert(is_met(seed, rows, m as int, before[q]));
                lemma_met_later(seed, rows, m as int, pair);
            }
        }
    }
}

/// A walk lists the entity that it starts from and both ends of every relationship that
/// it shows, and no other entity, each at the least depth at which it was met.
pub proof fn law_walk_lists_the_nearest_depth(
    seed: &str,
    rows: Vec<GraphRelationshipRecord>,
    max_edges: usize,
    depths: Vec<EntityDepth>,
)
    requires
        call_ensures(entity_depths, (seed, &rows, max_edges), depths),
    ensures
        ({
            let n = if rows@.len() > max_edges {
                max_edges as int
            } else {
                rows@.len() as int
            };
            &&& is_listed_within(depth_models(depths@), seed@, 0)
            &&& forall|k: int|
                0 <= k < n ==> is_listed_within(
                    depth_models(depths@),
                    (#[trigger] rows@[k]).relationship.subject_entity_id@,
                    rows@[k].subject_depth,
                ) && is_listed_within(
                    depth_models(depths@),
                    rows@[k].relationship.object_entity_id@,
                    rows@[k].object_depth,
                )
            &&& forall|i: int|
                0 <= i < depths@.len() ==> ((#[trigger] depths@[i]).id@ == seed@ && depths@[i].depth
                    == 0) || is_end_at(rows@, n, depths@[i].id@, depths@[i].depth)
        }),
{
    let n = shown_rows(rows@.len(), max_edges);
    lemma_depths(seed@, rows@, n);
    lemma_depths_from(seed@, rows@, n);
    assert forall|k: int| 0 <= k < n implies is_listed_within(
        depth_models(depths@),
        (#[trigger] rows@[k]).relationship.subject_entity_id@,
        rows@[k].subject_depth,
    ) && is_listed_within(
        depth_models(depths@),
        rows@[k].relationship.object_entity_id@,
        rows@[k].object_depth,
    ) by {
        assert(lists_ends(depths_of(seed@, rows@, n), rows@[k]));
    }
    let models = depth_models(depths@);
    assert(models.len() == depths@.len());
    assert forall|i: int| 0 <= i < depths@.len() implies ((#[trigger] depths@[i]).id@ == seed@
        && depths@[i].depth == 0) || is_end_at(rows@, n as int, depths@[i].id@, depths@[i].depth) by {
        assert(models[i] == (depths@[i].id@, depths@[i].depth));
        assert(is_met(seed@, rows@, n as int, depths_of(seed@, rows@, n)[i]));
    }
}

/// A walk shows the relationships in the order in which they were found, as many as it is
/// asked for, and the entities by depth, then by key.
pub proof fn law_walk_shows_the_nearest_first(
    request: GraphNeighborsRequest,
    space_exists: bool,
    seed: Option<EntityRecord>,
    rows: Vec<GraphRelationshipRecord>,
    entities: Vec<EntityRecord>,
    report: GraphNeighborsReport,
)
    requires
        call_ensures(
            graph_neighbors,
            (&request, space_exists, seed, rows, &entities),
            Ok::<GraphNeighborsReport, Error>(report),
        ),
    ensures
        space_exists,
        seed is Some && report.seed == seed->0,
        1 <= request.depth <= 4,
        1 <= request.max_edges <= 200,
        request.entity_id is Some != request.entity_key is Some,
        report.truncated <==> rows@.len() > request.max_edges,
        report.relationships@.len() == if rows@.len() > request.max_edges {
            request.max_edges as int
        } else {
            rows@.len() as int
        },
        forall|i: int|
            0 <= i < report.relationships@.len() ==> #[trigger] report.relationships@[i]
                == rows@[i],
        forall|i: int, j: int|
            0 <= i < j < report.entities@.len() ==> (#[trigger] report.entities@[i]).depth < (
            #[trigger] report.entities@[j]).depth || (report.entities@[i].depth
                == report.entities@[j].depth && (report.entities@[i].entity.entity_key@
                == report.entities@[j].entity.entity_key@ || text_less(
                report.entities@[i].entity.entity_key@,
                report.entities@[j].entity.entity_key@,
            ))),
{
    let depths = depths_of(seed->0.id@, rows@, shown_rows(rows@.len(), request.max_edges));
    let keys = neighbor_keys(depths, entities@);
    let order = sorting(keys);
    lemma_sorting_names_each(keys);
    assert forall|i: int, j: int| 0 <= i < j < report.entities@.len() implies (
    #[trigger] report.entities@[i]).depth < (#[trigger] report.entities@[j]).depth || (
    report.entities@[i].depth == report.entities@[j].depth && (
    report.entities@[i].entity.entity_key@ == report.entities@[j].entity.entity_key@ || text_less(
        report.entities@[i].entity.entity_key@,
        report.entities@[j].entity.entity_key@,
    ))) by {
        let a = order[i];
        let b = order[j];
        lemma_key_order(keys, a, b);
        assert(keys[a].numbers[0] == depths[a].1 && keys[b].numbers[0] == depths[b].1);
        assert(keys[a].texts[0] == (entities@[a].entity_key@, false));
        assert(keys[b].texts[0] == (entities@[b].entity_key@, false));
        assert(keys[a].texts[1] == (entities@[a].id@, false));
        assert(keys[b].texts[1] == (entities@[b].id@, false));
    }
}

/// A request for a walk that names no status asks for active relationships; one for
/// tombstones has to say so.
pub proof fn law_walk_asks_for_what_is_in_use(
    request: GraphNeighborsRequest,
    prepared: PreparedGraphNeighborsRequest,
)
    requires
        call_ensures(
            prepare_graph_neighbors_request,
            (&request,),
            Ok::<PreparedGraphNeighborsRequest, Error>(prepared),
        ),
    ensures
        request.statuses@.len() == 0 ==> views(prepared.statuses@) == seq!["active"@],
        views(prepared.statuses@).contains("tombstoned"@) ==> request.include_tombstoned,
        request.space is None ==> prepared.space@ == "workspace-memory"@,
        request.space matches Some(space) ==> prepared.space@ == space@,
        prepared.depth == request.depth && prepared.max_edges == request.max_edges,
{
    assert(views(request.statuses@).len() == request.statuses@.len());
}

/// A walk starts from the entity that is named, in the space, and not from a tombstone
/// unless tombstones are asked for.
pub proof fn law_walk_starts_from_the_named_entity(
    p: PreparedGraphNeighborsRequest,
    statement: Statement,
) -> (conditions: Seq<ClauseModel>)
    requires
        call_ensures(graph_seed_query, (&p,), statement),
    ensures
        statement.sql@ == "SELECT id FROM entities WHERE "@ + conjunction(conditions)
            + " ORDER BY id ASC LIMIT 1"@,
        value_models(statement.values@) == clause_values(conditions),
        conditions.contains(on_text("space_name = ?"@, p.space@)),
        p.entity_id matches Some(id) ==> conditions.contains(on_text("id = ?"@, id@)),
        p.entity_key matches Some(key) ==> conditions.contains(on_text("entity_key = ?"@, key@)),
        !p.include_tombstoned ==> conditions.contains(plain("status != 'tombstoned'"@)),
{
    let conditions = crate::neighbors::seed_clauses(p);
    let ids: int = if p.entity_id is Some {
        1
    } else {
        0
    };
    let keys: int = if p.entity_key is Some {
        1
    } else {
        0
    };
    assert(conditions[0] == on_text("space_name = ?"@, p.space@));
    if p.entity_id is Some {
        assert(conditions[1] == on_text("id = ?"@, p.entity_id->0@));
    }
    if p.entity_key is Some {
        assert(conditions[1 + ids] == on_text("entity_key = ?"@, p.entity_key->0@));
    }
    if !p.include_tombstoned {
        assert(conditions[1 + ids + keys] == plain("status != 'tombstoned'"@));
    }
    conditions
}

/// A walk goes no deeper than it is asked to, along relationships of the statuses and
/// types that it is asked for whose evidence, if they have any, is active; it shows only
/// such, the nearest first, and one more than it is asked for.
pub proof fn law_walk_follows_supported_relationships(
    seed: &str,
    p: PreparedGraphNeighborsRequest,
    statement: Statement,
) -> (parts: (Seq<char>, Seq<ClauseModel>, Seq<char>, Seq<ClauseModel>))
    requires
        p.max_edges < usize::MAX,
        call_ensures(graph_walk_query, (seed, &p), statement),
    ensures
        is_walk(statement.sql@, p, parts.0, parts.1, parts.2, parts.3),
        value_models(statement.values@) == seq![SqlModel::Text(seed@), SqlModel::Text(p.space@)]
            + clause_values(parts.1) + clause_values(parts.3),
        parts.1.contains(one_of_texts("r.status"@, views(p.statuses@))),
        parts.3.contains(one_of_texts("r.status"@, views(p.statuses@))),
        parts.3.contains(on_text("r.space_name = ?"@, p.space@)),
        parts.1.contains(
            plain("(r.memory_id IS NULL OR evidence_memory.status = 'active')"@),
        ),
        parts.3.contains(
            plain("(r.memory_id IS NULL OR evidence_memory.status = 'active')"@),
        ),
        p.relation_types@.len() > 0 ==> parts.1.contains(
            one_of_texts("r.relation_type"@, views(p.relation_types@)),
        ) && parts.3.contains(one_of_texts("r.relation_type"@, views(p.relation_types@))),
        !p.include_tombstoned ==> parts.1.contains(plain("next_entity.status != 'tombstoned'"@))
            && parts.3.contains(
            plain(
                "subject_entity.status != 'tombstoned' AND object_entity.status != 'tombstoned'"@,
            ),
        ),
{
    let steps = crate::neighbors::step_clauses(p);
    let edges = crate::neighbors::edge_clauses(p);
    let types = views(p.relation_types@);
    assert(types.len() == p.relation_types@.len());
    let n: int = if types.len() > 0 {
        1
    } else {
        0
    };
    let m: int = if p.include_tombstoned {
        0
    } else {
        1
    };
    assert(steps[0] == one_of_texts("r.status"@, views(p.statuses@)));
    assert(edges[0] == on_text("r.space_name = ?"@, p.space@));
    assert(edges[1] == one_of_texts("r.status"@, views(p.statuses@)));
    assert(steps[1 + n + m] == plain(
        "(r.memory_id IS NULL OR evidence_memory.status = 'active')"@,
    ));
    assert(edges[2 + n + m] == plain(
        "(r.memory_id IS NULL OR evidence_memory.status = 'active')"@,
    ));
    if n == 1 {
        assert(steps[1] == one_of_texts("r.relation_type"@, types));
        assert(edges[2] == one_of_texts("r.relation_type"@, types));
    }
    if m == 1 {
        assert(steps[1 + n] == plain("next_entity.status != 'tombstoned'"@));
        assert(edges[2 + n] == plain(
            "subject_entity.status != 'tombstoned' AND object_entity.status != 'tombstoned'"@,
        ));
    }
    assert(is_walk(
        statement.sql@,
        p,
        crate::neighbors::WALK_HEAD@,
        steps,
        crate::neighbors::WALK_EDGES@,
        edges,
    ));
    (crate::neighbors::WALK_HEAD@, steps, crate::neighbors::WALK_EDGES@, edges)
}

/// Whether a text walks to a depth along what meets conditions, and reads the edges that
/// meet conditions, the nearest first.
pub open spec fn is_walk(
    text: Seq<char>,
    p: PreparedGraphNeighborsRequest,
    head: Seq<char>,
    steps: Seq<ClauseModel>,
    middle: Seq<char>,
    edges: Seq<ClauseModel>,
) -> bool {
    text == head + decimal(p.depth as nat) + " AND "@ + conjunction(steps) + middle + conjunction(
        edges,
    )
        + "\n          ORDER BY min(s.depth, o.depth) ASC, max(s.depth, o.depth) ASC, r.relation_type ASC, r.id ASC\n          LIMIT "@
        + decimal((p.max_edges + 1) as nat)
}

/// A search for entities shows what was found, in order, numbered from the offset on, as
/// many as it is asked for.
pub proof fn law_entity_search_shows_what_was_found(
    request: EntitySearchRequest,
    space_exists: bool,
    rows: Vec<EntityRow>,
    report: EntitySearchReport,
)
    requires
        call_ensures(
            search_entities,
            (&request, space_exists, rows),
            Ok::<EntitySearchReport, Error>(report),
        ),
    ensures
        space_exists,
        1 <= request.limit <= 50,
        request.offset <= 1_000,
        report.space@ == match request.space {
            Some(space) => space@,
            None => "workspace-memory"@,
        },
        report.results@.len() == if rows@.len() > request.limit {
            request.limit as int
        } else {
            rows@.len() as int
        },
        report.truncated <==> rows@.len() > request.limit,
        forall|i: int|
            0 <= i < report.results@.len() ==> (#[trigger] report.results@[i]).rank
                == request.offset + i + 1 && report.results@[i].entity == rows@[i].entity
                && report.results@[i].matched_aliases == rows@[i].matched_aliases,
        report.total_estimate == if report.results@.len() == 0 {
            0int
        } else if report.truncated {
            request.offset + request.limit + 1
        } else {
            request.offset + report.results@.len()
        },
{
}

/// A search for entities that names no status asks for active ones.
pub proof fn law_entity_search_asks_for_active(
    request: EntitySearchRequest,
    prepared: PreparedEntitySearchRequest,
)
    requires
        call_ensures(
            prepare_entity_search_request,
            (&request,),
            Ok::<PreparedEntitySearchRequest, Error>(prepared),
        ),
    ensures
        request.statuses@.len() == 0 ==> views(prepared.statuses@) == seq!["active"@],
        request.query matches Some(query) ==> text_of_string(prepared.query) == Some(
            trimmed(query@),
        ) && text_of_string(prepared.normalized_query) == Some(
            crate::writing::alias_form(trimmed(query@)),
        ),
        request.query is None ==> prepared.query is None && prepared.normalized_query is None,
{
    assert(views(request.statuses@).len() == request.statuses@.len());
}

/// A search for entities reads those of the space with the key, the types and the
/// statuses that are asked for whose key, name or alias holds the query.
pub proof fn law_entity_search_reads_what_is_asked_for(
    p: PreparedEntitySearchRequest,
    statement: Statement,
) -> (conditions: Seq<ClauseModel>)
    requires
        p.limit < i64::MAX,
        p.offset <= i64::MAX,
        call_ensures(entity_search_query, (&p,), statement),
    ensures
        is_entity_search(statement.sql@, conditions),
        value_models(statement.values@) == clause_values(conditions).push(
            SqlModel::Integer(p.limit + 1),
        ).push(SqlModel::Integer(p.offset as int)),
        conditions.contains(on_text("e.space_name = ?"@, p.space@)),
        p.entity_key matches Some(key) ==> conditions.contains(on_text("e.entity_key = ?"@, key@)),
        p.entity_types@.len() > 0 ==> conditions.contains(
            one_of_texts("e.entity_type"@, views(p.entity_types@)),
        ),
        p.statuses@.len() > 0 ==> conditions.contains(
            one_of_texts("e.status"@, views(p.statuses@)),
        ),
        p.query is Some ==> holds_query(
            conditions.last(),
            p.query->0@,
            text_of_string(p.normalized_query),
        ),
{
    let conditions = crate::neighbors::entity_clauses(p);
    let types = views(p.entity_types@);
    let statuses = views(p.statuses@);
    assert(types.len() == p.entity_types@.len() && statuses.len() == p.statuses@.len());
    let a: int = if p.entity_key is Some {
        1
    } else {
        0
    };
    let b: int = if types.len() > 0 {
        1
    } else {
        0
    };
    assert(conditions[0] == on_text("e.space_name = ?"@, p.space@));
    if a == 1 {
        assert(conditions[1] == on_text("e.entity_key = ?"@, p.entity_key->0@));
    }
    if b == 1 {
        assert(conditions[1 + a] == one_of_texts("e.entity_type"@, types));
    }
    if statuses.len() > 0 {
        assert(conditions[1 + a + b] == one_of_texts("e.status"@, statuses));
    }
    assert(is_entity_search(statement.sql@, conditions));
    conditions
}

/// Whether a text reads the entities that meet conditions, in order.
pub open spec fn is_entity_search(text: Seq<char>, conditions: Seq<ClauseModel>) -> bool {
    text
        == "SELECT e.id, e.space_name, e.entity_key, e.entity_type, e.canonical_name, e.status, e.confidence, e.source_episode_id, e.created_at, e.updated_at FROM entities e WHERE "@
        + conjunction(conditions)
        + " ORDER BY e.status ASC, e.entity_key ASC, e.id ASC LIMIT ? OFFSET ?"@
}

/// Whether a condition is that the key, the name or an alias of an entity holds a query.
pub open spec fn holds_query(c: ClauseModel, query: Seq<char>, form: Option<Seq<char>>) -> bool {
    &&& c.text
        == "(instr(lower(e.entity_key), lower(?)) > 0 OR instr(lower(e.canonical_name), lower(?)) > 0 OR EXISTS (SELECT 1 FROM entity_aliases ea WHERE ea.entity_id = e.id AND instr(ea.normalized_alias, ?) > 0))"@
    &&& c.values.len() == 3
    &&& c.values[0] == SqlModel::Text(query) && c.values[1] == SqlModel::Text(query)
    &&& form matches Some(f) ==> c.values[2] == SqlModel::Text(f)
}

/// Whether one of the first `n` relationships has a memory as its evidence.
pub open spec fn is_evidence(rows: Seq<GraphRelationshipRecord>, id: Seq<char>) -> bool {
    exists|k: int|
        0 <= k < rows.len() && (#[trigger] rows[k]).relationship.memory_id is Some
            && rows[k].relationship.memory_id->0@ == id
}

proof fn lemma_evidence(rows: Seq<GraphRelationshipRecord>)
    ensures
        forall|id: Seq<char>| #[trigger]
            evidence_ids(rows).contains(id) <==> is_evidence(rows, id),
        evidence_ids(rows).no_duplicates(),
    decreases rows.len(),
{
    if rows.len() > 0 {
        let rest = rows.drop_last();
        lemma_evidence(rest);
        let before = evidence_ids(rest);
        assert forall|id: Seq<char>| #[trigger] evidence_ids(rows).contains(id) <==> is_evidence(
            rows,
            id,
        ) by {
            assert(before.contains(id) <==> is_evidence(rest, id));
            if is_evidence(rest, id) {
                let k = choose|k: int|
                    0 <= k < rest.len() && (#[trigger] rest[k]).relationship.memory_id is Some
                        && rest[k].relationship.memory_id->0@ == id;
                assert(rows[k] == rest[k]);
            }
            if is_evidence(rows, id) {
                let k = choose|k: int|
                    0 <= k < rows.len() && (#[trigger] rows[k]).relationship.memory_id is Some
                        && rows[k].relationship.memory_id->0@ == id;
                if k < rest.len() {
                    assert(rest[k] == rows[k]);
                }
            }
            if let Some(last) = rows.last().relationship.memory_id {
                assert(rows[rows.len() - 1] == rows.last());
                crate::order::lemma_push_contains(before, last@, id);
            }
        }
    }
}

/// The evidence of a walk is every memory that a relationship of the walk rests on, each
/// once.
pub proof fn law_context_gathers_the_evidence(graph: GraphNeighborsReport, ids: Vec<String>)
    requires
        call_ensures(graph_context_evidence_memory_ids, (&graph,), ids),
    ensures
        forall|id: Seq<char>| #[trigger]
            views(ids@).contains(id) <==> is_evidence(graph.relationships@, id),
        views(ids@).no_duplicates(),
{
    lemma_evidence(graph.relationships@);
}

proof fn lemma_with_all(list: Seq<Seq<char>>, texts: Seq<Seq<char>>, cap: int)
    requires
        list.len() + texts.len() <= cap,
        list.no_duplicates(),
    ensures
        forall|id: Seq<char>| #[trigger]
            with_all(list, texts, cap).contains(id) <==> list.contains(id) || texts.contains(id),
        with_all(list, texts, cap).no_duplicates(),
        with_all(list, texts, cap).len() <= list.len() + texts.len(),
        with_all(list, texts, cap).len() >= list.len(),
        with_all(list, texts, cap).take(list.len() as int) == list,
    decreases texts.len(),
{
    if texts.len() > 0 {
        let rest = texts.drop_last();
        lemma_with_all(list, rest, cap);
        let before = with_all(list, rest, cap);
        let after = with_all(list, texts, cap);
        assert(texts =~= rest.push(texts.last()));
        assert(after == with_new(before, texts.last()));
        assert forall|id: Seq<char>| #[trigger] after.contains(id) <==> list.contains(id)
            || texts.contains(id) by {
            crate::order::lemma_push_contains(rest, texts.last(), id);
            crate::order::lemma_push_contains(before, texts.last(), id);
            assert(before.contains(id) <==> list.contains(id) || rest.contains(id));
        }
        assert(after.take(list.len() as int) =~= before.take(list.len() as int));
    } else {
        assert(list.take(list.len() as int) =~= list);
    }
}

/// The memories of a context are those of the evidence and those of the entities, each
/// once, and the evidence comes first.
pub proof fn law_context_puts_evidence_first(
    evidence: Vec<String>,
    entity: Vec<String>,
    ids: Vec<String>,
)
    requires
        evidence@.len() + entity@.len() <= usize::MAX,
        call_ensures(graph_context_memory_ids, (&evidence, &entity), ids),
    ensures
        forall|id: Seq<char>| #[trigger]
            views(ids@).contains(id) <==> views(evidence@).contains(id) || views(entity@).contains(
                id,
            ),
        views(ids@).no_duplicates(),
        views(evidence@).no_duplicates() ==> views(evidence@).is_prefix_of(views(ids@)),
{
    let a = views(evidence@);
    let b = views(entity@);
    let cap = (a.len() + b.len()) as int;
    let none = Seq::<Seq<char>>::empty();
    lemma_with_all(none, a, cap);
    let first = with_all(none, a, cap);
    lemma_with_all(first, b, cap);
    assert(views(ids@) == united(a, b));
    if a.no_duplicates() {
        lemma_with_all_distinct(a, cap);
    }
}

proof fn lemma_with_all_distinct(texts: Seq<Seq<char>>, cap: int)
    requires
        texts.no_duplicates(),
        texts.len() <= cap,
    ensures
        with_all(Seq::empty(), texts, cap) == texts,
    decreases texts.len(),
{
    if texts.len() > 0 {
        let rest = texts.drop_last();
        lemma_with_all_distinct(rest, cap);
        if rest.contains(texts.last()) {
            let k = choose|k: int| 0 <= k < rest.len() && rest[k] == texts.last();
            assert(texts[k] == texts[texts.len() - 1]);
        }
        assert(rest.push(texts.last()) =~= texts);
    }
}

/// A context is told about the entity that is walked from, from as many memories and in
/// as many characters as it may be.
pub proof fn law_context_keeps_its_bounds(
    request: GraphContextRequest,
    space_exists: bool,
    seed: Option<EntityRecord>,
    rows: Vec<GraphRelationshipRecord>,
    entities: Vec<EntityRecord>,
    facts: ContextFacts,
    report: GraphContextReport,
)
    requires
        facts.memories@.len() < usize::MAX,
        call_ensures(
            graph_context,
            (&request, space_exists, seed, rows, &entities, facts),
            Ok::<GraphContextReport, Error>(report),
        ),
    ensures
        1 <= request.max_memories <= 50,
        1 <= request.max_chars <= 10_000,
        seed is Some && report.graph.seed == seed->0,
        report.pack@.title == "graph context: "@ + seed->0.entity_key@,
        report.pack@.format == "markdown"@,
        forall|id: Seq<char>| #[trigger]
            views(report.evidence_memory_ids@).contains(id) <==> is_evidence(
                report.graph.relationships@,
                id,
            ),
{
    lemma_evidence(report.graph.relationships@);
}

/// Whether an entity is among those in use.
pub open spec fn is_in_use(entities: Seq<ActiveEntity>, id: Seq<char>) -> bool {
    exists|k: int| 0 <= k < entities.len() && (#[trigger] entities[k]).id@ == id
}

/// Whether an entity has an edge to or from another one that is in use as it is itself.
pub open spec fn has_live_edge(
    entities: Seq<ActiveEntity>,
    edges: Seq<EntityEdge>,
    id: Seq<char>,
) -> bool {
    exists|k: int|
        0 <= k < edges.len() && ((#[trigger] edges[k]).subject_id@ == id || edges[k].object_id@
            == id) && is_in_use(entities, edges[k].subject_id@) && is_in_use(
            entities,
            edges[k].object_id@,
        )
}

proof fn lemma_key_of(entities: Seq<ActiveEntity>, id: Seq<char>)
    ensures
        crate::context::key_of(entities, id) is Some <==> is_in_use(entities, id),
    decreases entities.len(),
{
    if entities.len() > 0 {
        let rest = entities.drop_last();
        lemma_key_of(rest, id);
        if is_in_use(rest, id) {
            let k = choose|k: int| 0 <= k < rest.len() && (#[trigger] rest[k]).id@ == id;
            assert(entities[k].id@ == id);
        }
        if is_in_use(entities, id) {
            let k = choose|k: int| 0 <= k < entities.len() && (#[trigger] entities[k]).id@ == id;
            if k < rest.len() {
                assert(rest[k].id@ == id);
            }
        }
        assert(entities[entities.len() - 1] == entities.last());
    }
}

proof fn lemma_live(entities: Seq<ActiveEntity>, edges: Seq<EntityEdge>, id: Seq<char>)
    ensures
        crate::context::connected(
            live_edges(entities, crate::context::edge_models(edges)),
            id,
        ) <==> has_live_edge(entities, edges, id),
    decreases edges.len(),
{
    let models = crate::context::edge_models(edges);
    let live = live_edges(entities, models);
    if edges.len() > 0 {
        let rest = edges.drop_last();
        lemma_live(entities, rest, id);
        assert(models.drop_last() =~= crate::context::edge_models(rest));
        assert(models.last() == edges.last()@);
        lemma_key_of(entities, edges.last().subject_id@);
        lemma_key_of(entities, edges.last().object_id@);
        let before = live_edges(entities, crate::context::edge_models(rest));
        if crate::context::connected(before, id) {
            let i = choose|i: int|
                0 <= i < before.len() && crate::context::ends_at(#[trigger] before[i], id);
            assert(live[i] == before[i]);
        }
        if crate::context::connected(live, id) {
            let i = choose|i: int|
                0 <= i < live.len() && crate::context::ends_at(#[trigger] live[i], id);
            if i < before.len() {
                assert(before[i] == live[i]);
            } else {
                assert(edges[edges.len() - 1] == edges.last());
            }
        }
        if has_live_edge(entities, rest, id) {
            let k = choose|k: int|
                0 <= k < rest.len() && ((#[trigger] rest[k]).subject_id@ == id
                    || rest[k].object_id@ == id) && is_in_use(entities, rest[k].subject_id@)
                    && is_in_use(entities, rest[k].object_id@);
            assert(edges[k] == rest[k]);
        }
        if has_live_edge(entities, edges, id) {
            let k = choose|k: int|
                0 <= k < edges.len() && ((#[trigger] edges[k]).subject_id@ == id
                    || edges[k].object_id@ == id) && is_in_use(entities, edges[k].subject_id@)
                    && is_in_use(entities, edges[k].object_id@);
            if k < rest.len() {
                assert(rest[k] == edges[k]);
            } else {
                assert(live[before.len() as int] == edges.last()@);
            }
        }
    }
}

/// Whether a node of a graph stands for an entity.
pub open spec fn shows_entity(report: GraphFullReport, entity: ActiveEntity) -> bool {
    exists|n: int|
        0 <= n < report.nodes@.len() && (#[trigger] report.nodes@[n]).entity_key@
            == entity.entity_key@ && report.nodes@[n].canonical_name@ == entity.canonical_name@
}

proof fn lemma_nodes(entities: Seq<ActiveEntity>, edges: Seq<EntityEdgeModel>, k: int)
    requires
        0 <= k < entities.len(),
        crate::context::connected(edges, entities[k].id@),
    ensures
        crate::context::connected_nodes(entities, edges).contains(
            crate::context::node_of(entities[k], edges),
        ),
    decreases entities.len(),
{
    let rest = entities.drop_last();
    let before = crate::context::connected_nodes(rest, edges);
    let after = crate::context::connected_nodes(entities, edges);
    let node = crate::context::node_of(entities[k], edges);
    if k < rest.len() {
        lemma_nodes(rest, edges, k);
        let i = choose|i: int| 0 <= i < before.len() && before[i] == node;
        assert(after[i] == node);
    } else {
        assert(after[before.len() as int] == node);
    }
}

/// The whole graph shows every entity in use that has an edge to or from another one in
/// use.
pub proof fn law_full_graph_shows_the_connected(
    edges: Vec<EntityEdge>,
    entities: Vec<ActiveEntity>,
    report: GraphFullReport,
    k: int,
)
    requires
        crate::context::countable(crate::context::edge_models(edges@)),
        call_ensures(graph_full, (&edges, &entities), report),
        0 <= k < entities@.len(),
        has_live_edge(entities@, edges@, entities@[k].id@),
    ensures
        shows_entity(report, entities@[k]),
{
    let live = live_edges(entities@, crate::context::edge_models(edges@));
    lemma_live(entities@, edges@, entities@[k].id@);
    lemma_nodes(entities@, live, k);
    let nodes = crate::context::node_models(report.nodes@);
    let node = crate::context::node_of(entities@[k], live);
    let n = choose|n: int| 0 <= n < nodes.len() && nodes[n] == node;
    assert(report.nodes@[n].entity_key@ == entities@[k].entity_key@);
}

} // verus!
