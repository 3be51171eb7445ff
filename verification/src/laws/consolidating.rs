//! What a consolidation run promises of links, of the graph and as a whole.

use vstd::prelude::*;

use crate::consolidation::{
    dream_graph_diagnostics, dream_store, dream_store_tx, dream_tag_link_candidates, handled,
    link_row_fault, link_rows_fault, link_writes, pairs, relationship_confidence_from_evidence,
    tombstone_graph_rows, tombstone_sql, tombstones, unlinked, DreamGraphReport, DreamGraphRows,
    DreamReport, DreamRows, DreamRun, DreamTagLinkCandidate, GraphTable, GraphTombstone,
    LinkedPair, TagLinkRow, TagLinkWrite,
};
use crate::dream::{
    graph_scan_query, has_task, missing_entities_query, prepares, tag_link_query, DreamFacts,
    DreamRequest, GraphScan, PreparedDreamRequest,
};
use crate::error::Error;
use crate::json::text_of_string;
use crate::laws::dreaming::{at_most, names_text};
use crate::sql::{
    clause_values, conjunction, plain, value_models, ClauseModel, SqlModel, Statement,
};
use crate::text::{decimal, views};

verus! {

/// Whether two memories are linked, in one direction or the other.
pub open spec fn are_linked(linked: Seq<LinkedPair>, a: Seq<char>, b: Seq<char>) -> bool {
    exists|k: int|
        0 <= k < linked.len() && (((#[trigger] linked[k]).src@ == a && linked[k].dst@ == b) || (
        linked[k].src@ == b && linked[k].dst@ == a))
}

proof fn lemma_linked(linked: Seq<LinkedPair>, a: Seq<char>, b: Seq<char>)
    ensures
        crate::consolidation::is_linked(pairs(linked), a, b) <==> are_linked(linked, a, b),
{
    let all = pairs(linked);
    assert(all.len() == linked.len());
    if all.contains((a, b)) {
        let k = choose|k: int| 0 <= k < all.len() && all[k] == (a, b);
        assert(linked[k].src@ == a && linked[k].dst@ == b);
    }
    if all.contains((b, a)) {
        let k = choose|k: int| 0 <= k < all.len() && all[k] == (b, a);
        assert(linked[k].src@ == b && linked[k].dst@ == a);
    }
    if are_linked(linked, a, b) {
        let k = choose|k: int|
            0 <= k < linked.len() && (((#[trigger] linked[k]).src@ == a && linked[k].dst@ == b) || (
            linked[k].src@ == b && linked[k].dst@ == a));
        assert(all[k] == (linked[k].src@, linked[k].dst@));
    }
}

proof fn lemma_unlinked(rows: Seq<TagLinkRow>, linked: Seq<LinkedPair>) -> (places: Seq<int>)
    ensures
        places.len() == unlinked(rows, pairs(linked)).len(),
        forall|i: int|
            0 <= i < places.len() ==> 0 <= #[trigger] places[i] < rows.len() && unlinked(
                rows,
                pairs(linked),
            )[i] == rows[places[i]] && !are_linked(
                linked,
                rows[places[i]].src@,
                rows[places[i]].dst@,
            ),
        forall|k: int|
            0 <= k < rows.len() && !are_linked(linked, (#[trigger] rows[k]).src@, rows[k].dst@)
                ==> places.contains(k),
        forall|i: int, j: int|
            0 <= i < j < places.len() ==> #[trigger] places[i] < #[trigger] places[j],
    decreases rows.len(),
{
    if rows.len() == 0 {
        Seq::empty()
    } else {
        let rest = rows.drop_last();
        let last = rows.len() - 1;
        let before = lemma_unlinked(rest, linked);
        lemma_linked(linked, rows.last().src@, rows.last().dst@);
        let places = if are_linked(linked, rows.last().src@, rows.last().dst@) {
            before
        } else {
            before.push(last)
        };
        assert forall|i: int| 0 <= i < places.len() implies 0 <= #[trigger] places[i] < rows.len()
            && unlinked(rows, pairs(linked))[i] == rows[places[i]] && !are_linked(
            linked,
            rows[places[i]].src@,
            rows[places[i]].dst@,
        ) by {
            if i < before.len() {
                assert(places[i] == before[i]);
                assert(rest[before[i]] == rows[before[i]]);
            }
        }
        assert forall|k: int| 0 <= k < rows.len() && !are_linked(
            linked,
            (#[trigger] rows[k]).src@,
            rows[k].dst@,
        ) implies places.contains(k) by {
            if k < last {
                assert(rest[k] == rows[k]);
                assert(before.contains(k));
                let i = choose|i: int| 0 <= i < before.len() && before[i] == k;
                assert(places[i] == k);
            } else {
                assert(places[before.len() as int] == k);
            }
        }
        places
    }
}

/// Memories that share tags are to be linked where they are not linked in one direction
/// or the other, in the order in which they were found and as many as the run handles.
pub proof fn law_only_unlinked_memories_are_linked(
    prepared: PreparedDreamRequest,
    rows: Vec<TagLinkRow>,
    linked: Vec<LinkedPair>,
    list: Vec<DreamTagLinkCandidate>,
    truncated: bool,
) -> (places: Seq<int>)
    requires
        call_ensures(
            dream_tag_link_candidates,
            (&prepared, &rows, &linked),
            Ok::<(Vec<DreamTagLinkCandidate>, bool), Error>((list, truncated)),
        ),
    ensures
        list@.len() == at_most(places.len(), prepared.max_memories as nat),
        truncated <==> places.len() > prepared.max_memories,
        forall|i: int|
            0 <= i < places.len() ==> 0 <= #[trigger] places[i] < rows@.len() && !are_linked(
                linked@,
                rows@[places[i]].src@,
                rows@[places[i]].dst@,
            ),
        forall|k: int|
            0 <= k < rows@.len() && !are_linked(linked@, (#[trigger] rows@[k]).src@, rows@[k].dst@)
                ==> places.contains(k),
        forall|i: int, j: int|
            0 <= i < j < places.len() ==> #[trigger] places[i] < #[trigger] places[j],
        forall|i: int|
            0 <= i < list@.len() ==> (#[trigger] list@[i]).src@ == rows@[places[i]].src@
                && list@[i].dst@ == rows@[places[i]].dst@ && list@[i].shared_tags@.len()
                == rows@[places[i]].shared_tag_count,
{
    let places = lemma_unlinked(rows@, linked@);
    let left = unlinked(rows@, pairs(linked@));
    assert forall|i: int| 0 <= i < list@.len() implies (#[trigger] list@[i]).src@
        == rows@[places[i]].src@ && list@[i].dst@ == rows@[places[i]].dst@
        && list@[i].shared_tags@.len() == rows@[places[i]].shared_tag_count by {
        assert(left[i] == rows@[places[i]]);
        assert(handled(left, prepared.max_memories as nat)[i] == left[i]);
        lemma_row_ok(left, i);
        assert(views(list@[i].shared_tags@).len() == list@[i].shared_tags@.len());
    }
    places
}

proof fn lemma_row_ok(rows: Seq<TagLinkRow>, i: int)
    requires
        link_rows_fault(rows) is None,
        0 <= i < rows.len(),
    ensures
        link_row_fault(
            rows[i].shared_tag_count as nat,
            crate::json::json_texts(rows[i].shared_tags_json@),
        ) is None,
    decreases rows.len(),
{
    if i < rows.len() - 1 {
        lemma_row_ok(rows.drop_last(), i);
    }
}

/// A run that only reports links nothing. Another one links each pair, with the more
/// confidence the more tags they share: of two shared tags two thirds, of three three
/// quarters.
pub proof fn law_links_are_as_sure_as_shared_tags(
    prepared: PreparedDreamRequest,
    list: Vec<DreamTagLinkCandidate>,
    writes: Vec<TagLinkWrite>,
)
    requires
        call_ensures(link_writes, (&prepared, &list), writes),
    ensures
        prepared.dry_run ==> writes@.len() == 0,
        !prepared.dry_run ==> writes@.len() == list@.len(),
        forall|i: int|
            0 <= i < writes@.len() ==> {
                &&& (#[trigger] writes@[i]).src@ == list@[i].src@
                &&& writes@[i].dst@ == list@[i].dst@
                &&& writes@[i].confidence.1 == writes@[i].confidence.0 + 1
                &&& 1 <= list@[i].shared_tags@.len() <= u32::MAX ==> writes@[i].confidence.0
                    == list@[i].shared_tags@.len()
            },
        forall|n: usize, r: (u64, u64)| #[trigger]
            call_ensures(relationship_confidence_from_evidence, (n,), r) ==> r.1 == r.0 + 1 && (1
                <= n <= u32::MAX ==> r.0 == n) && r.0 >= 1,
{
    assert forall|i: int| 0 <= i < writes@.len() implies {
        &&& (#[trigger] writes@[i]).src@ == list@[i].src@
        &&& writes@[i].dst@ == list@[i].dst@
        &&& writes@[i].confidence.1 == writes@[i].confidence.0 + 1
        &&& 1 <= list@[i].shared_tags@.len() <= u32::MAX ==> writes@[i].confidence.0
            == list@[i].shared_tags@.len()
    } by {
        assert(views(list@[i].shared_tags@).len() == list@[i].shared_tags@.len());
    }
}

/// The graph task reports what was found, as much as the run handles, and says whether
/// there is more of anything.
pub proof fn law_graph_task_reports_what_was_found(
    prepared: PreparedDreamRequest,
    rows: DreamGraphRows,
    report: DreamGraphReport,
)
    requires
        call_ensures(dream_graph_diagnostics, (&prepared, rows), report),
    ensures
        report.attempted,
        report.orphan_entities == at_most(rows.orphans@.len(), prepared.max_memories as nat),
        report.dangling_relationships == at_most(
            rows.dangling@.len(),
            prepared.max_memories as nat,
        ),
        report.inactive_evidence_relationships == at_most(
            rows.inactive@.len(),
            prepared.max_memories as nat,
        ),
        forall|i: int|
            0 <= i < report.orphan_entities ==> #[trigger] report.orphan_entity_ids@[i]
                == rows.orphans@[i],
        forall|i: int|
            0 <= i < report.dangling_relationships ==> #[trigger] report.dangling_relationship_ids@[i]
                == rows.dangling@[i],
        forall|i: int|
            0 <= i < report.inactive_evidence_relationships
                ==> #[trigger] report.inactive_evidence_relationship_ids@[i] == rows.inactive@[i],
        forall|i: int|
            0 <= i < report.missing_entity_projections@.len()
                ==> #[trigger] report.missing_entity_projections@[i] == rows.missing@[i],
        forall|i: int|
            0 <= i < report.relationship_proposals@.len()
                ==> #[trigger] report.relationship_proposals@[i] == rows.proposals@[i],
        report.missing_entity_projections@.len() == at_most(
            rows.missing@.len(),
            prepared.max_memories as nat,
        ),
        report.relationship_proposals@.len() == at_most(
            rows.proposals@.len(),
            prepared.max_memories as nat,
        ),
        report.truncated <==> rows.missing@.len() > prepared.max_memories || rows.orphans@.len()
            > prepared.max_memories || rows.dangling@.len() > prepared.max_memories
            || rows.inactive@.len() > prepared.max_memories || rows.proposals@.len()
            > prepared.max_memories,
{
}

/// Whether a row of a table is taken out of use.
pub open spec fn is_tombstoned(
    list: Seq<GraphTombstone>,
    table: GraphTable,
    id: Seq<char>,
) -> bool {
    exists|k: int| 0 <= k < list.len() && (#[trigger] list[k]).table == table && list[k].id@ == id
}

/// A run that only reports takes nothing out of use. Another one takes out of use every
/// dangling relationship, every one without active evidence and every orphaned entity
/// that it reports, and nothing else.
pub proof fn law_graph_task_takes_the_broken_out_of_use(
    prepared: PreparedDreamRequest,
    report: DreamGraphReport,
    list: Vec<GraphTombstone>,
)
    requires
        call_ensures(tombstone_graph_rows, (&prepared, &report), list),
    ensures
        prepared.dry_run ==> list@.len() == 0,
        !prepared.dry_run ==> {
            &&& list@.len() == report.dangling_relationship_ids@.len()
                + report.inactive_evidence_relationship_ids@.len() + report.orphan_entity_ids@.len()
            &&& forall|i: int|
                0 <= i < report.dangling_relationship_ids@.len() ==> is_tombstoned(
                    list@,
                    GraphTable::Relationships,
                    (#[trigger] report.dangling_relationship_ids@[i])@,
                )
            &&& forall|i: int|
                0 <= i < report.inactive_evidence_relationship_ids@.len() ==> is_tombstoned(
                    list@,
                    GraphTable::Relationships,
                    (#[trigger] report.inactive_evidence_relationship_ids@[i])@,
                )
            &&& forall|i: int|
                0 <= i < report.orphan_entity_ids@.len() ==> is_tombstoned(
                    list@,
                    GraphTable::Entities,
                    (#[trigger] report.orphan_entity_ids@[i])@,
                )
        },
        forall|table: GraphTable, sql: &'static str| #[trigger]
            call_ensures(tombstone_sql, (table,), sql) ==> sql@ == if table
                == GraphTable::Relationships {
                "UPDATE relationships SET status = ?1, updated_at = ?2 WHERE id = ?3 AND status = 'active'"@
            } else {
                "UPDATE entities SET status = ?1, updated_at = ?2 WHERE id = ?3 AND status = 'active'"@
            },
{
    if !prepared.dry_run {
        let all = tombstones(list@);
        let a = views(report.dangling_relationship_ids@);
        let b = views(report.inactive_evidence_relationship_ids@);
        let c = views(report.orphan_entity_ids@);
        assert(a.len() == report.dangling_relationship_ids@.len());
        assert(b.len() == report.inactive_evidence_relationship_ids@.len());
        assert(c.len() == report.orphan_entity_ids@.len());
        assert(all.len() == list@.len());
        assert forall|i: int| 0 <= i < a.len() implies is_tombstoned(
            list@,
            GraphTable::Relationships,
            (#[trigger] report.dangling_relationship_ids@[i])@,
        ) by {
            assert(all[i] == (GraphTable::Relationships, a[i]));
            assert(list@[i].id@ == a[i]);
        }
        assert forall|i: int| 0 <= i < b.len() implies is_tombstoned(
            list@,
            GraphTable::Relationships,
            (#[trigger] report.inactive_evidence_relationship_ids@[i])@,
        ) by {
            assert(all[a.len() + i] == (GraphTable::Relationships, b[i]));
            assert(list@[a.len() + i].id@ == b[i]);
        }
        assert forall|i: int| 0 <= i < c.len() implies is_tombstoned(
            list@,
            GraphTable::Entities,
            (#[trigger] report.orphan_entity_ids@[i])@,
        ) by {
            assert(all[a.len() + b.len() + i] == (GraphTable::Entities, c[i]));
            assert(list@[a.len() + b.len() + i].id@ == c[i]);
        }
    }
}

/// Whether a run reports on a task exactly where it is among its tasks.
pub open spec fn keeps_to_tasks(prepared: PreparedDreamRequest, report: DreamReport) -> bool {
    &&& report.promote.attempted <==> names_text(prepared.tasks@, "promote"@)
    &&& report.expire.attempted <==> names_text(prepared.tasks@, "expire"@)
    &&& report.reindex.attempted <==> names_text(prepared.tasks@, "reindex"@)
    &&& report.dedupe.attempted <==> names_text(prepared.tasks@, "dedupe"@)
    &&& report.link.attempted <==> names_text(prepared.tasks@, "link"@)
    &&& report.graph.attempted <==> names_text(prepared.tasks@, "graph"@)
    &&& !report.promote.attempted ==> report.promote.promoted == 0
    &&& !report.expire.attempted ==> report.expire.expired == 0
    &&& !report.link.attempted ==> report.link.links_written == 0
    &&& !report.dedupe.attempted ==> report.dedupe.proposals@.len() == 0
}

proof fn lemma_has_task(prepared: PreparedDreamRequest, task: Seq<char>)
    ensures
        has_task(prepared, task) <==> names_text(prepared.tasks@, task),
{
    let all = views(prepared.tasks@);
    assert(all.len() == prepared.tasks@.len());
    if all.contains(task) {
        let k = choose|k: int| 0 <= k < all.len() && all[k] == task;
        assert(prepared.tasks@[k]@ == task);
    }
    if names_text(prepared.tasks@, task) {
        let k = choose|k: int|
            0 <= k < prepared.tasks@.len() && (#[trigger] prepared.tasks@[k])@ == task;
        assert(all[k] == task);
    }
}

proof fn lemma_keeps_to_tasks(
    prepared: PreparedDreamRequest,
    rows: DreamRows,
    run: DreamRun,
    report: DreamReport,
)
    requires
        crate::consolidation::reports_run(prepared, rows, run, report),
    ensures
        keeps_to_tasks(prepared, report),
{
    lemma_has_task(prepared, "promote"@);
    lemma_has_task(prepared, "expire"@);
    lemma_has_task(prepared, "reindex"@);
    lemma_has_task(prepared, "dedupe"@);
    lemma_has_task(prepared, "link"@);
    lemma_has_task(prepared, "graph"@);
}

/// A run does the tasks that it is asked for and no other, and says that it succeeded. A
/// run that only reports is not entered in the journal and writes no link.
pub proof fn law_run_does_its_tasks(
    prepared: PreparedDreamRequest,
    rows: DreamRows,
    run: DreamRun,
    report: DreamReport,
)
    requires
        call_ensures(
            dream_store_tx,
            (&prepared, rows, &run),
            Ok::<DreamReport, Error>(report),
        ),
    ensures
        keeps_to_tasks(prepared, report),
        report.status@ == "succeeded"@,
        report.run_id@ == run.run_id@,
        report.started_at@ == run.started_at@ && report.finished_at@ == run.finished_at@,
        report.journaled <==> !prepared.dry_run,
        report.dry_run == prepared.dry_run,
        prepared.dry_run ==> report.link.links_written == 0,
        report.link.attempted && !prepared.dry_run ==> report.link.links_written
            == report.link.candidates,
{
    lemma_keeps_to_tasks(prepared, rows, run, report);
}

/// A run of the store is that of the request: in its space and silos, with its tasks in
/// their order.
pub proof fn law_store_runs_what_is_asked_for(
    request: DreamRequest,
    facts: DreamFacts,
    rows: DreamRows,
    run: DreamRun,
    report: DreamReport,
) -> (prepared: PreparedDreamRequest)
    requires
        call_ensures(
            dream_store,
            (&request, &facts, rows, &run),
            Ok::<DreamReport, Error>(report),
        ),
    ensures
        keeps_to_tasks(prepared, report),
        views(prepared.tasks@) == crate::dream::normal_tasks(views(request.tasks@)),
        text_of_string(report.space) == text_of_string(request.space),
        views(report.silos@) == views(request.silos@),
        report.dry_run == request.dry_run,
        report.journaled <==> !request.dry_run,
        report.max_memories == request.max_memories,
        1 <= request.max_memories <= 10_000,
        request.promote_threshold >= 1 && request.promote_rank_cap >= 1,
        0 <= request.promote_score_floor.key <= 0x4000_0000_0000_0000,
        request.silos@.len() > 0 ==> request.space is Some,
        request.space is Some ==> facts.space_exists,
        report.status@ == "succeeded"@,
{
    let prepared = choose|prepared: PreparedDreamRequest| #[trigger]
        prepares(request, prepared) && crate::consolidation::dream_run_fault(prepared, rows) is None
            && crate::consolidation::reports_run(prepared, rows, run, report);
    lemma_keeps_to_tasks(prepared, rows, run, report);
    prepared
}

/// Whether a text looks for memories that share tags: for pairs that share at least two
/// tags which no more than twenty-five memories of the space have, and are not linked.
pub open spec fn is_link_search(
    text: Seq<char>,
    conditions: Seq<ClauseModel>,
    limit: nat,
) -> bool {
    text
        == "WITH scoped AS (\n    SELECT mt.memory_id AS mid, mt.tag AS tag, m.entity_key AS ek, m.space_name AS sp\n      FROM memory_tags mt\n      JOIN memories m ON m.id = mt.memory_id\n     WHERE "@
        + conjunction(conditions)
        + "\n),\ndisc AS (\n    SELECT sp, tag FROM scoped GROUP BY sp, tag HAVING COUNT(*) <= "@
        + decimal(25)
        + "\n),\ntagged AS (\n    SELECT scoped.mid, scoped.tag, scoped.ek, scoped.sp\n      FROM scoped\n      JOIN disc ON disc.sp = scoped.sp AND disc.tag = scoped.tag\n)\nSELECT t1.mid, t2.mid, COUNT(*), json_group_array(t1.tag)\n  FROM tagged t1\n  JOIN tagged t2 ON t1.tag = t2.tag AND t1.mid < t2.mid\n WHERE t1.ek <> t2.ek\n   AND t1.sp = t2.sp\n   AND NOT EXISTS (\n       SELECT 1 FROM memory_links existing\n        WHERE existing.link_type = 'related_to'\n          AND ((existing.src_memory_id = t1.mid AND existing.dst_memory_id = t2.mid)\n            OR (existing.src_memory_id = t2.mid AND existing.dst_memory_id = t1.mid))\n   )\n GROUP BY t1.mid, t2.mid\nHAVING COUNT(*) >= "@
        + decimal(2)
        + "\n ORDER BY COUNT(*) DESC, t1.mid ASC, t2.mid ASC\n LIMIT "@
        + decimal(limit)
}

/// Links are looked for among active memories with an entity, by tags that are neither
/// of a session or a proposal nor mere bookkeeping, in the scope of the run.
pub proof fn law_links_are_looked_for_by_topics(
    prepared: PreparedDreamRequest,
    statement: Statement,
) -> (conditions: Seq<ClauseModel>)
    requires
        call_ensures(tag_link_query, (&prepared,), statement),
        prepared.max_memories < usize::MAX,
    ensures
        is_link_search(statement.sql@, conditions, (prepared.max_memories + 1) as nat),
        value_models(statement.values@) == clause_values(conditions),
        conditions.len() >= 5,
        conditions[0] == plain("m.status = 'active'"@),
        conditions[1] == plain("m.entity_key IS NOT NULL AND TRIM(m.entity_key) <> ''"@),
        conditions[2] == plain("mt.tag NOT LIKE 'session:%'"@),
        conditions[3] == plain("mt.tag NOT LIKE 'proposal-kind-%'"@),
        conditions[4] == plain(
            "LOWER(mt.tag) NOT IN ('action', 'decision', 'summary', 'reference', 'fact', 'lesson', 'continuity', 'preference', 'task', 'status', 'done', 'resolved', 'review', 'commit', 'synthesis', 'synthesis-derived', 'built', 'implemented')"@,
        ),
        conditions.skip(5) == crate::dream::memory_filters(prepared),
{
    let conditions = crate::dream::link_scope(prepared);
    assert(conditions.skip(5) =~= crate::dream::memory_filters(prepared));
    assert(is_link_search(
        statement.sql@,
        conditions,
        (prepared.max_memories + 1) as nat,
    ));
    conditions
}

/// The condition that a row is in the space of a run, where it has one.
pub open spec fn in_space(column: Seq<char>, space: Option<String>) -> Seq<char> {
    match space {
        Some(_) => column + " = ?1"@,
        None => "1=1"@,
    }
}

/// Whether a text scans the graph: for active entities that neither an active memory nor
/// an active relationship mentions, for active relationships one end of which is gone or
/// not active, for active relationships whose evidence is gone or not active, and for
/// relationships that active links between active memories suggest.
pub open spec fn is_graph_scan(
    text: Seq<char>,
    scan: GraphScan,
    space: Option<String>,
    limit: nat,
) -> bool {
    text == match scan {
        GraphScan::Orphans => "SELECT e.id FROM entities e WHERE "@
            + in_space("e.space_name"@, space)
            + "\n  AND e.status = 'active'\n  AND NOT EXISTS (\n    SELECT 1 FROM memories m\n     WHERE m.space_name = e.space_name AND m.entity_key = e.entity_key AND m.status = 'active'\n  )\n  AND NOT EXISTS (\n    SELECT 1 FROM relationships r\n     WHERE r.space_name = e.space_name\n       AND (r.subject_entity_id = e.id OR r.object_entity_id = e.id)\n       AND r.status = 'active'\n  )\nORDER BY e.space_name ASC, e.entity_key ASC, e.id ASC\nLIMIT "@
            + decimal(limit),
        GraphScan::Dangling => "SELECT r.id\n  FROM relationships r\n  LEFT JOIN entities subject\n    ON subject.id = r.subject_entity_id AND subject.space_name = r.space_name\n  LEFT JOIN entities object\n    ON object.id = r.object_entity_id AND object.space_name = r.space_name\n WHERE "@
            + in_space("r.space_name"@, space)
            + "\n  AND (\n    subject.id IS NULL OR object.id IS NULL\n    OR subject.status != 'active' OR object.status != 'active'\n  )\n  AND r.status = 'active'\nORDER BY r.space_name ASC, r.id ASC\nLIMIT "@
            + decimal(limit),
        GraphScan::InactiveEvidence => "SELECT r.id\n  FROM relationships r\n  LEFT JOIN memories m\n    ON m.id = r.memory_id AND m.space_name = r.space_name\n WHERE "@
            + in_space("r.space_name"@, space)
            + "\n  AND r.memory_id IS NOT NULL\n  AND (m.id IS NULL OR m.status != 'active')\n  AND r.status = 'active'\nORDER BY r.space_name ASC, r.id ASC\nLIMIT "@
            + decimal(limit),
        GraphScan::Proposals => "SELECT src.space_name, MIN(l.src_memory_id), MIN(l.dst_memory_id), l.link_type,\n       src.entity_key, l.link_type, dst.entity_key, COUNT(*)\n  FROM memory_links l\n  JOIN memories src ON src.id = l.src_memory_id\n  JOIN memories dst ON dst.id = l.dst_memory_id\n  JOIN entities subject ON subject.space_name = src.space_name\n       AND subject.entity_key = src.entity_key\n       AND subject.status = 'active'\n  JOIN entities object ON object.space_name = dst.space_name\n       AND object.entity_key = dst.entity_key\n       AND object.status = 'active'\n  LEFT JOIN relationships existing ON existing.space_name = src.space_name\n       AND existing.subject_entity_id = subject.id\n       AND existing.relation_type = l.link_type\n       AND existing.object_entity_id = object.id\n       AND existing.status = 'active'\n WHERE l.status = 'active'\n   AND src.status = 'active'\n   AND dst.status = 'active'\n   AND src.space_name = dst.space_name\n   AND src.entity_key IS NOT NULL\n   AND TRIM(src.entity_key) <> ''\n   AND dst.entity_key IS NOT NULL\n   AND TRIM(dst.entity_key) <> ''\n   AND src.entity_key <> dst.entity_key\n   AND existing.id IS NULL\n   AND "@
            + in_space("src.space_name"@, space)
            + "\n GROUP BY src.space_name, src.entity_key, l.link_type, dst.entity_key\n ORDER BY src.space_name ASC, l.link_type ASC, src.entity_key ASC, dst.entity_key ASC\n LIMIT "@
            + decimal(limit),
    }
}

/// The graph is scanned for what is broken and for what is suggested, in the space of the
/// run.
pub proof fn law_graph_is_scanned_for_the_broken(
    prepared: PreparedDreamRequest,
    scan: GraphScan,
    statement: Statement,
)
    requires
        call_ensures(graph_scan_query, (&prepared, scan), statement),
        prepared.max_memories < usize::MAX,
    ensures
        is_graph_scan(
            statement.sql@,
            scan,
            prepared.space,
            (prepared.max_memories + 1) as nat,
        ),
        value_models(statement.values@) == match prepared.space {
            Some(space) => seq![SqlModel::Text(space@)],
            None => Seq::<SqlModel>::empty(),
        },
{
}

/// Whether a text looks for keys of entities that memories name and no entity has.
pub open spec fn is_missing_scan(
    text: Seq<char>,
    conditions: Seq<ClauseModel>,
    limit: nat,
) -> bool {
    text == "SELECT DISTINCT m.space_name, m.entity_key FROM memories m WHERE "@ + conjunction(
        conditions,
    ) + " ORDER BY m.space_name ASC, m.entity_key ASC LIMIT "@ + decimal(limit)
}

/// An entity is missing where an active memory in the scope of the run names it and its
/// space has none of that key.
pub proof fn law_missing_entities_are_named_by_memories(
    prepared: PreparedDreamRequest,
    statement: Statement,
) -> (conditions: Seq<ClauseModel>)
    requires
        call_ensures(missing_entities_query, (&prepared,), statement),
        prepared.max_memories < usize::MAX,
    ensures
        is_missing_scan(statement.sql@, conditions, (prepared.max_memories + 1) as nat),
        value_models(statement.values@) == clause_values(conditions),
        conditions.len() >= 4,
        conditions[0] == plain("m.status = 'active'"@),
        conditions[1] == plain("m.entity_key IS NOT NULL"@),
        conditions[2] == plain("TRIM(m.entity_key) <> ''"@),
        conditions[3] == plain(
            "NOT EXISTS (SELECT 1 FROM entities e WHERE e.space_name = m.space_name AND e.entity_key = m.entity_key)"@,
        ),
        conditions.skip(4) == crate::dream::memory_filters(prepared),
{
    let conditions = crate::dream::missing_clauses(prepared);
    assert(conditions.skip(4) =~= crate::dream::memory_filters(prepared));
    assert(is_missing_scan(
        statement.sql@,
        conditions,
        (prepared.max_memories + 1) as nat,
    ));
    conditions
}

} // verus!
