//! What spaces, figures about a store, late choices and imports promise.

use vstd::prelude::*;

use crate::error::{Error, Fault};
use crate::import::{
    cell, columns_fault, footer_fault, header_fault, import_column_type, import_tables_for_schema,
    insert_import_row, row_fault, table_models, ImportColumnType, ImportInsert, ImportModel,
    TableSpec,
};
use crate::json::text_of_string;
use crate::late::{compared_memories, late_choice};
use crate::laws::ordering::{lemma_key_order, lemma_sorting_names_each, names_each_once};
use crate::ranking::{sorting, Score};
use crate::records::{member, ImportJson};
use crate::search::PreparedSearchRequest;
use crate::spaces::{
    create_space, list_silos, list_spaces, seed_model, seed_standard_silos, silo_list_space,
    SiloListReport, SiloRecord, SiloSeed, SpaceCreatePlan, SpaceCreateRequest, SpaceListReport,
    SpaceRecord,
};
use crate::stats::{
    last_success, last_synthesis_run, status_totals, store_stats, store_stats_with_health,
    total_of, HealthStats, RunRecord, Stats, StatusCount, StatusTotals, StoreFacts,
};
use crate::text::{trimmed, views};

verus! {

/// A space is created exactly where there is none of its name; where there is one, it is
/// left as it is if that was asked for, and refused otherwise. A new space has the silo
/// that is asked for as its usual one, or the durable one.
pub proof fn law_spaces_are_created_once(
    request: SpaceCreateRequest,
    exists: bool,
    answer: Result<SpaceCreatePlan, Error>,
)
    requires
        call_ensures(create_space, (&request, exists), answer),
    ensures
        answer matches Ok(SpaceCreatePlan::Create(n)) ==> {
            &&& !exists
            &&& n.name@ == request.name@ && request.name@ != "*"@
            &&& n.default_silo@ == match request.default_silo {
                Some(silo) => silo@,
                None => "durable"@,
            }
            &&& text_of_string(n.display_name) == text_of_string(request.display_name)
            &&& text_of_string(n.description) == text_of_string(request.description)
        },
        answer matches Ok(SpaceCreatePlan::Existing(n)) ==> exists && request.if_not_exists
            && n.name@ == request.name@,
        exists && !request.if_not_exists ==> answer is Err,
        trimmed(request.name@) != request.name@ || request.name@.len() == 0 || request.name@
            == "*"@ || request.name@.len() > 256 ==> answer is Err,
{
}

/// A new space has a short-term silo that forgets in time and is for one session, and a
/// durable silo that keeps and is for the workspace; another silo that is to be the usual
/// one keeps too.
pub proof fn law_new_spaces_have_standard_silos(default_silo: &str, seeds: Vec<SiloSeed>)
    requires
        call_ensures(seed_standard_silos, (default_silo,), seeds),
    ensures
        seeds@.len() >= 2,
        seeds@[0].name@ == "short-term"@ && seeds@[0].retention_policy@ == "ttl"@
            && seeds@[0].default_scope@ == "session"@,
        seeds@[1].name@ == "durable"@ && seeds@[1].retention_policy@ == "keep"@
            && seeds@[1].default_scope@ == "workspace"@,
        seeds@.len() == if default_silo@ == "short-term"@ || default_silo@ == "durable"@ {
            2int
        } else {
            3int
        },
        seeds@.len() == 3 ==> seeds@[2].name@ == default_silo@ && seeds@[2].retention_policy@
            == "keep"@ && seeds@[2].default_scope@ == "workspace"@,
{
    let models = seeds@.map_values(|s: SiloSeed| seed_model(s));
    assert(models.len() == seeds@.len());
    assert(models == crate::spaces::seeds(default_silo@));
    assert(models[0] == seed_model(seeds@[0]) && models[1] == seed_model(seeds@[1]));
    if seeds@.len() == 3 {
        assert(models[2] == seed_model(seeds@[2]));
    }
}

/// Spaces are listed as they are stored, at most fifty of them, and silos at most a
/// hundred; a list says whether it was cut.
pub proof fn law_spaces_and_silos_are_listed(
    spaces: Vec<SpaceRecord>,
    listed: SpaceListReport,
    space: &str,
    silos: Option<Vec<SiloRecord>>,
    answer: Result<SiloListReport, Error>,
)
    requires
        call_ensures(list_spaces, (spaces,), listed),
        call_ensures(list_silos, (space, silos), answer),
    ensures
        listed.truncated <==> spaces@.len() > 50,
        listed.spaces@.len() == if spaces@.len() > 50 {
            50
        } else {
            spaces@.len() as int
        },
        forall|i: int|
            0 <= i < listed.spaces@.len() ==> #[trigger] listed.spaces@[i] == spaces@[i],
        answer is Ok <==> silos is Some,
        answer matches Ok(report) ==> {
            &&& report.space@ == space@
            &&& report.truncated <==> silos->0@.len() > 100
            &&& report.silos@.len() == if silos->0@.len() > 100 {
                100
            } else {
                silos->0@.len() as int
            }
            &&& forall|i: int|
                0 <= i < report.silos@.len() ==> #[trigger] report.silos@[i] == silos->0@[i]
        },
{
}

/// Silos are listed of the space that is named, or of the usual one.
pub proof fn law_silos_are_listed_of_one_space(space: Option<&str>, name: String)
    requires
        call_ensures(silo_list_space, (space,), Ok::<String, Error>(name)),
    ensures
        space matches Some(text) ==> name@ == text@,
        space is None ==> name@ == "workspace-memory"@,
{
}

/// Whether a count of a status is the last of its status.
pub open spec fn is_last_count(counts: Seq<StatusCount>, i: int, status: Seq<char>) -> bool {
    &&& 0 <= i < counts.len()
    &&& counts[i].status@ == status
    &&& forall|k: int| i < k < counts.len() ==> (#[trigger] counts[k]).status@ != status
}

proof fn lemma_total_of(counts: Seq<StatusCount>, status: Seq<char>)
    ensures
        forall|i: int| #[trigger]
            is_last_count(counts, i, status) ==> total_of(counts, status) == counts[i].total,
        (forall|i: int| 0 <= i < counts.len() ==> (#[trigger] counts[i]).status@ != status)
            ==> total_of(counts, status) == 0,
    decreases counts.len(),
{
    if counts.len() > 0 {
        let rest = counts.drop_last();
        lemma_total_of(rest, status);
        assert(counts[counts.len() - 1] == counts.last());
        assert forall|i: int| #[trigger] is_last_count(counts, i, status) implies total_of(
            counts,
            status,
        ) == counts[i].total by {
            if i < rest.len() {
                assert(counts[counts.len() - 1].status@ != status);
                assert forall|k: int| i < k < rest.len() implies (#[trigger] rest[k]).status@
                    != status by {
                    assert(rest[k] == counts[k]);
                }
                assert(is_last_count(rest, i, status));
            }
        }
        if forall|i: int| 0 <= i < counts.len() ==> (#[trigger] counts[i]).status@ != status {
            assert forall|i: int| 0 <= i < rest.len() implies (#[trigger] rest[i]).status@
                != status by {
                assert(rest[i] == counts[i]);
            }
        }
    }
}

/// The totals of a store tell for each status what was counted, and nothing where nothing
/// was.
pub proof fn law_totals_tell_each_status(counts: Vec<StatusCount>, totals: StatusTotals, i: int)
    requires
        call_ensures(status_totals, (&counts,), totals),
    ensures
        is_last_count(counts@, i, "active"@) ==> totals.active == counts@[i].total,
        is_last_count(counts@, i, "superseded"@) ==> totals.superseded == counts@[i].total,
        is_last_count(counts@, i, "conflicted"@) ==> totals.conflicted == counts@[i].total,
        is_last_count(counts@, i, "tombstoned"@) ==> totals.tombstoned == counts@[i].total,
        is_last_count(counts@, i, "expired"@) ==> totals.expired == counts@[i].total,
        counts@.len() == 0 ==> totals.active == 0 && totals.superseded == 0 && totals.conflicted
            == 0 && totals.tombstoned == 0 && totals.expired == 0,
{
    lemma_total_of(counts@, "active"@);
    lemma_total_of(counts@, "superseded"@);
    lemma_total_of(counts@, "conflicted"@);
    lemma_total_of(counts@, "tombstoned"@);
    lemma_total_of(counts@, "expired"@);
}

/// Figures are told of an initialized store only, as they were read; those of the indexes
/// where they are asked for, and those of its health where they were taken.
pub proof fn law_figures_are_told_as_read(
    facts: StoreFacts,
    include_indexes: bool,
    health: HealthStats,
    plain: Result<Stats, Error>,
    full: Result<Stats, Error>,
)
    requires
        call_ensures(store_stats, (facts, include_indexes), plain),
        call_ensures(store_stats_with_health, (facts, include_indexes, health), full),
    ensures
        plain is Ok <==> facts.protocol_version is Some,
        full is Ok <==> facts.protocol_version is Some,
        plain matches Ok(stats) ==> stats.health is None,
        full matches Ok(stats) ==> stats.health == Some(health),
        full matches Ok(stats) ==> {
            &&& stats.memory_count == facts.memory_count
            &&& stats.active_count == facts.active_count
            &&& stats.space_count == facts.space_count
            &&& stats.silo_count == facts.silo_count
            &&& stats.source_episode_count == facts.source_episode_count
            &&& stats.database_bytes == facts.database_bytes
            &&& stats.schema_version == facts.schema_version
            &&& stats.spaces == facts.spaces
            &&& stats.path == facts.path
            &&& stats.indexes is Some <==> include_indexes
        },
        plain matches Ok(stats) ==> stats.memory_count == facts.memory_count
            && stats.active_count == facts.active_count && stats.spaces == facts.spaces && (
        stats.indexes is Some <==> include_indexes),
{
}

proof fn lemma_last_success(runs: Seq<RunRecord>)
    ensures
        last_success(runs) is Some <==> exists|i: int|
            0 <= i < runs.len() && (#[trigger] runs[i]).status@ == "succeeded"@,
        last_success(runs) matches Some(at) ==> exists|i: int|
            0 <= i < runs.len() && (#[trigger] runs[i]).status@ == "succeeded"@
                && runs[i].started_at@ == at,
    decreases runs.len(),
{
    if runs.len() > 0 {
        let rest = runs.drop_last();
        lemma_last_success(rest);
        if exists|i: int| 0 <= i < rest.len() && (#[trigger] rest[i]).status@ == "succeeded"@ {
            let at = last_success(rest)->0;
            let i = choose|i: int|
                0 <= i < rest.len() && (#[trigger] rest[i]).status@ == "succeeded"@
                    && rest[i].started_at@ == at;
            assert(runs[i] == rest[i]);
        }
        if exists|i: int| 0 <= i < runs.len() && (#[trigger] runs[i]).status@ == "succeeded"@ {
            let i = choose|i: int|
                0 <= i < runs.len() && (#[trigger] runs[i]).status@ == "succeeded"@;
            if i < rest.len() {
                assert(rest[i] == runs[i]);
            }
        }
        assert(runs[runs.len() - 1] == runs.last());
    }
}

/// The last run is told exactly where some run succeeded; it is one that did.
pub proof fn law_last_run_succeeded(runs: Vec<RunRecord>, last: Option<String>)
    requires
        call_ensures(last_synthesis_run, (&runs,), last),
    ensures
        last is Some <==> exists|i: int|
            0 <= i < runs@.len() && (#[trigger] runs@[i]).status@ == "succeeded"@,
        last matches Some(at) ==> exists|i: int|
            0 <= i < runs@.len() && (#[trigger] runs@[i]).status@ == "succeeded"@
                && runs@[i].started_at@ == at@,
{
    lemma_last_success(runs@);
}

/// A late choice keeps the memories with the greatest scores, the greatest first, as many
/// as the page and what comes before it.
pub proof fn law_late_choice_keeps_the_best(
    p: PreparedSearchRequest,
    scored: Vec<(String, Score)>,
    chosen: Vec<String>,
) -> (places: Seq<int>)
    requires
        call_ensures(late_choice, (&p, &scored), chosen),
        p.limit + p.offset <= usize::MAX,
    ensures
        names_each_once(places, scored@.len()),
        chosen@.len() == if p.limit + p.offset < scored@.len() {
            p.limit + p.offset
        } else {
            scored@.len() as int
        },
        forall|i: int|
            0 <= i < chosen@.len() ==> (#[trigger] chosen@[i])@ == scored@[places[i]].0@,
        forall|i: int, j: int|
            0 <= i < j < scored@.len() ==> scored@[#[trigger] places[i]].1.key
                >= scored@[#[trigger] places[j]].1.key,
{
    let models = crate::expansion::activation_models(scored@);
    let keys = models.map_values(|e: (Seq<char>, Score)| crate::admissions::activation_key(e));
    let places = sorting(keys);
    lemma_sorting_names_each(keys);
    assert(models.len() == scored@.len());
    let ids = views(chosen@);
    assert(ids.len() == chosen@.len());
    assert forall|i: int| 0 <= i < chosen@.len() implies (#[trigger] chosen@[i])@
        == scored@[places[i]].0@ by {
        assert(ids[i] == chosen@[i]@);
        assert(models[places[i]].0 == scored@[places[i]].0@);
    }
    assert forall|i: int, j: int| 0 <= i < j < scored@.len() implies scored@[
    #[trigger] places[i]].1.key >= scored@[#[trigger] places[j]].1.key by {
        let a = places[i];
        let b = places[j];
        lemma_key_order(keys, a, b);
        assert(models[a].1 == scored@[a].1 && models[b].1 == scored@[b].1);
        assert(keys[a].numbers[0] == -scored@[a].1.key && keys[b].numbers[0]
            == -scored@[b].1.key);
    }
    places
}

/// Of what is compared late every memory is eligible.
pub proof fn law_late_comparison_is_among_eligible(
    p: PreparedSearchRequest,
    eligible: Vec<String>,
    nearest: Option<Vec<String>>,
    compared: Vec<String>,
    id: Seq<char>,
)
    requires
        call_ensures(compared_memories, (&p, eligible, &nearest), compared),
        views(compared@).contains(id),
    ensures
        views(eligible@).contains(id),
{
    let all = views(eligible@);
    let out = views(compared@);
    let k = choose|k: int| 0 <= k < out.len() && out[k] == id;
    let width = crate::statements::shortlist(p@, eligible@.len());
    if let (Some(w), Some(near)) = (width, nearest) {
        let list = views(near@);
        let among = |t: Seq<char>| all.contains(t);
        let kept = crate::late::those_among(list, all);
        assert(kept == list.filter(among));
        assert(out[k] == kept[k]);
        list.filter_lemma(among);
        assert(among(kept[k]));
    }
}

/// An archive is read in the present schema with all tables, in the one before without
/// the representations, and in no other.
pub proof fn law_archives_are_read_in_known_schemas(
    version: i32,
    known: Vec<TableSpec>,
    answer: Result<Vec<TableSpec>, Error>,
)
    requires
        call_ensures(import_tables_for_schema, (version, &known), answer),
    ensures
        answer is Ok <==> version == 6 || version == 5,
        version == 6 ==> table_models(answer->Ok_0@) == table_models(known@),
        version == 5 ==> forall|i: int|
            0 <= i < answer->Ok_0@.len() ==> (#[trigger] answer->Ok_0@[i]).name@
                != "memory_representations"@,
{
    if version == 5 {
        lemma_without(table_models(known@));
        let list = table_models(answer->Ok_0@);
        assert forall|i: int| 0 <= i < answer->Ok_0@.len() implies (
        #[trigger] answer->Ok_0@[i]).name@ != "memory_representations"@ by {
            assert(list[i].name == answer->Ok_0@[i].name@);
        }
    }
}

proof fn lemma_without(list: Seq<crate::import::TableModel>)
    ensures
        forall|i: int|
            0 <= i < crate::import::without_representations(list).len() ==> (
            #[trigger] crate::import::without_representations(list)[i]).name
                != "memory_representations"@,
    decreases list.len(),
{
    if list.len() > 0 {
        let before = crate::import::without_representations(list.drop_last());
        let after = crate::import::without_representations(list);
        lemma_without(list.drop_last());
        assert forall|i: int| 0 <= i < after.len() implies (#[trigger] after[i]).name
            != "memory_representations"@ by {
            if i < before.len() {
                assert(after[i] == before[i]);
            }
        }
    }
}

/// A row of an archive is accepted only between the header and the footer, of a table of
/// the archive that does not come before the last one, with exactly the columns of that
/// table.
pub proof fn law_rows_are_accepted_in_order(
    s: ImportModel,
    object: Seq<(String, ImportJson)>,
    line: nat,
)
    requires
        row_fault(s, object, line) is None,
    ensures
        s.header_seen && !s.footer_seen,
        crate::import::row_table(s, object, line) is Ok,
        s.current <= crate::import::row_table(s, object, line)->Ok_0,
        ({
            let table = s.tables[crate::import::row_table(s, object, line)->Ok_0];
            let data = crate::records::object_field(object, "data"@, line)->Ok_0;
            &&& data.len() == table.columns.len()
            &&& forall|i: int|
                0 <= i < table.columns.len() ==> member(data, #[trigger] table.columns[i]) is Some
        }),
{
    let table = s.tables[crate::import::row_table(s, object, line)->Ok_0];
    let data = crate::records::object_field(object, "data"@, line)->Ok_0;
    assert(columns_fault(table, data, line) is None);
}

/// A header is accepted once and first, and names the format and the protocol.
pub proof fn law_headers_come_first(s: ImportModel, object: Seq<(String, ImportJson)>, line: nat)
    requires
        header_fault(s, object, line) is None,
    ensures
        !s.header_seen && !s.footer_seen && s.row_count == 0,
        crate::records::text_field(object, "format"@, line) == Ok::<Seq<char>, Fault>(
            "memkeeper.export.v0.1"@,
        ),
        crate::records::text_field(object, "protocol_version"@, line) == Ok::<Seq<char>, Fault>(
            "memkeeper.v0.1"@,
        ),
{
}

/// A footer is accepted once, after the header, and only with the number of rows that
/// were read.
pub proof fn law_footers_count_the_rows(
    s: ImportModel,
    object: Seq<(String, ImportJson)>,
    line: nat,
)
    requires
        footer_fault(s, object, line) is None,
    ensures
        s.header_seen && !s.footer_seen,
        crate::records::integer_field(object, "row_count"@, line) is Ok,
        crate::records::integer_field(object, "row_count"@, line)->Ok_0 == s.row_count,
{
}

/// Numbers stand in the columns for numbers, vectors as bytes, and everything else as text.
pub proof fn law_columns_have_their_types(table: &str, column: &str, kind: ImportColumnType)
    requires
        call_ensures(import_column_type, (table, column), kind),
    ensures
        column@ == "pinned"@ || column@ == "version_num"@ || column@ == "chunk_index"@ || column@
            == "chunk_count"@ || column@ == "dimensions"@ ==> kind == ImportColumnType::Integer,
        kind == ImportColumnType::Real ==> column@ == "confidence"@,
        kind == ImportColumnType::Blob ==> table@ == "embeddings"@ && column@ == "vector_blob"@,
        column@ == "content"@ || column@ == "status"@ ==> kind == ImportColumnType::Text,
{
    lemma_column_names();
}

proof fn lemma_column_names()
    ensures
        "content"@.len() == 7 && "status"@.len() == 6 && "version"@.len() == 7,
        "chunk_index"@.len() == 11 && "chunk_count"@.len() == 11 && "version_num"@.len() == 11,
        "pinned"@.len() == 6 && "priority"@.len() == 8 && "attempts"@.len() == 8,
        "max_attempts"@.len() == 12 && "dimensions"@.len() == 10 && "confidence"@.len() == 10,
        "vector_blob"@.len() == 11,
        "content"@[0] == 'c' && "version"@[0] == 'v' && "status"@[0] == 's' && "pinned"@[0] == 'p',
{
    reveal_strlit("content");
    reveal_strlit("status");
    reveal_strlit("version");
    reveal_strlit("chunk_index");
    reveal_strlit("chunk_count");
    reveal_strlit("version_num");
    reveal_strlit("pinned");
    reveal_strlit("priority");
    reveal_strlit("attempts");
    reveal_strlit("max_attempts");
    reveal_strlit("dimensions");
    reveal_strlit("confidence");
    reveal_strlit("vector_blob");
}

/// The values of a row go into the columns of its table, in their order, each as it was
/// written.
pub proof fn law_rows_fill_their_columns(
    table: TableSpec,
    data: Vec<(String, ImportJson)>,
    line: usize,
    insert: ImportInsert,
    i: int,
)
    requires
        call_ensures(insert_import_row, (&table, &data, line), Ok::<ImportInsert, Error>(insert)),
        0 <= i < table.columns@.len(),
    ensures
        insert.values@.len() == table.columns@.len(),
        member(data@, table.columns@[i]@) is Some,
        cell(table.name@, table.columns@[i]@, member(data@, table.columns@[i]@)->0, line as nat)
            is Ok,
        insert.values@[i]@ == cell(
            table.name@,
            table.columns@[i]@,
            member(data@, table.columns@[i]@)->0,
            line as nat,
        )->Ok_0,
{
    let model = table@;
    assert(model.columns.len() == table.columns@.len());
    assert(model.columns[i] == table.columns@[i]@);
    let cells = crate::import::cell_models(insert.values@);
    assert(cells.len() == insert.values@.len());
    assert(cells[i] == insert.values@[i]@);
    assert(columns_fault(model, data@, line as nat) is None);
    lemma_cell_ok(model, data@, line as nat, model.columns.len(), i);
}

proof fn lemma_cell_ok(
    table: crate::import::TableModel,
    data: Seq<(String, ImportJson)>,
    line: nat,
    n: nat,
    i: int,
)
    requires
        crate::import::cells_fault(table, data, line, n) is None,
        0 <= i < n <= table.columns.len(),
    ensures
        cell(table.name, table.columns[i], member(data, table.columns[i])->0, line) is Ok,
    decreases n,
{
    if i < n - 1 {
        lemma_cell_ok(table, data, line, (n - 1) as nat, i);
    }
}

} // verus!
