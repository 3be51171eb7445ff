//! An exported archive imports as the same rows.

use vstd::prelude::*;

use crate::archive::{
    archive_text, complete, counted_rows, exported_counts, exported_names, ExportCell,
    ExportReport, ExportedTable, ImportReport,
};
use crate::digest::{sha256, text_digest};
use crate::hex::{
    hex_text, law_hex_reads_back, lemma_ascii_length, lemma_hex_is_ascii, lemma_hex_len,
};
use crate::import::{
    after_footer, after_record, after_row, blob, capped_sum, cell, cells_fault, column_type, columns_fault,
    consistent, counts_fault, footer_fields, header_fields, initial_state, rebuilt_tables,
    record_fault, report_models, row_cells, row_fault, row_fields, row_table, table_names,
    table_position, table_rows, total, CellModel, ImportColumnType, ImportModel, ParsedImportFile, TableModel,
};
use crate::records::{fits, lists_texts, member, object_field, unknown_field_fault, ImportJson};
use crate::vocabulary::{MAX_IMPORT_JSON_DEPTH, SCHEMA_VERSION};

verus! {

/// Whether an optional value is a given text.
pub open spec fn says(value: Option<ImportJson>, text: Seq<char>) -> bool {
    value matches Some(ImportJson::Text(t)) && t@ == text
}

/// Whether an object has no fields but the allowed ones.
pub open spec fn only_fields(object: Seq<(String, ImportJson)>, allowed: Seq<Seq<char>>) -> bool {
    forall|i: int| 0 <= i < object.len() ==> allowed.contains((#[trigger] object[i]).0@)
}

/// Whether a value is what a JSON reader makes of an exported value.
pub open spec fn stands_for_cell(value: ImportJson, exported: ExportCell) -> bool {
    match exported {
        ExportCell::Null => value is Null,
        ExportCell::Integer(n) => value == ImportJson::Integer(n),
        ExportCell::Real(Some(_)) => value is Real || value is Integer,
        ExportCell::Real(None) => value is Null,
        ExportCell::Text(text) => value matches ImportJson::Text(t) && t@ == text@,
        ExportCell::Blob(bytes) => value matches ImportJson::Object(object) && object@.len() == 1
            && says(member(object@, "$memkeeper_blob_hex"@), hex_text(bytes@)),
    }
}

/// Whether an imported value is the exported one. A floating-point number is read
/// from its text by the JSON reader.
pub open spec fn reads_as(exported: ExportCell, imported: CellModel) -> bool {
    match exported {
        ExportCell::Null => imported is Null,
        ExportCell::Integer(n) => imported == CellModel::Integer(n),
        ExportCell::Real(Some(_)) => imported is Real || imported is RealOfInteger,
        ExportCell::Real(None) => imported is Null,
        ExportCell::Text(text) => imported == CellModel::Text(text@),
        ExportCell::Blob(bytes) => imported == CellModel::Blob(bytes@),
    }
}

/// Whether a value is stored as its column is.
pub open spec fn suits(exported: ExportCell, stored: ImportColumnType) -> bool {
    match exported {
        ExportCell::Null => true,
        ExportCell::Integer(_) => stored is Integer,
        ExportCell::Real(Some(_)) => stored is Real,
        ExportCell::Real(None) => true,
        ExportCell::Text(_) => stored is Text,
        ExportCell::Blob(_) => stored is Blob,
    }
}

/// An exported value is read as the same value.
pub proof fn law_exported_value_reads_back(
    table: Seq<char>,
    column: Seq<char>,
    exported: ExportCell,
    value: ImportJson,
    line: nat,
)
    requires
        suits(exported, column_type(table, column)),
        stands_for_cell(value, exported),
    ensures
        cell(table, column, value, line) is Ok,
        reads_as(exported, cell(table, column, value, line)->Ok_0),
{
    match exported {
        ExportCell::Blob(bytes) => {
            law_hex_reads_back(bytes@);
            lemma_hex_is_ascii(bytes@);
            lemma_ascii_length(hex_text(bytes@));
            lemma_hex_len(bytes@);
            assert(blob(hex_text(bytes@), line) == Ok::<Seq<u8>, crate::error::Fault>(bytes@));
        },
        _ => {},
    }
}

/// Whether a value is what a JSON reader makes of an exported header.
pub open spec fn stands_for_header(
    value: ImportJson,
    schema_version: int,
    names: Seq<Seq<char>>,
) -> bool {
    &&& value is Object
    &&& fits(value, MAX_IMPORT_JSON_DEPTH as nat)
    &&& ({
        let object = value->Object_0@;
        &&& only_fields(object, header_fields())
        &&& says(member(object, "type"@), "header"@)
        &&& says(member(object, "format"@), "memkeeper.export.v0.1"@)
        &&& says(member(object, "protocol_version"@), "memkeeper.v0.1"@)
        &&& member(object, "schema_version"@) matches Some(ImportJson::Integer(n)) && n
            == schema_version
        &&& member(object, "tables"@) matches Some(ImportJson::Array(list)) && lists_texts(
            list@,
            names,
        )
        &&& member(object, "rebuildable_omitted"@) matches Some(ImportJson::Array(list))
            && lists_texts(list@, rebuilt_tables())
    })
}

/// Whether a value is what a JSON reader makes of an exported row.
pub open spec fn stands_for_row(value: ImportJson, table: TableModel, cells: Seq<ExportCell>) -> bool {
    &&& value is Object
    &&& fits(value, MAX_IMPORT_JSON_DEPTH as nat)
    &&& ({
        let object = value->Object_0@;
        &&& only_fields(object, row_fields())
        &&& says(member(object, "type"@), "row"@)
        &&& says(member(object, "table"@), table.name)
        &&& member(object, "data"@) matches Some(ImportJson::Object(data)) && data@.len()
            == table.columns.len() && forall|i: int|
            0 <= i < table.columns.len() ==> member(data@, #[trigger] table.columns[i]) is Some
                && stands_for_cell(member(data@, table.columns[i])->0, cells[i])
    })
}

/// Whether a value is what a JSON reader makes of an exported footer.
pub open spec fn stands_for_footer(
    value: ImportJson,
    row_count: int,
    counts: Seq<(Seq<char>, u64)>,
) -> bool {
    &&& value is Object
    &&& fits(value, MAX_IMPORT_JSON_DEPTH as nat)
    &&& ({
        let object = value->Object_0@;
        &&& only_fields(object, footer_fields())
        &&& says(member(object, "type"@), "footer"@)
        &&& member(object, "row_count"@) matches Some(ImportJson::Integer(n)) && n == row_count
        &&& member(object, "table_counts"@) matches Some(ImportJson::Object(list)) && list@.len()
            == counts.len() && forall|i: int|
            0 <= i < counts.len() ==> (member(list@, (#[trigger] counts[i]).0) matches Some(
                ImportJson::Integer(n),
            ) && n == counts[i].1)
    })
}

proof fn lemma_only_fields(object: Seq<(String, ImportJson)>, allowed: Seq<Seq<char>>, line: nat)
    requires
        only_fields(object, allowed),
    ensures
        unknown_field_fault(object, allowed, line) is None,
    decreases object.len(),
{
    if object.len() > 0 {
        let rest = object.skip(1);
        assert(allowed.contains(object[0].0@));
        assert forall|i: int| 0 <= i < rest.len() implies allowed.contains(
            (#[trigger] rest[i]).0@,
        ) by {
            assert(rest[i] == object[i + 1]);
        }
        lemma_only_fields(rest, allowed, line);
    }
}

/// An exported header is accepted as the first record, and announces the tables.
pub proof fn law_exported_header_is_accepted(
    known: Seq<TableModel>,
    value: ImportJson,
    line: nat,
)
    requires
        stands_for_header(value, SCHEMA_VERSION as int, table_names(known)),
    ensures
        ({
            let s = initial_state(known);
            let after = after_record(s, value, line);
            &&& record_fault(s, value, line) is None
            &&& after.header_seen && !after.footer_seen
            &&& after.tables == known
            &&& after.current == 0
            &&& after.row_count == 0
            &&& after.schema_version == SCHEMA_VERSION
            &&& after.counts == Seq::new(known.len(), |i: int| 0u64)
        }),
{
    let object = value->Object_0@;
    lemma_only_fields(object, header_fields(), line);
}

proof fn lemma_no_cells_fault(
    table: TableModel,
    data: Seq<(String, ImportJson)>,
    cells: Seq<ExportCell>,
    line: nat,
    n: nat,
)
    requires
        n <= table.columns.len(),
        forall|i: int|
            0 <= i < table.columns.len() ==> member(data, #[trigger] table.columns[i]) is Some
                && stands_for_cell(member(data, table.columns[i])->0, cells[i]),
        forall|i: int|
            0 <= i < table.columns.len() ==> suits(
                cells[i],
                column_type(table.name, #[trigger] table.columns[i]),
            ),
    ensures
        cells_fault(table, data, line, n) is None,
    decreases n,
{
    if n > 0 {
        lemma_no_cells_fault(table, data, cells, line, (n - 1) as nat);
        let column = table.columns[n - 1];
        law_exported_value_reads_back(
            table.name,
            column,
            cells[n - 1],
            member(data, column)->0,
            line,
        );
    }
}

/// An exported row of a table is accepted after rows of tables up to that one,
/// and is read as the same row.
pub proof fn law_exported_row_is_accepted(
    s: ImportModel,
    i: int,
    cells: Seq<ExportCell>,
    value: ImportJson,
    line: nat,
)
    requires
        s.header_seen && !s.footer_seen,
        0 <= i < s.tables.len(),
        s.current <= i,
        table_position(s.tables, s.tables[i].name) == Some(i),
        cells.len() == s.tables[i].columns.len(),
        forall|k: int|
            0 <= k < cells.len() ==> suits(
                cells[k],
                column_type(s.tables[i].name, #[trigger] s.tables[i].columns[k]),
            ),
        stands_for_row(value, s.tables[i], cells),
    ensures
        record_fault(s, value, line) is None,
        after_record(s, value, line) == after_row(s, i),
        ({
            let data = object_field(value->Object_0@, "data"@, line)->Ok_0;
            let read = row_cells(s.tables[i], data, line);
            &&& read.len() == cells.len()
            &&& forall|k: int| 0 <= k < cells.len() ==> reads_as(cells[k], #[trigger] read[k])
        }),
{
    let object = value->Object_0@;
    let table = s.tables[i];
    lemma_only_fields(object, row_fields(), line);
    let data = member(object, "data"@)->0->Object_0@;
    lemma_no_cells_fault(table, data, cells, line, table.columns.len());
    reveal_strlit("header");
    reveal_strlit("row");
    assert("header"@.len() != "row"@.len());
    assert(columns_fault(table, data, line) is None);
    assert(row_table(s, object, line) == Ok::<int, crate::error::Fault>(i));
    assert(object_field(object, "data"@, line) == Ok::<
        Seq<(String, ImportJson)>,
        crate::error::Fault,
    >(data));
    assert(row_fault(s, object, line) is None);
    let read = row_cells(table, data, line);
    assert forall|k: int| 0 <= k < cells.len() implies reads_as(cells[k], #[trigger] read[k]) by {
        law_exported_value_reads_back(
            table.name,
            table.columns[k],
            cells[k],
            member(data, table.columns[k])->0,
            line,
        );
    }
}

proof fn lemma_no_counts_fault(
    s: ImportModel,
    object: Seq<(String, ImportJson)>,
    line: nat,
    n: nat,
)
    requires
        n <= s.tables.len(),
        s.counts.len() == s.tables.len(),
        forall|i: int|
            0 <= i < s.tables.len() ==> (member(object, (#[trigger] s.tables[i]).name) matches Some(
                ImportJson::Integer(c),
            ) && c == s.counts[i]),
    ensures
        counts_fault(s, object, line, n) is None,
    decreases n,
{
    if n > 0 {
        lemma_no_counts_fault(s, object, line, (n - 1) as nat);
        assert(s.tables[n - 1] == s.tables[n - 1]);
    }
}

/// An exported footer with the counts of the rows that were read is accepted.
pub proof fn law_exported_footer_is_accepted(s: ImportModel, value: ImportJson, line: nat)
    requires
        consistent(s),
        s.header_seen && !s.footer_seen,
        stands_for_footer(value, s.row_count as int, table_rows(s)),
    ensures
        record_fault(s, value, line) is None,
        after_record(s, value, line) == after_footer(s),
{
    let object = value->Object_0@;
    lemma_only_fields(object, footer_fields(), line);
    let list = member(object, "table_counts"@)->0->Object_0@;
    let counts = table_rows(s);
    assert forall|i: int| 0 <= i < s.tables.len() implies (member(
        list,
        (#[trigger] s.tables[i]).name,
    ) matches Some(ImportJson::Integer(c)) && c == s.counts[i]) by {
        assert(counts[i] == (s.tables[i].name, s.counts[i]));
    }
    lemma_no_counts_fault(s, list, line, s.tables.len());
    reveal_strlit("header");
    reveal_strlit("row");
    reveal_strlit("footer");
    assert("header"@[0] != "footer"@[0]);
    assert("row"@.len() != "footer"@.len());
}

/// The state after reading records, where none is refused; the first record is on
/// the first line.
pub open spec fn read_all(s: ImportModel, values: Seq<ImportJson>) -> Option<ImportModel>
    decreases values.len(),
{
    if values.len() == 0 {
        Some(s)
    } else {
        match read_all(s, values.drop_last()) {
            None => None,
            Some(before) => if record_fault(before, values.last(), values.len()) is None {
                Some(after_record(before, values.last(), values.len()))
            } else {
                None
            },
        }
    }
}

/// The number of rows of the first `n` tables.
pub open spec fn offset(tables: Seq<ExportedTable>, n: nat) -> nat
    decreases n,
{
    if n == 0 {
        0
    } else {
        offset(tables, (n - 1) as nat) + tables[n - 1].rows@.len()
    }
}

/// The models of exported tables.
pub open spec fn models_of(tables: Seq<ExportedTable>) -> Seq<TableModel> {
    tables.map_values(|t: ExportedTable| t.table@)
}

/// Whether no two tables have the same name.
pub open spec fn distinct_names(tables: Seq<TableModel>) -> bool {
    forall|i: int, j: int|
        0 <= i < j < tables.len() ==> (#[trigger] tables[i]).name != (#[trigger] tables[j]).name
}

/// Whether every value is stored as its column is.
pub open spec fn well_typed(tables: Seq<ExportedTable>) -> bool {
    forall|m: int, j: int, k: int|
        0 <= m < tables.len() && 0 <= j < tables[m].rows@.len() && 0 <= k
            < tables[m].table.columns@.len() ==> suits(
            #[trigger] tables[m].rows@[j]@[k],
            column_type(tables[m].table.name@, tables[m].table.columns@[k]@),
        )
}

/// Whether values are what a JSON reader makes of the lines of an exported
/// archive: the header, the rows table by table, and the footer.
pub open spec fn stands_for_archive(values: Seq<ImportJson>, tables: Seq<ExportedTable>) -> bool {
    let n = tables.len();
    &&& values.len() == offset(tables, n) + 2
    &&& stands_for_header(values[0], SCHEMA_VERSION as int, exported_names(tables))
    &&& forall|m: int, j: int|
        0 <= m < n && 0 <= j < tables[m].rows@.len() ==> stands_for_row(
            values[1 + offset(tables, m as nat) + j],
            tables[m].table@,
            #[trigger] tables[m].rows@[j]@,
        )
    &&& stands_for_footer(values.last(), offset(tables, n) as int, exported_counts(tables))
}

/// The counts after all rows of the first `m` tables and `j` rows of the next one.
pub open spec fn counts_up_to(tables: Seq<ExportedTable>, m: nat, j: nat) -> Seq<u64> {
    Seq::new(
        tables.len(),
        |t: int|
            if t < m {
                tables[t].rows@.len() as u64
            } else if t == m {
                j as u64
            } else {
                0u64
            },
    )
}

/// Whether a state is that after all rows of the first `m` tables and `j` rows of
/// the next one.
pub open spec fn read_up_to(s: ImportModel, tables: Seq<ExportedTable>, m: nat, j: nat) -> bool {
    &&& consistent(s)
    &&& s.header_seen && !s.footer_seen
    &&& s.tables == models_of(tables)
    &&& s.current <= m
    &&& s.schema_version == SCHEMA_VERSION
    &&& s.row_count == offset(tables, m) + j
    &&& s.counts == counts_up_to(tables, m, j)
}

proof fn lemma_offset_monotonic(tables: Seq<ExportedTable>, a: nat, b: nat)
    requires
        a <= b,
    ensures
        offset(tables, a) <= offset(tables, b),
    decreases b,
{
    if a < b {
        lemma_offset_monotonic(tables, a, (b - 1) as nat);
    }
}

proof fn lemma_position_of(tables: Seq<TableModel>, i: int)
    requires
        distinct_names(tables),
        0 <= i < tables.len(),
    ensures
        table_position(tables, tables[i].name) == Some(i),
    decreases tables.len(),
{
    let rest = tables.drop_last();
    assert(distinct_names(rest)) by {
        assert forall|a: int, b: int| 0 <= a < b < rest.len() implies (#[trigger] rest[a]).name != (
        #[trigger] rest[b]).name by {
            assert(rest[a] == tables[a] && rest[b] == tables[b]);
        }
    }
    if i < tables.len() - 1 {
        lemma_position_of(rest, i);
        assert(rest[i] == tables[i]);
    } else {
        crate::import::lemma_table_found(rest, tables[i].name);
        match table_position(rest, tables[i].name) {
            Some(k) => {
                assert(rest[k] == tables[k]);
                assert(tables[k].name != tables[i].name);
            },
            None => {},
        }
    }
}

proof fn lemma_total_of_zeros(n: nat)
    ensures
        total(Seq::new(n, |i: int| 0u64)) == 0,
    decreases n,
{
    if n > 0 {
        let counts = Seq::new(n, |i: int| 0u64);
        assert(counts.drop_last() =~= Seq::new((n - 1) as nat, |i: int| 0u64));
        lemma_total_of_zeros((n - 1) as nat);
    }
}

/// What is asked of an archive.
pub open spec fn exportable(tables: Seq<ExportedTable>) -> bool {
    &&& distinct_names(models_of(tables))
    &&& complete(tables)
    &&& well_typed(tables)
    &&& offset(tables, tables.len()) <= i64::MAX
}

#[verifier::spinoff_prover]
proof fn lemma_read_row(
    tables: Seq<ExportedTable>,
    before: ImportModel,
    value: ImportJson,
    line: nat,
    m: nat,
    j: nat,
)
    requires
        exportable(tables),
        m < tables.len(),
        0 < j <= tables[m as int].rows@.len(),
        read_up_to(before, tables, m, (j - 1) as nat),
        stands_for_row(value, tables[m as int].table@, tables[m as int].rows@[j - 1]@),
    ensures
        record_fault(before, value, line) is None,
        read_up_to(after_record(before, value, line), tables, m, j),
{
    let row = tables[m as int].rows@[j - 1]@;
    let models = models_of(tables);
    lemma_offset_monotonic(tables, m + 1, tables.len());
    assert(before.tables[m as int] == tables[m as int].table@);
    lemma_position_of(models, m as int);
    assert(tables[m as int].rows@[j - 1]@.len() == tables[m as int].table.columns@.len());
    assert forall|k: int| 0 <= k < row.len() implies suits(
        row[k],
        column_type(before.tables[m as int].name, #[trigger] before.tables[m as int].columns[k]),
    ) by {
        assert(suits(
            tables[m as int].rows@[j - 1]@[k],
            column_type(tables[m as int].table.name@, tables[m as int].table.columns@[k]@),
        ));
    }
    law_exported_row_is_accepted(before, m as int, row, value, line);
    let s = after_row(before, m as int);
    crate::import::lemma_row_keeps(before, m as int);
    assert(before.counts[m as int] == (j - 1) as u64);
    assert(s.counts =~= counts_up_to(tables, m, j));
}

#[verifier::spinoff_prover]
proof fn lemma_read_header(tables: Seq<ExportedTable>, value: ImportJson)
    requires
        stands_for_header(value, SCHEMA_VERSION as int, exported_names(tables)),
    ensures
        record_fault(initial_state(models_of(tables)), value, 1) is None,
        read_up_to(after_record(initial_state(models_of(tables)), value, 1), tables, 0, 0),
{
    let models = models_of(tables);
    assert(exported_names(tables) =~= table_names(models));
    law_exported_header_is_accepted(models, value, 1);
    let s = after_record(initial_state(models), value, 1);
    lemma_total_of_zeros(tables.len());
    assert(s.counts =~= counts_up_to(tables, 0, 0));
}

proof fn lemma_next_table(s: ImportModel, tables: Seq<ExportedTable>, m: nat)
    requires
        m < tables.len(),
        read_up_to(s, tables, m, tables[m as int].rows@.len()),
    ensures
        read_up_to(s, tables, m + 1, 0),
{
    assert(s.counts =~= counts_up_to(tables, m + 1, 0));
}

proof fn lemma_read_prefix(
    tables: Seq<ExportedTable>,
    values: Seq<ImportJson>,
    m: nat,
    j: nat,
) -> (s: ImportModel)
    requires
        exportable(tables),
        stands_for_archive(values, tables),
        m <= tables.len(),
        m < tables.len() ==> j <= tables[m as int].rows@.len(),
        m == tables.len() ==> j == 0,
    ensures
        read_all(
            initial_state(models_of(tables)),
            values.take((1 + offset(tables, m) + j) as int),
        ) == Some(s),
        read_up_to(s, tables, m, j),
    decreases m, j,
{
    let n = tables.len();
    lemma_offset_monotonic(tables, m, n);
    if j > 0 {
        lemma_offset_monotonic(tables, m + 1, n);
        let before = lemma_read_prefix(tables, values, m, (j - 1) as nat);
        let at = 1 + offset(tables, m) + j;
        let seen = values.take(at as int);
        let value = values[at - 1];
        assert(seen.drop_last() =~= values.take((1 + offset(tables, m) + (j - 1)) as int));
        assert(seen.last() == value);
        assert(stands_for_row(
            values[1 + offset(tables, m) + (j - 1)],
            tables[m as int].table@,
            tables[m as int].rows@[j - 1]@,
        ));
        lemma_read_row(tables, before, value, at, m, j);
        after_record(before, value, at)
    } else if m > 0 {
        let last = tables[m - 1].rows@.len();
        let s = lemma_read_prefix(tables, values, (m - 1) as nat, last);
        assert(offset(tables, m) == offset(tables, (m - 1) as nat) + last);
        lemma_next_table(s, tables, (m - 1) as nat);
        s
    } else {
        let seen = values.take(1);
        assert(seen.drop_last() =~= Seq::empty());
        assert(seen.last() == values[0]);
        assert(read_all(initial_state(models_of(tables)), seen.drop_last()) == Some(
            initial_state(models_of(tables)),
        ));
        lemma_read_header(tables, values[0]);
        after_record(initial_state(models_of(tables)), values[0], 1)
    }
}

/// An exported archive is read without fault to its end, with the same number of
/// rows in each table. (That each row is read as the same row, see
/// [`law_exported_row_is_accepted`].) A number of rows that no footer can hold is
/// left out.
pub proof fn law_exported_archive_imports(tables: Seq<ExportedTable>, values: Seq<ImportJson>)
    requires
        exportable(tables),
        stands_for_archive(values, tables),
    ensures
        ({
            let end = read_all(initial_state(models_of(tables)), values);
            &&& end is Some
            &&& end->0.footer_seen
            &&& end->0.schema_version == SCHEMA_VERSION
            &&& end->0.row_count == offset(tables, tables.len())
            &&& table_rows(end->0) == exported_counts(tables)
        }),
{
    let n = tables.len();
    let s = lemma_read_prefix(tables, values, n, 0);
    let seen = values.drop_last();
    assert(seen =~= values.take((1 + offset(tables, n)) as int));
    assert(table_rows(s) =~= exported_counts(tables));
    law_exported_footer_is_accepted(s, values.last(), values.len());
    assert(table_rows(after_footer(s)) =~= exported_counts(tables));
}

/// The bytes of lines that were read one after the other.
pub open spec fn read_bytes(lines: Seq<Seq<u8>>) -> Seq<u8>
    decreases lines.len(),
{
    if lines.len() == 0 {
        Seq::empty()
    } else {
        read_bytes(lines.drop_last()) + lines.last()
    }
}

/// How many bytes a reader counts on such lines.
pub open spec fn counted_bytes(lines: Seq<Seq<u8>>) -> int
    decreases lines.len(),
{
    if lines.len() == 0 {
        0
    } else {
        capped_sum(counted_bytes(lines.drop_last()), lines.last().len() as int)
    }
}

proof fn lemma_counted_bytes(lines: Seq<Seq<u8>>)
    ensures
        counted_bytes(lines) == capped_sum(0, read_bytes(lines).len() as int),
    decreases lines.len(),
{
    if lines.len() > 0 {
        lemma_counted_bytes(lines.drop_last());
    }
}

/// An import of an exported archive reports the digest and the number of bytes that
/// the export reported, however the archive falls into lines.
pub proof fn law_imported_archive_has_same_digest(
    text: Seq<char>,
    lines: Seq<Seq<u8>>,
    export: ExportReport,
    import: ParsedImportFile,
)
    requires
        export.bytes == vstd::utf8::encode_utf8(text).len(),
        export.sha256@ == text_digest(text),
        read_bytes(lines) == vstd::utf8::encode_utf8(text),
        import.bytes == counted_bytes(lines),
        import.sha256@ == hex_text(sha256(read_bytes(lines))),
    ensures
        import.bytes == export.bytes,
        import.sha256@ == export.sha256@,
{
    lemma_counted_bytes(lines);
}

/// Whether a report is that of an export of tables.
pub open spec fn reports_export(report: ExportReport, tables: Seq<ExportedTable>) -> bool {
    let text = archive_text(SCHEMA_VERSION as int, tables);
    &&& report.schema_version == SCHEMA_VERSION
    &&& report_models(report.tables@) == exported_counts(tables)
    &&& report.row_count == counted_rows(tables, tables.len())
    &&& report.bytes == vstd::utf8::encode_utf8(text).len()
    &&& report.sha256@ == text_digest(text)
}

/// Whether a report is that of reading lines up to a state.
pub open spec fn reports_import(
    report: ParsedImportFile,
    lines: Seq<Seq<u8>>,
    end: ImportModel,
) -> bool {
    &&& report.schema_version == end.schema_version
    &&& report_models(report.tables@) == table_rows(end)
    &&& report.row_count == end.row_count
    &&& report.bytes == counted_bytes(lines)
    &&& report.sha256@ == hex_text(sha256(read_bytes(lines)))
}

/// Whether the report of an import passes on what was read.
pub open spec fn passes_on(report: ImportReport, parsed: ParsedImportFile) -> bool {
    &&& report.schema_version == parsed.schema_version
    &&& report.tables == parsed.tables
    &&& report.row_count == parsed.row_count
    &&& report.bytes == parsed.bytes
    &&& report.sha256 == parsed.sha256
}

/// The sum of the rows of tables.
pub open spec fn sum_of_rows(tables: Seq<(Seq<char>, u64)>) -> int
    decreases tables.len(),
{
    if tables.len() == 0 {
        0
    } else {
        sum_of_rows(tables.drop_last()) + tables.last().1
    }
}

proof fn lemma_sums(tables: Seq<ExportedTable>, n: nat)
    requires
        n <= tables.len(),
        offset(tables, tables.len()) <= i64::MAX,
    ensures
        counted_rows(tables, n) == offset(tables, n),
        sum_of_rows(exported_counts(tables).take(n as int)) == offset(tables, n),
    decreases n,
{
    lemma_offset_monotonic(tables, n, tables.len());
    if n > 0 {
        lemma_sums(tables, (n - 1) as nat);
        let counts = exported_counts(tables).take(n as int);
        assert(counts.drop_last() =~= exported_counts(tables).take(n - 1));
        assert(counts.last() == exported_counts(tables)[n - 1]);
    }
}

/// Importing an exported archive reports what the export reported: the digest, the
/// bytes, the schema, the rows of each table, and their sum as the number of rows. The
/// archive may come in any lines, and `values` is what the JSON reader makes of them.
pub proof fn law_import_reports_the_export(
    tables: Seq<ExportedTable>,
    lines: Seq<Seq<u8>>,
    values: Seq<ImportJson>,
    export: ExportReport,
    parsed: ParsedImportFile,
    import: ImportReport,
)
    requires
        exportable(tables),
        reports_export(export, tables),
        read_bytes(lines) == vstd::utf8::encode_utf8(archive_text(SCHEMA_VERSION as int, tables)),
        stands_for_archive(values, tables),
        read_all(initial_state(models_of(tables)), values) matches Some(end) ==> reports_import(
            parsed,
            lines,
            end,
        ),
        passes_on(import, parsed),
    ensures
        read_all(initial_state(models_of(tables)), values) matches Some(end) && end.footer_seen,
        import.sha256@ == export.sha256@,
        import.bytes == export.bytes,
        import.schema_version == export.schema_version,
        report_models(import.tables@) == report_models(export.tables@),
        import.row_count == export.row_count,
        import.row_count == sum_of_rows(report_models(import.tables@)),
{
    let n = tables.len();
    law_exported_archive_imports(tables, values);
    law_imported_archive_has_same_digest(
        archive_text(SCHEMA_VERSION as int, tables),
        lines,
        export,
        parsed,
    );
    lemma_sums(tables, n);
    assert(exported_counts(tables).take(n as int) =~= exported_counts(tables));
}

} // verus!
