//! Writing an archive, and the requests to export, back up and import a store.

use vstd::prelude::*;

use crate::digest::{sha256_text, text_digest};
use crate::error::{
    concat, concat3, concat4, invalid, signed_decimal, signed_decimal_of, verdict, Error, Fault,
};
use crate::hex::{hex_encode, hex_text};
use crate::import::{report_models, ExportTableReport, ParsedImportFile, TableModel, TableSpec};
use crate::json::{json_quoted, json_string_for_store, json_write_texts, texts_array};
use crate::paths::{
    first_sidecar, first_sidecar_suffix, lexical_path, reject_output_sidecar_files,
    reject_source_sidecar_output, reserved_beside, shape_fault, store_path_fault,
    validate_output_path_shape, validate_store_path, PathFacts, Sidecars,
};
use crate::text::{decimal, decimal_of, join, joined, text_eq, views};
use crate::validate::{first_of, refuse_if, refused_if};

verus! {

/// A value of an exported row.
pub enum ExportCell {
    /// Nothing.
    Null,
    /// A whole number.
    Integer(i64),
    /// A floating-point number, as it is written; nothing where it is not finite.
    Real(Option<String>),
    /// A text.
    Text(String),
    /// Bytes.
    Blob(Vec<u8>),
}

/// The text of a value.
pub open spec fn cell_text(value: ExportCell) -> Seq<char> {
    match value {
        ExportCell::Null => "null"@,
        ExportCell::Integer(n) => signed_decimal(n as int),
        ExportCell::Real(Some(text)) => text@,
        ExportCell::Real(None) => "null"@,
        ExportCell::Text(text) => json_quoted(text@),
        ExportCell::Blob(bytes) => "{\"$memkeeper_blob_hex\":\""@ + hex_text(bytes@) + "\"}"@,
    }
}

/// Writes a value.
pub fn write_sql_value_json(value: &ExportCell) -> (r: String)
    ensures
        r@ == cell_text(*value),
{
    match value {
        ExportCell::Null => "null".to_owned(),
        ExportCell::Integer(n) => signed_decimal_of(*n),
        ExportCell::Real(text) => match text {
            Some(number) => number.clone(),
            None => "null".to_owned(),
        },
        ExportCell::Text(text) => json_string_for_store(text.as_str()),
        ExportCell::Blob(bytes) => {
            let hex = hex_encode(bytes.as_slice());
            concat3("{\"$memkeeper_blob_hex\":\"", hex.as_str(), "\"}")
        },
    }
}

/// The text that the database keeps as bytes.
pub fn database_text(bytes: &[u8]) -> (r: Result<String, Error>)
    ensures
        match r {
            Ok(text) => vstd::utf8::valid_utf8(bytes@) && text@ == vstd::utf8::decode_utf8(bytes@),
            Err(e) => !vstd::utf8::valid_utf8(bytes@) && e@ == Fault::InvalidRequest(
                "database text value is not valid UTF-8"@,
            ),
        },
{
    match crate::records::utf8_text(bytes) {
        Some(text) => Ok(text),
        None => Err(invalid("database text value is not valid UTF-8")),
    }
}

/// The statement that reads a table.
pub fn export_sql(table: &TableSpec) -> (r: String)
    ensures
        r@ == "SELECT "@ + joined(table@.columns, ", "@) + " FROM "@ + table@.name + " ORDER BY "@
            + table@.order_by,
{
    let columns = join(table.columns.as_slice(), ", ");
    let mut sql = concat4("SELECT ", columns.as_str(), " FROM ", table.name.as_str());
    sql.append(" ORDER BY ");
    sql.append(table.order_by.as_str());
    sql
}

/// The text of the header.
pub open spec fn header_text(schema_version: int, names: Seq<Seq<char>>) -> Seq<char> {
    "{\"type\":\"header\",\"format\":\"memkeeper.export.v0.1\",\"protocol_version\":\"memkeeper.v0.1\",\"schema_version\":"@
        + signed_decimal(schema_version) + ",\"tables\":"@ + texts_array(names)
        + ",\"rebuildable_omitted\":[\"memory_fts\",\"memory_fts_public\",\"source_episode_fts\"]}\n"@
}

/// The texts of the members of a row.
pub open spec fn row_members(columns: Seq<Seq<char>>, cells: Seq<ExportCell>) -> Seq<Seq<char>> {
    Seq::new(columns.len(), |i: int| json_quoted(columns[i]) + ":"@ + cell_text(cells[i]))
}

/// The text of a row.
pub open spec fn row_text(table: TableModel, cells: Seq<ExportCell>) -> Seq<char> {
    "{\"type\":\"row\",\"table\":"@ + json_quoted(table.name) + ",\"data\":{"@ + joined(
        row_members(table.columns, cells),
        ","@,
    ) + "}}\n"@
}

/// The texts of the members of the counts.
pub open spec fn count_members(tables: Seq<(Seq<char>, u64)>) -> Seq<Seq<char>> {
    tables.map_values(|t: (Seq<char>, u64)| json_quoted(t.0) + ":"@ + decimal(t.1 as nat))
}

/// The text of the footer.
pub open spec fn footer_text(row_count: nat, tables: Seq<(Seq<char>, u64)>) -> Seq<char> {
    "{\"type\":\"footer\",\"row_count\":"@ + decimal(row_count) + ",\"table_counts\":{"@ + joined(
        count_members(tables),
        ","@,
    ) + "}}\n"@
}

/// Writes the header.
pub fn export_header(schema_version: i32, names: &Vec<String>) -> (r: String)
    ensures
        r@ == header_text(schema_version as int, views(names@)),
{
    let version = signed_decimal_of(schema_version as i64);
    let list = json_write_texts(names.as_slice());
    let mut out = concat4(
        "{\"type\":\"header\",\"format\":\"memkeeper.export.v0.1\",\"protocol_version\":\"memkeeper.v0.1\",\"schema_version\":",
        version.as_str(),
        ",\"tables\":",
        list.as_str(),
    );
    out.append(
        ",\"rebuildable_omitted\":[\"memory_fts\",\"memory_fts_public\",\"source_episode_fts\"]}\n",
    );
    out
}

/// Writes a row.
pub fn export_row(table: &TableSpec, cells: &Vec<ExportCell>) -> (r: String)
    requires
        cells@.len() == table.columns@.len(),
    ensures
        r@ == row_text(table@, cells@),
{
    let ghost wanted = row_members(table@.columns, cells@);
    let mut members: Vec<String> = Vec::new();
    assert(views(members@) =~= wanted.take(0));
    for i in 0..table.columns.len()
        invariant
            cells@.len() == table.columns@.len(),
            wanted == row_members(table@.columns, cells@),
            views(members@) == wanted.take(i as int),
    {
        let name = json_string_for_store(table.columns[i].as_str());
        let value = write_sql_value_json(&cells[i]);
        let ghost before = members@;
        members.push(concat3(name.as_str(), ":", value.as_str()));
        assert(table@.columns[i as int] == table.columns@[i as int]@);
        assert(views(members@) =~= views(before).push(wanted[i as int]));
        assert(wanted.take(i + 1) =~= wanted.take(i as int).push(wanted[i as int]));
    }
    assert(wanted.take(table.columns@.len() as int) =~= wanted);
    let name = json_string_for_store(table.name.as_str());
    let data = join(members.as_slice(), ",");
    let mut out = concat4(
        "{\"type\":\"row\",\"table\":",
        name.as_str(),
        ",\"data\":{",
        data.as_str(),
    );
    out.append("}}\n");
    out
}

/// Writes the footer.
pub fn export_footer(row_count: u64, tables: &Vec<ExportTableReport>) -> (r: String)
    ensures
        r@ == footer_text(row_count as nat, report_models(tables@)),
{
    let ghost wanted = count_members(report_models(tables@));
    let mut members: Vec<String> = Vec::new();
    assert(views(members@) =~= wanted.take(0));
    for i in 0..tables.len()
        invariant
            wanted == count_members(report_models(tables@)),
            views(members@) == wanted.take(i as int),
    {
        let name = json_string_for_store(tables[i].name.as_str());
        let count = decimal_of(tables[i].rows);
        let ghost before = members@;
        members.push(concat3(name.as_str(), ":", count.as_str()));
        assert(views(members@) =~= views(before).push(wanted[i as int]));
        assert(wanted.take(i + 1) =~= wanted.take(i as int).push(wanted[i as int]));
    }
    assert(wanted.take(tables@.len() as int) =~= wanted);
    let number = decimal_of(row_count);
    let counts = join(members.as_slice(), ",");
    let mut out = concat4(
        "{\"type\":\"footer\",\"row_count\":",
        number.as_str(),
        ",\"table_counts\":{",
        counts.as_str(),
    );
    out.append("}}\n");
    out
}

/// A table with its rows.
pub struct ExportedTable {
    /// The table.
    pub table: TableSpec,
    /// The rows in order.
    pub rows: Vec<Vec<ExportCell>>,
}

/// Whether every row has a value for each column.
pub open spec fn complete(tables: Seq<ExportedTable>) -> bool {
    forall|i: int, k: int|
        0 <= i < tables.len() && 0 <= k < tables[i].rows@.len() ==> (#[trigger] tables[i].rows@[k])@.len()
            == tables[i].table.columns@.len()
}

/// The texts of the first `n` rows of a table.
pub open spec fn rows_text(table: ExportedTable, n: nat) -> Seq<char>
    decreases n,
{
    if n == 0 {
        Seq::empty()
    } else {
        rows_text(table, (n - 1) as nat) + row_text(table.table@, table.rows@[n - 1]@)
    }
}

/// The texts of the first `n` tables.
pub open spec fn tables_text(tables: Seq<ExportedTable>, n: nat) -> Seq<char>
    decreases n,
{
    if n == 0 {
        Seq::empty()
    } else {
        tables_text(tables, (n - 1) as nat) + rows_text(tables[n - 1], tables[n - 1].rows@.len())
    }
}

/// The names of exported tables.
pub open spec fn exported_names(tables: Seq<ExportedTable>) -> Seq<Seq<char>> {
    tables.map_values(|t: ExportedTable| t.table.name@)
}

/// The numbers of rows of exported tables.
pub open spec fn exported_counts(tables: Seq<ExportedTable>) -> Seq<(Seq<char>, u64)> {
    tables.map_values(|t: ExportedTable| (t.table.name@, t.rows@.len() as u64))
}

/// The number of rows of the first `n` tables, as far as it can be counted.
pub open spec fn counted_rows(tables: Seq<ExportedTable>, n: nat) -> nat
    decreases n,
{
    if n == 0 {
        0
    } else {
        let sum = counted_rows(tables, (n - 1) as nat) + tables[n - 1].rows@.len();
        if sum > u64::MAX {
            u64::MAX as nat
        } else {
            sum
        }
    }
}

/// The text of an archive.
pub open spec fn archive_text(schema_version: int, tables: Seq<ExportedTable>) -> Seq<char> {
    header_text(schema_version, exported_names(tables)) + tables_text(tables, tables.len())
        + footer_text(counted_rows(tables, tables.len()), exported_counts(tables))
}

/// Request to export a store.
pub struct ExportRequest {
    /// Where the archive goes.
    pub output_path: String,
    /// Format of the archive.
    pub format: String,
}

/// Report of an export.
pub struct ExportReport {
    /// Where the archive is.
    pub output_path: String,
    /// Format of the archive.
    pub format: String,
    /// Schema of the store.
    pub schema_version: i32,
    /// Rows of each table.
    pub tables: Vec<ExportTableReport>,
    /// Rows.
    pub row_count: u64,
    /// Bytes.
    pub bytes: u64,
    /// Digest of the archive.
    pub sha256: String,
}

/// The fault of the path of an output.
pub open spec fn output_fault(path: Seq<char>) -> Option<Fault> {
    shape_fault(
        path,
        "output path must not be empty"@,
        "output paths must use plain filesystem paths"@,
    )
}

/// The fault of an output that the source store needs itself.
pub open spec fn overlap_fault(store: Seq<char>, output: Seq<char>) -> Option<Fault> {
    let source = lexical_path(store);
    let target = lexical_path(output);
    if reserved_beside(target, source, "-wal"@) || reserved_beside(target, source, "-shm"@)
        || reserved_beside(target, source, "-journal"@) {
        Some(
            Fault::Conflict(
                "output path is reserved for the source store SQLite sidecar: "@ + target,
            ),
        )
    } else {
        None
    }
}

/// The fault of a request to export.
pub open spec fn export_request_fault(request: ExportRequest) -> Option<Fault> {
    first_of(
        refused_if(request.format@ != "jsonl"@, "export format must be jsonl in v0.1"@),
        output_fault(request.output_path@),
    )
}

/// Checks a request to export.
pub fn validate_export_request(request: &ExportRequest) -> (r: Result<(), Error>)
    ensures
        verdict(r) == export_request_fault(*request),
{
    if !text_eq(request.format.as_str(), "jsonl") {
        return Err(invalid("export format must be jsonl in v0.1"));
    }
    validate_output_path_shape(request.output_path.as_str())
}

fn write_rows(table: &ExportedTable, out: &mut String)
    requires
        forall|k: int|
            0 <= k < table.rows@.len() ==> (#[trigger] table.rows@[k])@.len()
                == table.table.columns@.len(),
    ensures
        final(out)@ == old(out)@ + rows_text(*table, table.rows@.len()),
{
    let ghost start = out@;
    assert(start + rows_text(*table, 0) =~= start);
    for i in 0..table.rows.len()
        invariant
            forall|k: int|
                0 <= k < table.rows@.len() ==> (#[trigger] table.rows@[k])@.len()
                    == table.table.columns@.len(),
            out@ == start + rows_text(*table, i as nat),
    {
        let text = export_row(&table.table, &table.rows[i]);
        out.append(text.as_str());
        assert(out@ =~= start + rows_text(*table, (i + 1) as nat));
    }
}

fn list_tables(tables: &Vec<ExportedTable>) -> (r: (Vec<String>, Vec<ExportTableReport>))
    ensures
        views(r.0@) == exported_names(tables@),
        report_models(r.1@) == exported_counts(tables@),
{
    let ghost names_wanted = exported_names(tables@);
    let ghost wanted = exported_counts(tables@);
    let mut names: Vec<String> = Vec::new();
    let mut reports: Vec<ExportTableReport> = Vec::new();
    assert(views(names@) =~= names_wanted.take(0));
    assert(report_models(reports@) =~= wanted.take(0));
    for i in 0..tables.len()
        invariant
            names_wanted == exported_names(tables@),
            wanted == exported_counts(tables@),
            views(names@) == names_wanted.take(i as int),
            report_models(reports@) == wanted.take(i as int),
    {
        let ghost before_names = names@;
        let ghost before = reports@;
        names.push(tables[i].table.name.clone());
        reports.push(
            ExportTableReport {
                name: tables[i].table.name.clone(),
                rows: tables[i].rows.len() as u64,
            },
        );
        assert(views(names@) =~= views(before_names).push(names_wanted[i as int]));
        assert(report_models(reports@) =~= report_models(before).push(wanted[i as int]));
        assert(names_wanted.take(i + 1) =~= names_wanted.take(i as int).push(
            names_wanted[i as int],
        ));
        assert(wanted.take(i + 1) =~= wanted.take(i as int).push(wanted[i as int]));
    }
    assert(names_wanted.take(tables@.len() as int) =~= names_wanted);
    assert(wanted.take(tables@.len() as int) =~= wanted);
    (names, reports)
}

/// Writes the text of an archive.
pub fn write_export_file(schema_version: i32, tables: &Vec<ExportedTable>) -> (r: (
    String,
    Vec<ExportTableReport>,
    u64,
))
    requires
        complete(tables@),
    ensures
        r.0@ == archive_text(schema_version as int, tables@),
        report_models(r.1@) == exported_counts(tables@),
        r.2 == counted_rows(tables@, tables@.len()),
{
    let (names, reports) = list_tables(tables);
    let mut out = export_header(schema_version, &names);
    let ghost head = out@;
    let mut row_count: u64 = 0;
    assert(head + tables_text(tables@, 0) =~= head);
    for i in 0..tables.len()
        invariant
            complete(tables@),
            head == header_text(schema_version as int, exported_names(tables@)),
            out@ == head + tables_text(tables@, i as nat),
            row_count == counted_rows(tables@, i as nat),
    {
        let n: u64 = tables[i].rows.len() as u64;
        write_rows(&tables[i], &mut out);
        row_count = if n > u64::MAX - row_count {
            u64::MAX
        } else {
            row_count + n
        };
        assert(out@ =~= head + tables_text(tables@, (i + 1) as nat));
    }
    let foot = export_footer(row_count, &reports);
    out.append(foot.as_str());
    (out, reports, row_count)
}

/// Exports a store: the text of the archive, and the report. The output must not
/// lie where the database keeps its files beside the store, and nothing may be there.
pub fn export_store(
    store: &str,
    request: &ExportRequest,
    output: &str,
    output_exists: bool,
    schema_version: i32,
    tables: &Vec<ExportedTable>,
) -> (r: Result<(String, ExportReport), Error>)
    requires
        complete(tables@),
    ensures
        match r {
            Ok((text, report)) => {
                &&& export_request_fault(*request) is None
                &&& overlap_fault(store@, output@) is None
                &&& !output_exists
                &&& text@ == archive_text(schema_version as int, tables@)
                &&& report.output_path@ == request.output_path@
                &&& report.format@ == request.format@
                &&& report.schema_version == schema_version
                &&& report_models(report.tables@) == exported_counts(tables@)
                &&& report.row_count == counted_rows(tables@, tables@.len())
                &&& report.bytes == vstd::utf8::encode_utf8(text@).len()
                &&& report.sha256@ == text_digest(text@)
            },
            Err(e) => first_of(
                export_request_fault(*request),
                first_of(
                    overlap_fault(store@, output@),
                    target_fault(request.output_path@, output_exists),
                ),
            ) == Some(e@),
        },
{
    if let Err(e) = validate_export_request(request) {
        return Err(e);
    }
    if let Err(e) = reject_source_sidecar_output(store, output) {
        return Err(e);
    }
    if let Err(e) = reject_existing_target(request.output_path.as_str(), output_exists) {
        return Err(e);
    }
    let (text, reports, row_count) = write_export_file(schema_version, tables);
    let bytes: u64 = text.as_str().as_bytes().len() as u64;
    let sha256 = sha256_text(text.as_str());
    Ok(
        (
            text,
            ExportReport {
                output_path: request.output_path.clone(),
                format: request.format.clone(),
                schema_version,
                tables: reports,
                row_count,
                bytes,
                sha256,
            },
        ),
    )
}

/// Request to back a store up.
pub struct BackupRequest {
    /// Where the backup goes.
    pub output_path: String,
    /// Format of the backup.
    pub format: String,
}

/// What was written for a backup.
pub struct BackupFacts {
    /// Schema of the store.
    pub schema_version: i32,
    /// Pages of the database.
    pub page_count: i64,
    /// Bytes.
    pub bytes: u64,
    /// Digest.
    pub sha256: String,
    /// Files that the database left beside the backup.
    pub left: Sidecars,
    /// Files that stand beside the output.
    pub standing: Sidecars,
    /// Whether something is where the backup goes.
    pub output_exists: bool,
}

/// Report of a backup.
pub struct BackupReport {
    /// Where the backup is.
    pub output_path: String,
    /// Format of the backup.
    pub format: String,
    /// Schema of the store.
    pub schema_version: i32,
    /// Pages of the database.
    pub page_count: i64,
    /// Bytes.
    pub bytes: u64,
    /// Digest.
    pub sha256: String,
}

/// The fault of files that stand beside an output.
pub open spec fn standing_fault(path: Seq<char>, found: Sidecars) -> Option<Fault> {
    match first_sidecar(found.wal, found.shm, found.journal) {
        Some(suffix) => Some(
            Fault::Conflict("output sidecar path already exists: "@ + (path + suffix)),
        ),
        None => None,
    }
}

/// Refuses an output beside which files of a database stand.
pub fn reject_existing_output_sidecars(path: &str, found: Sidecars) -> (r: Result<(), Error>)
    ensures
        verdict(r) == standing_fault(path@, found),
{
    match first_sidecar_suffix(found) {
        Some(suffix) => {
            let sidecar = crate::paths::sidecar_path(path, suffix);
            Err(
                Error::Conflict {
                    message: concat("output sidecar path already exists: ", sidecar.as_str()),
                },
            )
        },
        None => Ok(()),
    }
}

/// The fault of files that a database left beside a backup.
pub open spec fn left_fault(path: Seq<char>, found: Sidecars) -> Option<Fault> {
    match first_sidecar(found.wal, found.shm, found.journal) {
        Some(suffix) => Some(
            Fault::Conflict(
                "backup produced SQLite sidecar "@ + (path + suffix)
                    + "; refusing non-self-contained backup"@,
            ),
        ),
        None => None,
    }
}

/// The fault of a backup.
pub open spec fn backup_fault(
    store: Seq<char>,
    request: BackupRequest,
    output: Seq<char>,
    written: Seq<char>,
    facts: BackupFacts,
) -> Option<Fault> {
    first_of(
        output_fault(request.output_path@),
        first_of(
            overlap_fault(store, output),
            first_of(
                left_fault(written, facts.left),
                first_of(
                    standing_fault(request.output_path@, facts.standing),
                    target_fault(request.output_path@, facts.output_exists),
                ),
            ),
        ),
    )
}

/// Decides a backup that was written to a path of its own: it has to be whole,
/// and nothing may stand where it goes.
pub fn backup_store(
    store: &str,
    request: &BackupRequest,
    output: &str,
    written: &str,
    facts: BackupFacts,
) -> (r: Result<BackupReport, Error>)
    ensures
        match r {
            Ok(report) => {
                &&& backup_fault(store@, *request, output@, written@, facts) is None
                &&& report.output_path@ == request.output_path@
                &&& report.format@ == request.format@
                &&& report.schema_version == facts.schema_version
                &&& report.page_count == facts.page_count
                &&& report.bytes == facts.bytes
                &&& report.sha256 == facts.sha256
            },
            Err(e) => backup_fault(store@, *request, output@, written@, facts) == Some(e@),
        },
{
    if let Err(e) = validate_output_path_shape(request.output_path.as_str()) {
        return Err(e);
    }
    if let Err(e) = reject_source_sidecar_output(store, output) {
        return Err(e);
    }
    if let Err(e) = reject_output_sidecar_files(written, facts.left) {
        return Err(e);
    }
    if let Err(e) = reject_existing_output_sidecars(
        request.output_path.as_str(),
        facts.standing,
    ) {
        return Err(e);
    }
    if let Err(e) = reject_existing_target(request.output_path.as_str(), facts.output_exists) {
        return Err(e);
    }
    Ok(
        BackupReport {
            output_path: request.output_path.clone(),
            format: request.format.clone(),
            schema_version: facts.schema_version,
            page_count: facts.page_count,
            bytes: facts.bytes,
            sha256: facts.sha256,
        },
    )
}

/// Request to import a store.
pub struct ImportRequest {
    /// Where the archive is.
    pub input_path: String,
    /// Format of the archive.
    pub format: String,
    /// What happens where a store exists.
    pub conflict_policy: String,
    /// Check only.
    pub dry_run: bool,
}

/// Report of an import.
pub struct ImportReport {
    /// Where the archive is.
    pub input_path: String,
    /// Format of the archive.
    pub format: String,
    /// Schema of the archive.
    pub schema_version: i32,
    /// Whether nothing was made.
    pub dry_run: bool,
    /// Rows of each table.
    pub tables: Vec<ExportTableReport>,
    /// Rows.
    pub row_count: u64,
    /// Bytes.
    pub bytes: u64,
    /// Digest of the archive.
    pub sha256: String,
    /// Memories in the rebuilt index.
    pub fts_memory_rows: i64,
    /// Document chunks in the rebuilt index.
    pub fts_source_episode_rows: i64,
}

/// The fault of a request to import.
pub open spec fn import_request_fault(request: ImportRequest) -> Option<Fault> {
    first_of(
        refused_if(request.format@ != "jsonl"@, "import format must be jsonl in v0.1"@),
        refused_if(
            request.conflict_policy@ != "fail_if_exists"@,
            "import conflict_policy must be fail_if_exists in v0.1"@,
        ),
    )
}

/// Checks a request to import.
pub fn validate_import_request(request: &ImportRequest) -> (r: Result<(), Error>)
    ensures
        verdict(r) == import_request_fault(*request),
{
    if !text_eq(request.format.as_str(), "jsonl") {
        return Err(invalid("import format must be jsonl in v0.1"));
    }
    refuse_if(
        !text_eq(request.conflict_policy.as_str(), "fail_if_exists"),
        "import conflict_policy must be fail_if_exists in v0.1",
    )
}

/// What stands where an import is to make a store.
#[derive(Debug, Clone, Copy)]
pub struct ImportTarget {
    /// Whether something is at the path of the new store.
    pub exists: bool,
    /// The files of a database that stand beside it.
    pub standing: Sidecars,
}

/// The fault of an output that is already there.
pub open spec fn target_fault(path: Seq<char>, exists: bool) -> Option<Fault> {
    if exists {
        Some(Fault::Conflict("output path already exists: "@ + path))
    } else {
        None
    }
}

/// Refuses to write where something is already there.
pub fn reject_existing_target(path: &str, exists: bool) -> (r: Result<(), Error>)
    ensures
        verdict(r) == target_fault(path@, exists),
{
    if exists {
        Err(Error::Conflict { message: concat("output path already exists: ", path) })
    } else {
        Ok(())
    }
}

/// The fault of an import: of the request, of the path of the new store, of the
/// archive, of what it holds, or of a store that is already there. A dry run leaves
/// out only the files beside the new store, which it does not make.
pub open spec fn import_fault(
    path: Seq<char>,
    facts: PathFacts,
    target: ImportTarget,
    request: ImportRequest,
    parsed: Result<ParsedImportFile, Error>,
    store: crate::integrity::ImportedStore,
) -> Option<Fault> {
    first_of(
        import_request_fault(request),
        first_of(
            store_path_fault(path, facts),
            first_of(
                if request.dry_run {
                    None
                } else {
                    standing_fault(path, target.standing)
                },
                first_of(
                    match parsed {
                        Err(e) => Some(e@),
                        Ok(_) => crate::integrity::store_fault(store),
                    },
                    target_fault(path, target.exists),
                ),
            ),
        ),
    )
}

/// Decides an import of an archive that was read into an empty store.
pub fn import_store(
    path: &str,
    facts: PathFacts,
    target: ImportTarget,
    request: &ImportRequest,
    parsed: Result<ParsedImportFile, Error>,
    store: &crate::integrity::ImportedStore,
    fts_memory_rows: i64,
    fts_source_episode_rows: i64,
) -> (r: Result<ImportReport, Error>)
    ensures
        match r {
            Ok(report) => {
                &&& import_fault(path@, facts, target, *request, parsed, *store) is None
                &&& report.input_path@ == request.input_path@
                &&& report.format@ == request.format@
                &&& report.dry_run == request.dry_run
                &&& parsed is Ok
                &&& report.schema_version == parsed->Ok_0.schema_version
                &&& report.tables == parsed->Ok_0.tables
                &&& report.row_count == parsed->Ok_0.row_count
                &&& report.bytes == parsed->Ok_0.bytes
                &&& report.sha256 == parsed->Ok_0.sha256
                &&& report.fts_memory_rows == fts_memory_rows
                &&& report.fts_source_episode_rows == fts_source_episode_rows
            },
            Err(e) => import_fault(path@, facts, target, *request, parsed, *store) == Some(e@),
        },
{
    if let Err(e) = validate_import_request(request) {
        return Err(e);
    }
    if let Err(e) = validate_store_path(path, facts) {
        return Err(e);
    }
    if !request.dry_run {
        if let Err(e) = reject_existing_output_sidecars(path, target.standing) {
            return Err(e);
        }
    }
    match parsed {
        Err(e) => Err(e),
        Ok(file) => {
            if let Err(e) = crate::integrity::validate_import_integrity(store) {
                return Err(e);
            }
            if let Err(e) = reject_existing_target(path, target.exists) {
                return Err(e);
            }
            Ok(
                ImportReport {
                    input_path: request.input_path.clone(),
                    format: request.format.clone(),
                    schema_version: file.schema_version,
                    dry_run: request.dry_run,
                    tables: file.tables,
                    row_count: file.row_count,
                    bytes: file.bytes,
                    sha256: file.sha256,
                    fts_memory_rows,
                    fts_source_episode_rows,
                },
            )
        },
    }
}

/// An import makes no store over another: where something stands at the path, it
/// is refused, dry run or not.
pub proof fn law_import_keeps_existing_store(
    path: Seq<char>,
    facts: PathFacts,
    target: ImportTarget,
    request: ImportRequest,
    parsed: Result<ParsedImportFile, Error>,
    store: crate::integrity::ImportedStore,
)
    requires
        target.exists,
    ensures
        import_fault(path, facts, target, request, parsed, store) is Some,
{
}

} // verus!
