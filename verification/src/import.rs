//! Reading an archive, record by record.

use vstd::prelude::*;

use crate::digest::{sha256, Sha256};
use crate::error::{concat, concat4, invalid, Error, Fault};
use crate::hex::{hex_bytes, hex_decode, hex_text};
use crate::pool::clone_texts;
use crate::ranking::Score;
use crate::records::{
    array_field, depth_fault, fault_of, import_array_field, import_i64_field, import_invalid,
    import_object, import_object_field, import_reject_unknown_fields, import_string_field,
    integer_field, is_text, line_fault, line_fault_if, lists_texts, literals, member, object_field,
    object_of, text_field, unknown_field_fault, validate_import_json_depth, ImportJson,
};
use crate::text::{decimal, decimal_of, join, joined, text_eq, views};
use crate::validate::first_of;
use crate::vocabulary::SCHEMA_VERSION;

verus! {

/// A table of the archive.
pub struct TableSpec {
    /// Name.
    pub name: String,
    /// Columns in the order in which they are written.
    pub columns: Vec<String>,
    /// Order of the rows.
    pub order_by: String,
}

/// The model of a table.
pub struct TableModel {
    /// Name.
    pub name: Seq<char>,
    /// Columns.
    pub columns: Seq<Seq<char>>,
    /// Order of the rows.
    pub order_by: Seq<char>,
}

impl View for TableSpec {
    type V = TableModel;

    open spec fn view(&self) -> TableModel {
        TableModel { name: self.name@, columns: views(self.columns@), order_by: self.order_by@ }
    }
}

/// The models of tables.
pub open spec fn table_models(list: Seq<TableSpec>) -> Seq<TableModel> {
    list.map_values(|t: TableSpec| t@)
}

/// The names of tables.
pub open spec fn table_names(list: Seq<TableModel>) -> Seq<Seq<char>> {
    list.map_values(|t: TableModel| t.name)
}

fn clone_table(table: &TableSpec) -> (r: TableSpec)
    ensures
        r@ == table@,
{
    TableSpec {
        name: table.name.clone(),
        columns: clone_texts(&table.columns),
        order_by: table.order_by.clone(),
    }
}

/// Tables without that of retrieval texts.
pub open spec fn without_representations(list: Seq<TableModel>) -> Seq<TableModel>
    decreases list.len(),
{
    if list.len() == 0 {
        list
    } else if list.last().name == "memory_representations"@ {
        without_representations(list.drop_last())
    } else {
        without_representations(list.drop_last()).push(list.last())
    }
}

/// The tables of an archive of a schema: archives of the schema before the
/// current one have no table of retrieval texts, and other schemas are refused.
pub open spec fn tables_for(version: int, known: Seq<TableModel>) -> Result<Seq<TableModel>, Fault> {
    if version == SCHEMA_VERSION {
        Ok(known)
    } else if version == 5 {
        Ok(without_representations(known))
    } else {
        Err(Fault::SchemaMismatch(SCHEMA_VERSION as int, version))
    }
}

/// The tables of an archive of a schema.
pub fn import_tables_for_schema(version: i32, known: &Vec<TableSpec>) -> (r: Result<
    Vec<TableSpec>,
    Error,
>)
    ensures
        match r {
            Ok(list) => tables_for(version as int, table_models(known@)) is Ok && table_models(list@)
                == tables_for(version as int, table_models(known@))->Ok_0,
            Err(e) => fault_of(tables_for(version as int, table_models(known@))) == Some(e@),
        },
{
    if version != SCHEMA_VERSION && version != 5 {
        return Err(Error::SchemaMismatch { expected: SCHEMA_VERSION, actual: version });
    }
    let ghost all = table_models(known@);
    let mut out: Vec<TableSpec> = Vec::new();
    assert(table_models(out@) =~= all.take(0));
    assert(table_models(out@) =~= without_representations(all.take(0)));
    for i in 0..known.len()
        invariant
            version == SCHEMA_VERSION || version == 5,
            all == table_models(known@),
            table_models(out@) == if version == SCHEMA_VERSION {
                all.take(i as int)
            } else {
                without_representations(all.take(i as int))
            },
    {
        proof {
            assert(all.take(i + 1).drop_last() =~= all.take(i as int));
            assert(all.take(i + 1).last() == known@[i as int]@);
            assert(all.take(i + 1) =~= all.take(i as int).push(all[i as int]));
        }
        if version == SCHEMA_VERSION || !text_eq(
            known[i].name.as_str(),
            "memory_representations",
        ) {
            let ghost before = out@;
            out.push(clone_table(&known[i]));
            assert(table_models(out@) =~= table_models(before).push(all[i as int]));
        }
    }
    assert(all.take(known@.len() as int) =~= all);
    Ok(out)
}

/// How a column is stored.
#[derive(Debug, Clone, Copy, PartialEq, Eq, Structural)]
pub enum ImportColumnType {
    /// Whole numbers.
    Integer,
    /// Floating-point numbers.
    Real,
    /// Texts.
    Text,
    /// Bytes.
    Blob,
}

/// How a column is stored.
pub open spec fn column_type(table: Seq<char>, column: Seq<char>) -> ImportColumnType {
    if (table == "schema_migrations"@ && column == "version"@) || column == "chunk_index"@ || column
        == "chunk_count"@ || column == "version_num"@ || column == "pinned"@ || column
        == "priority"@ || column == "attempts"@ || column == "max_attempts"@ || column
        == "dimensions"@ {
        ImportColumnType::Integer
    } else if column == "confidence"@ {
        ImportColumnType::Real
    } else if table == "embeddings"@ && column == "vector_blob"@ {
        ImportColumnType::Blob
    } else {
        ImportColumnType::Text
    }
}

/// How a column is stored.
pub fn import_column_type(table: &str, column: &str) -> (r: ImportColumnType)
    ensures
        r == column_type(table@, column@),
{
    if (text_eq(table, "schema_migrations") && text_eq(column, "version")) || text_eq(
        column,
        "chunk_index",
    ) || text_eq(column, "chunk_count") || text_eq(column, "version_num") || text_eq(
        column,
        "pinned",
    ) || text_eq(column, "priority") || text_eq(column, "attempts") || text_eq(
        column,
        "max_attempts",
    ) || text_eq(column, "dimensions") {
        ImportColumnType::Integer
    } else if text_eq(column, "confidence") {
        ImportColumnType::Real
    } else if text_eq(table, "embeddings") && text_eq(column, "vector_blob") {
        ImportColumnType::Blob
    } else {
        ImportColumnType::Text
    }
}

/// A value of an imported row.
pub enum ImportCell {
    /// Nothing.
    Null,
    /// A whole number.
    Integer(i64),
    /// A floating-point number.
    Real(Score),
    /// The floating-point number nearest to a whole number.
    RealOfInteger(i64),
    /// A text.
    Text(String),
    /// Bytes.
    Blob(Vec<u8>),
}

/// The model of a value.
pub enum CellModel {
    /// Nothing.
    Null,
    /// A whole number.
    Integer(i64),
    /// A floating-point number.
    Real(Score),
    /// The floating-point number nearest to a whole number.
    RealOfInteger(i64),
    /// A text.
    Text(Seq<char>),
    /// Bytes.
    Blob(Seq<u8>),
}

impl View for ImportCell {
    type V = CellModel;

    open spec fn view(&self) -> CellModel {
        match self {
            ImportCell::Null => CellModel::Null,
            ImportCell::Integer(n) => CellModel::Integer(*n),
            ImportCell::Real(score) => CellModel::Real(*score),
            ImportCell::RealOfInteger(n) => CellModel::RealOfInteger(*n),
            ImportCell::Text(text) => CellModel::Text(text@),
            ImportCell::Blob(bytes) => CellModel::Blob(bytes@),
        }
    }
}

/// The models of values.
pub open spec fn cell_models(list: Seq<ImportCell>) -> Seq<CellModel> {
    list.map_values(|c: ImportCell| c@)
}

/// Bytes that are written as hexadecimal text.
pub open spec fn blob(text: Seq<char>, line: nat) -> Result<Seq<u8>, Fault> {
    if vstd::utf8::encode_utf8(text).len() % 2 != 0 {
        Err(line_fault(line, "import BLOB hex length must be even"@))
    } else {
        match hex_bytes(text) {
            Some(bytes) => Ok(bytes),
            None => Err(line_fault(line, "import BLOB hex contains non-hex character"@)),
        }
    }
}

/// Reads bytes that are written as hexadecimal text.
pub fn decode_hex_blob(text: &str, line_number: usize) -> (r: Result<Vec<u8>, Error>)
    ensures
        match r {
            Ok(bytes) => blob(text@, line_number as nat) is Ok && blob(
                text@,
                line_number as nat,
            )->Ok_0 == bytes@,
            Err(e) => fault_of(blob(text@, line_number as nat)) == Some(e@),
        },
{
    let bytes = text.as_bytes();
    if bytes.len() % 2 != 0 {
        return Err(import_invalid(line_number, "import BLOB hex length must be even"));
    }
    match hex_decode(text) {
        Some(decoded) => Ok(decoded),
        None => Err(import_invalid(line_number, "import BLOB hex contains non-hex character")),
    }
}

/// Bytes in their wrapper: an object with one member.
pub open spec fn wrapped_blob(object: Seq<(String, ImportJson)>, line: nat) -> Result<
    Seq<u8>,
    Fault,
> {
    if object.len() != 1 {
        Err(line_fault(line, "import BLOB wrapper must have exactly one field"@))
    } else {
        match text_field(object, "$memkeeper_blob_hex"@, line) {
            Ok(text) => blob(text, line),
            Err(fault) => Err(fault),
        }
    }
}

/// The value of a column.
pub open spec fn cell(
    table: Seq<char>,
    column: Seq<char>,
    value: ImportJson,
    line: nat,
) -> Result<CellModel, Fault> {
    match (column_type(table, column), value) {
        (_, ImportJson::Null) => Ok(CellModel::Null),
        (ImportColumnType::Integer, ImportJson::Integer(n)) => Ok(CellModel::Integer(n)),
        (ImportColumnType::Real, ImportJson::Integer(n)) => Ok(CellModel::RealOfInteger(n)),
        (ImportColumnType::Real, ImportJson::Real(score)) => Ok(CellModel::Real(score)),
        (ImportColumnType::Text, ImportJson::Text(text)) => Ok(CellModel::Text(text@)),
        (ImportColumnType::Blob, ImportJson::Object(object)) => match wrapped_blob(object@, line) {
            Ok(bytes) => Ok(CellModel::Blob(bytes)),
            Err(fault) => Err(fault),
        },
        _ => Err(
            line_fault(
                line,
                "column "@ + table + "."@ + column + " has invalid SQLite storage class"@,
            ),
        ),
    }
}

/// Reads the value of a column: it has to be stored as the column is.
pub fn import_sql_value(table: &str, column: &str, value: &ImportJson, line_number: usize) -> (r:
    Result<ImportCell, Error>)
    ensures
        match r {
            Ok(c) => cell(table@, column@, *value, line_number as nat) is Ok && cell(
                table@,
                column@,
                *value,
                line_number as nat,
            )->Ok_0 == c@,
            Err(e) => fault_of(cell(table@, column@, *value, line_number as nat)) == Some(e@),
        },
{
    match (import_column_type(table, column), value) {
        (_, ImportJson::Null) => Ok(ImportCell::Null),
        (ImportColumnType::Integer, ImportJson::Integer(n)) => Ok(ImportCell::Integer(*n)),
        (ImportColumnType::Real, ImportJson::Integer(n)) => Ok(ImportCell::RealOfInteger(*n)),
        (ImportColumnType::Real, ImportJson::Real(score)) => Ok(ImportCell::Real(*score)),
        (ImportColumnType::Text, ImportJson::Text(text)) => Ok(ImportCell::Text(text.clone())),
        (ImportColumnType::Blob, ImportJson::Object(object)) => {
            if object.len() != 1 {
                return Err(
                    import_invalid(line_number, "import BLOB wrapper must have exactly one field"),
                );
            }
            match import_string_field(object, "$memkeeper_blob_hex", line_number) {
                Ok(text) => match decode_hex_blob(text, line_number) {
                    Ok(bytes) => Ok(ImportCell::Blob(bytes)),
                    Err(e) => Err(e),
                },
                Err(e) => Err(e),
            }
        },
        _ => {
            let mut message = concat4("column ", table, ".", column);
            message.append(" has invalid SQLite storage class");
            Err(import_invalid(line_number, message.as_str()))
        },
    }
}

/// The fault of the columns of a row: exactly those of the table.
pub open spec fn columns_fault(
    table: TableModel,
    data: Seq<(String, ImportJson)>,
    line: nat,
) -> Option<Fault> {
    first_of(
        line_fault_if(
            data.len() != table.columns.len(),
            line,
            "import row column set mismatch"@,
        ),
        line_fault_if(
            exists|i: int|
                0 <= i < table.columns.len() && member(data, #[trigger] table.columns[i]) is None,
            line,
            "import row missing expected column"@,
        ),
    )
}

/// Checks the columns of a row.
pub fn validate_import_row_columns(
    table: &TableSpec,
    data: &Vec<(String, ImportJson)>,
    line_number: usize,
) -> (r: Result<(), Error>)
    ensures
        crate::error::verdict(r) == columns_fault(table@, data@, line_number as nat),
{
    if data.len() != table.columns.len() {
        return Err(import_invalid(line_number, "import row column set mismatch"));
    }
    for i in 0..table.columns.len()
        invariant
            data@.len() == table.columns@.len(),
            forall|k: int|
                0 <= k < i ==> member(data@, #[trigger] table@.columns[k]) is Some,
    {
        let column = table.columns[i].as_str();
        assert(table@.columns[i as int] == column@);
        if crate::records::get_member(data, column).is_none() {
            return Err(import_invalid(line_number, "import row missing expected column"));
        }
    }
    Ok(())
}

/// The fault of the first faulty value among the first `n` columns.
pub open spec fn cells_fault(
    table: TableModel,
    data: Seq<(String, ImportJson)>,
    line: nat,
    n: nat,
) -> Option<Fault>
    decreases n,
{
    if n == 0 {
        None
    } else {
        first_of(
            cells_fault(table, data, line, (n - 1) as nat),
            fault_of(
                cell(
                    table.name,
                    table.columns[n - 1],
                    member(data, table.columns[n - 1])->0,
                    line,
                ),
            ),
        )
    }
}

/// The values of a row, in the order of the columns.
pub open spec fn row_cells(
    table: TableModel,
    data: Seq<(String, ImportJson)>,
    line: nat,
) -> Seq<CellModel> {
    Seq::new(
        table.columns.len(),
        |i: int|
            cell(table.name, table.columns[i], member(data, table.columns[i])->0, line)->Ok_0,
    )
}

/// Numbered placeholders.
pub open spec fn numbered(n: nat) -> Seq<Seq<char>> {
    Seq::new(n, |i: int| "?"@ + decimal((i + 1) as nat))
}

/// The statement that inserts a row.
pub open spec fn insert_sql(table: TableModel) -> Seq<char> {
    "INSERT INTO "@ + table.name + " ("@ + joined(table.columns, ", "@) + ") VALUES ("@ + joined(
        numbered(table.columns.len()),
        ", "@,
    ) + ")"@
}

/// A row to insert.
pub struct ImportInsert {
    /// The statement.
    pub sql: String,
    /// The values in the order of the columns.
    pub values: Vec<ImportCell>,
}

fn insert_statement(table: &TableSpec) -> (r: String)
    ensures
        r@ == insert_sql(table@),
{
    let ghost wanted = numbered(table.columns@.len());
    let mut marks: Vec<String> = Vec::new();
    assert(views(marks@) =~= wanted.take(0));
    for i in 0..table.columns.len()
        invariant
            wanted == numbered(table.columns@.len()),
            views(marks@) == wanted.take(i as int),
    {
        let number = decimal_of(i as u64 + 1);
        let ghost before = marks@;
        marks.push(concat("?", number.as_str()));
        assert(views(marks@) =~= views(before).push(wanted[i as int]));
        assert(wanted.take(i + 1) =~= wanted.take(i as int).push(wanted[i as int]));
    }
    assert(wanted.take(table.columns@.len() as int) =~= wanted);
    let columns = join(table.columns.as_slice(), ", ");
    let values = join(marks.as_slice(), ", ");
    let mut sql = concat4("INSERT INTO ", table.name.as_str(), " (", columns.as_str());
    sql.append(") VALUES (");
    sql.append(values.as_str());
    sql.append(")");
    sql
}

/// The fault of the data of a row.
pub open spec fn data_fault(
    table: TableModel,
    data: Seq<(String, ImportJson)>,
    line: nat,
) -> Option<Fault> {
    first_of(
        columns_fault(table, data, line),
        cells_fault(table, data, line, table.columns.len()),
    )
}

/// Whether a row to insert has the data of a record.
pub open spec fn inserts(
    insert: ImportInsert,
    table: TableModel,
    data: Seq<(String, ImportJson)>,
    line: nat,
) -> bool {
    &&& insert.sql@ == insert_sql(table)
    &&& cell_models(insert.values@) == row_cells(table, data, line)
}

proof fn lemma_cells_prefix(
    table: TableModel,
    data: Seq<(String, ImportJson)>,
    line: nat,
    n: nat,
    m: nat,
)
    requires
        n <= m,
        cells_fault(table, data, line, n) is Some,
    ensures
        cells_fault(table, data, line, m) == cells_fault(table, data, line, n),
    decreases m,
{
    if n < m {
        lemma_cells_prefix(table, data, line, n, (m - 1) as nat);
    }
}

/// Reads the data of a row.
pub fn insert_import_row(table: &TableSpec, data: &Vec<(String, ImportJson)>, line_number: usize) -> (r:
    Result<ImportInsert, Error>)
    ensures
        match r {
            Ok(insert) => data_fault(table@, data@, line_number as nat) is None && inserts(
                insert,
                table@,
                data@,
                line_number as nat,
            ),
            Err(e) => data_fault(table@, data@, line_number as nat) == Some(e@),
        },
{
    if let Err(e) = validate_import_row_columns(table, data, line_number) {
        return Err(e);
    }
    let ghost line = line_number as nat;
    let ghost wanted = row_cells(table@, data@, line);
    let mut values: Vec<ImportCell> = Vec::new();
    assert(cell_models(values@) =~= wanted.take(0));
    for i in 0..table.columns.len()
        invariant
            line == line_number as nat,
            wanted == row_cells(table@, data@, line),
            columns_fault(table@, data@, line) is None,
            cells_fault(table@, data@, line, i as nat) is None,
            cell_models(values@) == wanted.take(i as int),
    {
        let column = table.columns[i].as_str();
        assert(table@.columns[i as int] == column@);
        match crate::records::get_member(data, column) {
            Some(value) => match import_sql_value(table.name.as_str(), column, value, line_number) {
                Ok(c) => {
                    let ghost before = values@;
                    values.push(c);
                    proof {
                        assert(wanted[i as int] == c@);
                        assert(cell_models(values@) =~= cell_models(before).push(
                            wanted[i as int],
                        ));
                        assert(wanted.take(i + 1) =~= wanted.take(i as int).push(
                            wanted[i as int],
                        ));
                    }
                },
                Err(e) => {
                    proof {
                        assert(cells_fault(table@, data@, line, (i + 1) as nat) == Some(e@));
                        lemma_cells_prefix(
                            table@,
                            data@,
                            line,
                            (i + 1) as nat,
                            table@.columns.len(),
                        );
                    }
                    return Err(e);
                },
            },
            None => {
                return Err(import_invalid(line_number, "import row missing expected column"));
            },
        }
    }
    assert(wanted.take(table.columns@.len() as int) =~= wanted);
    Ok(ImportInsert { sql: insert_statement(table), values })
}

/// How far an archive has been read.
pub struct ImportState {
    /// The tables of the current schema.
    pub known: Vec<TableSpec>,
    /// Whether the header was read.
    pub header_seen: bool,
    /// Whether the footer was read.
    pub footer_seen: bool,
    /// The table of the last row.
    pub current_table_index: usize,
    /// The schema of the archive.
    pub schema_version: i32,
    /// The tables of the archive.
    pub tables: Vec<TableSpec>,
    /// Rows read.
    pub row_count: u64,
    /// Rows read of each table.
    pub table_counts: Vec<u64>,
}

/// The model of an [`ImportState`].
pub struct ImportModel {
    /// The tables of the current schema.
    pub known: Seq<TableModel>,
    /// Whether the header was read.
    pub header_seen: bool,
    /// Whether the footer was read.
    pub footer_seen: bool,
    /// The table of the last row.
    pub current: int,
    /// The schema of the archive.
    pub schema_version: int,
    /// The tables of the archive.
    pub tables: Seq<TableModel>,
    /// Rows read.
    pub row_count: u64,
    /// Rows read of each table.
    pub counts: Seq<u64>,
}

impl View for ImportState {
    type V = ImportModel;

    open spec fn view(&self) -> ImportModel {
        ImportModel {
            known: table_models(self.known@),
            header_seen: self.header_seen,
            footer_seen: self.footer_seen,
            current: self.current_table_index as int,
            schema_version: self.schema_version as int,
            tables: table_models(self.tables@),
            row_count: self.row_count,
            counts: self.table_counts@,
        }
    }
}

/// The sum of counts.
pub open spec fn total(counts: Seq<u64>) -> int
    decreases counts.len(),
{
    if counts.len() == 0 {
        0
    } else {
        total(counts.drop_last()) + counts.last()
    }
}

/// A count that stays at the greatest number.
pub open spec fn one_more(n: u64) -> u64 {
    if n == u64::MAX {
        n
    } else {
        (n + 1) as u64
    }
}

/// What holds of every state: each table has its count, the rows of all tables
/// are counted together, there are none before the header, and no footer comes
/// without a header.
pub open spec fn consistent(s: ImportModel) -> bool {
    &&& s.counts.len() == s.tables.len()
    &&& s.row_count == if total(s.counts) > u64::MAX {
        u64::MAX as int
    } else {
        total(s.counts)
    }
    &&& !s.header_seen ==> s.row_count == 0 && s.tables.len() == 0
    &&& s.footer_seen ==> s.header_seen
}

/// Before anything was read.
pub open spec fn initial_state(known: Seq<TableModel>) -> ImportModel {
    ImportModel {
        known,
        header_seen: false,
        footer_seen: false,
        current: 0,
        schema_version: 0,
        tables: Seq::empty(),
        row_count: 0,
        counts: Seq::empty(),
    }
}

/// The fields of a header.
pub open spec fn header_fields() -> Seq<Seq<char>> {
    seq![
        "type"@,
        "format"@,
        "protocol_version"@,
        "schema_version"@,
        "tables"@,
        "rebuildable_omitted"@,
    ]
}

/// The tables that are rebuilt after an import.
pub open spec fn rebuilt_tables() -> Seq<Seq<char>> {
    seq!["memory_fts"@, "memory_fts_public"@, "source_episode_fts"@]
}

/// A schema number that fits, else zero.
pub open spec fn small_version(n: i64) -> int {
    if i32::MIN <= n <= i32::MAX {
        n as int
    } else {
        0
    }
}

/// The fault of a text field that has to have one value.
pub open spec fn exact_field_fault(
    object: Seq<(String, ImportJson)>,
    key: Seq<char>,
    wanted: Seq<char>,
    message: Seq<char>,
    line: nat,
) -> Option<Fault> {
    match text_field(object, key, line) {
        Err(fault) => Some(fault),
        Ok(text) => line_fault_if(text != wanted, line, message),
    }
}

/// The fault of a list field that has to list given texts.
pub open spec fn list_field_fault(
    object: Seq<(String, ImportJson)>,
    key: Seq<char>,
    wanted: Seq<Seq<char>>,
    message: Seq<char>,
    line: nat,
) -> Option<Fault> {
    match array_field(object, key, line) {
        Err(fault) => Some(fault),
        Ok(items) => line_fault_if(!lists_texts(items, wanted), line, message),
    }
}

/// The tables that a header announces by its schema.
pub open spec fn header_tables(
    known: Seq<TableModel>,
    object: Seq<(String, ImportJson)>,
    line: nat,
) -> Result<Seq<TableModel>, Fault> {
    match integer_field(object, "schema_version"@, line) {
        Err(fault) => Err(fault),
        Ok(n) => tables_for(small_version(n), known),
    }
}

/// The fault of a header.
pub open spec fn header_fault(s: ImportModel, object: Seq<(String, ImportJson)>, line: nat) -> Option<
    Fault,
> {
    first_of(
        line_fault_if(s.header_seen, line, "duplicate import header"@),
        first_of(
            line_fault_if(
                s.footer_seen || s.row_count > 0,
                line,
                "import header must be the first record"@,
            ),
            first_of(
                unknown_field_fault(object, header_fields(), line),
                first_of(
                    exact_field_fault(
                        object,
                        "format"@,
                        "memkeeper.export.v0.1"@,
                        "import format must be memkeeper.export.v0.1"@,
                        line,
                    ),
                    first_of(
                        exact_field_fault(
                            object,
                            "protocol_version"@,
                            "memkeeper.v0.1"@,
                            "import protocol_version must be memkeeper.v0.1"@,
                            line,
                        ),
                        first_of(
                            fault_of(header_tables(s.known, object, line)),
                            first_of(
                                list_field_fault(
                                    object,
                                    "tables"@,
                                    table_names(header_tables(s.known, object, line)->Ok_0),
                                    "import header table list mismatch"@,
                                    line,
                                ),
                                list_field_fault(
                                    object,
                                    "rebuildable_omitted"@,
                                    rebuilt_tables(),
                                    "import header rebuildable_omitted mismatch"@,
                                    line,
                                ),
                            ),
                        ),
                    ),
                ),
            ),
        ),
    )
}

/// After a header.
pub open spec fn after_header(
    s: ImportModel,
    object: Seq<(String, ImportJson)>,
    line: nat,
) -> ImportModel {
    let tables = header_tables(s.known, object, line)->Ok_0;
    ImportModel {
        header_seen: true,
        schema_version: small_version(integer_field(object, "schema_version"@, line)->Ok_0),
        tables,
        counts: Seq::new(tables.len(), |i: int| 0u64),
        ..s
    }
}

/// The fault of a row or footer at a place where none may come.
pub open spec fn closed_fault(s: ImportModel, line: nat) -> Option<Fault> {
    first_of(
        line_fault_if(!s.header_seen, line, "import row appeared before header"@),
        line_fault_if(s.footer_seen, line, "import record appeared after footer"@),
    )
}

/// The first table with a name.
pub open spec fn table_position(tables: Seq<TableModel>, name: Seq<char>) -> Option<int>
    decreases tables.len(),
{
    if tables.len() == 0 {
        None
    } else {
        match table_position(tables.drop_last(), name) {
            Some(i) => Some(i),
            None => if tables.last().name == name {
                Some(tables.len() - 1)
            } else {
                None
            },
        }
    }
}

/// The fields of a row.
pub open spec fn row_fields() -> Seq<Seq<char>> {
    seq!["type"@, "table"@, "data"@]
}

/// The table of a row.
pub open spec fn row_table(s: ImportModel, object: Seq<(String, ImportJson)>, line: nat) -> Result<
    int,
    Fault,
> {
    match text_field(object, "table"@, line) {
        Err(fault) => Err(fault),
        Ok(name) => match table_position(s.tables, name) {
            None => Err(
                Fault::InvalidRequest(
                    "import JSONL line "@ + decimal(line) + ": unknown export table "@ + name,
                ),
            ),
            Some(i) => if i < s.current {
                Err(line_fault(line, "import rows are not in export table order"@))
            } else {
                Ok(i)
            },
        },
    }
}

/// The fault of a row.
pub open spec fn row_fault(s: ImportModel, object: Seq<(String, ImportJson)>, line: nat) -> Option<
    Fault,
> {
    first_of(
        closed_fault(s, line),
        first_of(
            unknown_field_fault(object, row_fields(), line),
            match row_table(s, object, line) {
                Err(fault) => Some(fault),
                Ok(i) => match object_field(object, "data"@, line) {
                    Err(fault) => Some(fault),
                    Ok(data) => data_fault(s.tables[i], data, line),
                },
            },
        ),
    )
}

/// After a row of a table.
pub open spec fn after_row(s: ImportModel, i: int) -> ImportModel {
    ImportModel {
        current: i,
        row_count: one_more(s.row_count),
        counts: s.counts.update(i, one_more(s.counts[i])),
        ..s
    }
}

/// The fields of a footer.
pub open spec fn footer_fields() -> Seq<Seq<char>> {
    seq!["type"@, "row_count"@, "table_counts"@]
}

/// The fault of the first of `n` tables whose count the footer does not give.
pub open spec fn counts_fault(
    s: ImportModel,
    object: Seq<(String, ImportJson)>,
    line: nat,
    n: nat,
) -> Option<Fault>
    decreases n,
{
    if n == 0 {
        None
    } else {
        first_of(
            counts_fault(s, object, line, (n - 1) as nat),
            match integer_field(object, s.tables[n - 1].name, line) {
                Err(fault) => Some(fault),
                Ok(count) => line_fault_if(
                    count != s.counts[n - 1],
                    line,
                    "import footer table count mismatch"@,
                ),
            },
        )
    }
}

/// The fault of a footer.
pub open spec fn footer_fault(s: ImportModel, object: Seq<(String, ImportJson)>, line: nat) -> Option<
    Fault,
> {
    first_of(
        closed_fault(s, line),
        first_of(
            unknown_field_fault(object, footer_fields(), line),
            first_of(
                match integer_field(object, "row_count"@, line) {
                    Err(fault) => Some(fault),
                    Ok(n) => line_fault_if(
                        n != s.row_count,
                        line,
                        "import footer row_count mismatch"@,
                    ),
                },
                match object_field(object, "table_counts"@, line) {
                    Err(fault) => Some(fault),
                    Ok(counts) => first_of(
                        line_fault_if(
                            counts.len() != s.tables.len(),
                            line,
                            "import footer table_counts mismatch"@,
                        ),
                        counts_fault(s, counts, line, s.tables.len()),
                    ),
                },
            ),
        ),
    )
}

/// After a footer.
pub open spec fn after_footer(s: ImportModel) -> ImportModel {
    ImportModel { footer_seen: true, ..s }
}

proof fn lemma_total_zero(counts: Seq<u64>)
    requires
        forall|i: int| 0 <= i < counts.len() ==> #[trigger] counts[i] == 0,
    ensures
        total(counts) == 0,
    decreases counts.len(),
{
    if counts.len() > 0 {
        lemma_total_zero(counts.drop_last());
    }
}

proof fn lemma_total_update(counts: Seq<u64>, i: int, n: u64)
    requires
        0 <= i < counts.len(),
    ensures
        total(counts.update(i, n)) == total(counts) - counts[i] + n,
    decreases counts.len(),
{
    let more = counts.update(i, n);
    if i == counts.len() - 1 {
        assert(more.drop_last() =~= counts.drop_last());
    } else {
        assert(more.drop_last() =~= counts.drop_last().update(i, n));
        lemma_total_update(counts.drop_last(), i, n);
    }
}

proof fn lemma_total_bound(counts: Seq<u64>, i: int)
    requires
        0 <= i < counts.len(),
    ensures
        total(counts) >= counts[i],
    decreases counts.len(),
{
    if i < counts.len() - 1 {
        lemma_total_bound(counts.drop_last(), i);
    } else {
        lemma_total_nonnegative(counts.drop_last());
    }
}

proof fn lemma_total_nonnegative(counts: Seq<u64>)
    ensures
        total(counts) >= 0,
    decreases counts.len(),
{
    if counts.len() > 0 {
        lemma_total_nonnegative(counts.drop_last());
    }
}

/// A row keeps a state consistent.
pub proof fn lemma_row_keeps(s: ImportModel, i: int)
    requires
        consistent(s),
        s.header_seen,
        0 <= i < s.tables.len(),
    ensures
        consistent(after_row(s, i)),
{
    lemma_total_update(s.counts, i, one_more(s.counts[i]));
    lemma_total_bound(s.counts, i);
}

proof fn lemma_table_position(tables: Seq<TableModel>, name: Seq<char>, i: int)
    requires
        0 <= i <= tables.len(),
        forall|k: int| 0 <= k < i ==> (#[trigger] tables[k]).name != name,
        i < tables.len() ==> tables[i].name == name,
    ensures
        table_position(tables, name) == if i < tables.len() {
            Some(i)
        } else {
            None
        },
    decreases tables.len(),
{
    if tables.len() > 0 {
        let rest = tables.drop_last();
        assert forall|k: int| 0 <= k < rest.len() implies rest[k] == tables[k] by {}
        if i < tables.len() {
            lemma_table_position(rest, name, i);
        } else {
            assert(tables[tables.len() - 1].name != name);
            lemma_table_position(rest, name, i - 1);
        }
    }
}

/// A table that is found is one of the tables.
pub proof fn lemma_table_found(tables: Seq<TableModel>, name: Seq<char>)
    ensures
        table_position(tables, name) matches Some(i) ==> 0 <= i < tables.len() && tables[i].name
            == name,
    decreases tables.len(),
{
    if tables.len() > 0 {
        lemma_table_found(tables.drop_last(), name);
    }
}

fn find_table(tables: &Vec<TableSpec>, name: &str) -> (r: Option<usize>)
    ensures
        match r {
            Some(i) => i < tables@.len() && table_position(table_models(tables@), name@) == Some(
                i as int,
            ),
            None => table_position(table_models(tables@), name@) is None,
        },
{
    let ghost models = table_models(tables@);
    let mut i: usize = 0;
    while i < tables.len() && !text_eq(tables[i].name.as_str(), name)
        invariant
            i <= tables@.len(),
            models == table_models(tables@),
            forall|k: int| 0 <= k < i ==> (#[trigger] models[k]).name != name@,
        decreases tables.len() - i,
    {
        assert(models[i as int].name != name@);
        i = i + 1;
    }
    proof {
        if i < tables@.len() {
            assert(models[i as int].name == name@);
        }
        lemma_table_position(models, name@, i as int);
    }
    if i < tables.len() {
        Some(i)
    } else {
        None
    }
}

fn check_exact_field(
    object: &Vec<(String, ImportJson)>,
    key: &str,
    wanted: &str,
    message: &str,
    line_number: usize,
) -> (r: Result<(), Error>)
    ensures
        crate::error::verdict(r) == exact_field_fault(
            object@,
            key@,
            wanted@,
            message@,
            line_number as nat,
        ),
{
    match import_string_field(object, key, line_number) {
        Err(e) => Err(e),
        Ok(text) => if text_eq(text, wanted) {
            Ok(())
        } else {
            Err(import_invalid(line_number, message))
        },
    }
}

fn lists(items: &Vec<ImportJson>, texts: &Vec<String>) -> (r: bool)
    ensures
        r == lists_texts(items@, views(texts@)),
{
    if items.len() != texts.len() {
        return false;
    }
    for i in 0..items.len()
        invariant
            items@.len() == texts@.len(),
            forall|k: int|
                0 <= k < i ==> (#[trigger] items@[k] matches ImportJson::Text(text) && text@
                    == views(texts@)[k]),
    {
        if !is_text(&items[i], texts[i].as_str()) {
            assert(!(items@[i as int] matches ImportJson::Text(text) && text@ == views(
                texts@,
            )[i as int]));
            return false;
        }
    }
    true
}

fn check_list_field(
    object: &Vec<(String, ImportJson)>,
    key: &str,
    wanted: &Vec<String>,
    message: &str,
    line_number: usize,
) -> (r: Result<(), Error>)
    ensures
        crate::error::verdict(r) == list_field_fault(
            object@,
            key@,
            views(wanted@),
            message@,
            line_number as nat,
        ),
{
    match import_array_field(object, key, line_number) {
        Err(e) => Err(e),
        Ok(items) => if lists(items, wanted) {
            Ok(())
        } else {
            Err(import_invalid(line_number, message))
        },
    }
}

fn names_of(tables: &Vec<TableSpec>) -> (r: Vec<String>)
    ensures
        views(r@) == table_names(table_models(tables@)),
{
    let ghost wanted = table_names(table_models(tables@));
    let mut out: Vec<String> = Vec::new();
    assert(views(out@) =~= wanted.take(0));
    for i in 0..tables.len()
        invariant
            wanted == table_names(table_models(tables@)),
            views(out@) == wanted.take(i as int),
    {
        let ghost before = out@;
        out.push(tables[i].name.clone());
        assert(views(out@) =~= views(before).push(wanted[i as int]));
        assert(wanted.take(i + 1) =~= wanted.take(i as int).push(wanted[i as int]));
    }
    assert(wanted.take(tables@.len() as int) =~= wanted);
    out
}

fn rebuilt_names() -> (r: Vec<String>)
    ensures
        views(r@) == rebuilt_tables(),
{
    let mut out: Vec<String> = Vec::new();
    out.push("memory_fts".to_owned());
    out.push("memory_fts_public".to_owned());
    out.push("source_episode_fts".to_owned());
    assert(views(out@) =~= rebuilt_tables());
    out
}

fn check_fields(object: &Vec<(String, ImportJson)>, allowed: &[&'static str], line_number: usize) -> (r:
    Result<(), Error>)
    ensures
        crate::error::verdict(r) == unknown_field_fault(
            object@,
            literals(allowed@),
            line_number as nat,
        ),
{
    import_reject_unknown_fields(object, allowed, line_number)
}

fn zero_counts(n: usize) -> (r: Vec<u64>)
    ensures
        r@ == Seq::new(n as nat, |i: int| 0u64),
{
    let mut out: Vec<u64> = Vec::new();
    for i in 0..n
        invariant
            out@ == Seq::new(i as nat, |k: int| 0u64),
    {
        out.push(0);
        assert(out@ =~= Seq::new((i + 1) as nat, |k: int| 0u64));
    }
    out
}

impl ImportState {
    /// Begins to read an archive.
    pub fn new(known: Vec<TableSpec>) -> (r: Self)
        ensures
            r@ == initial_state(table_models(known@)),
            consistent(r@),
    {
        let tables: Vec<TableSpec> = Vec::new();
        let table_counts: Vec<u64> = Vec::new();
        assert(table_models(tables@) =~= Seq::empty());
        ImportState {
            known,
            header_seen: false,
            footer_seen: false,
            current_table_index: 0,
            schema_version: 0,
            tables,
            row_count: 0,
            table_counts,
        }
    }

    /// Reads a header: the first record, and the only one.
    #[verifier::rlimit(40)]
    pub fn accept_header(&mut self, object: &Vec<(String, ImportJson)>, line_number: usize) -> (r:
        Result<(), Error>)
        requires
            consistent(old(self)@),
        ensures
            consistent(final(self)@),
            match r {
                Ok(()) => header_fault(old(self)@, object@, line_number as nat) is None && final(self)@ == after_header(old(self)@, object@, line_number as nat),
                Err(e) => header_fault(old(self)@, object@, line_number as nat) == Some(e@)
                    && final(self)@ == old(self)@,
            },
    {
        if self.header_seen {
            return Err(import_invalid(line_number, "duplicate import header"));
        }
        if self.footer_seen || self.row_count > 0 {
            return Err(import_invalid(line_number, "import header must be the first record"));
        }
        let allowed: [&'static str; 6] = [
            "type",
            "format",
            "protocol_version",
            "schema_version",
            "tables",
            "rebuildable_omitted",
        ];
        assert(literals(allowed@) =~= header_fields());
        if let Err(e) = check_fields(object, allowed.as_slice(), line_number) {
            return Err(e);
        }
        if let Err(e) = check_exact_field(
            object,
            "format",
            "memkeeper.export.v0.1",
            "import format must be memkeeper.export.v0.1",
            line_number,
        ) {
            return Err(e);
        }
        if let Err(e) = check_exact_field(
            object,
            "protocol_version",
            "memkeeper.v0.1",
            "import protocol_version must be memkeeper.v0.1",
            line_number,
        ) {
            return Err(e);
        }
        let version: i64 = match import_i64_field(object, "schema_version", line_number) {
            Ok(n) => n,
            Err(e) => {
                return Err(e);
            },
        };
        let small: i32 = if -0x8000_0000 <= version && version <= 0x7fff_ffff {
            version as i32
        } else {
            0
        };
        let tables = match import_tables_for_schema(small, &self.known) {
            Ok(tables) => tables,
            Err(e) => {
                return Err(e);
            },
        };
        let names = names_of(&tables);
        if let Err(e) = check_list_field(
            object,
            "tables",
            &names,
            "import header table list mismatch",
            line_number,
        ) {
            return Err(e);
        }
        let rebuilt = rebuilt_names();
        if let Err(e) = check_list_field(
            object,
            "rebuildable_omitted",
            &rebuilt,
            "import header rebuildable_omitted mismatch",
            line_number,
        ) {
            return Err(e);
        }
        self.schema_version = small;
        self.table_counts = zero_counts(tables.len());
        self.tables = tables;
        self.header_seen = true;
        proof {
            assert(table_models(self.tables@).len() == self.tables@.len());
            lemma_total_zero(self.table_counts@);
            assert(self@.counts =~= after_header(old(self)@, object@, line_number as nat).counts);
        }
        Ok(())
    }

    /// Checks that rows may come.
    pub fn require_open_rows(&self, line_number: usize) -> (r: Result<(), Error>)
        ensures
            crate::error::verdict(r) == closed_fault(self@, line_number as nat),
    {
        if !self.header_seen {
            return Err(import_invalid(line_number, "import row appeared before header"));
        }
        if self.footer_seen {
            return Err(import_invalid(line_number, "import record appeared after footer"));
        }
        Ok(())
    }

    fn read_row(&self, object: &Vec<(String, ImportJson)>, line_number: usize) -> (r: Result<
        (usize, ImportInsert),
        Error,
    >)
        ensures
            match r {
                Ok((i, insert)) => {
                    &&& row_fault(self@, object@, line_number as nat) is None
                    &&& row_table(self@, object@, line_number as nat) is Ok
                    &&& row_table(self@, object@, line_number as nat)->Ok_0 == i
                    &&& i < self.tables@.len()
                    &&& inserts(
                        insert,
                        self@.tables[i as int],
                        object_field(object@, "data"@, line_number as nat)->Ok_0,
                        line_number as nat,
                    )
                },
                Err(e) => row_fault(self@, object@, line_number as nat) == Some(e@),
            },
    {
        if let Err(e) = self.require_open_rows(line_number) {
            return Err(e);
        }
        let allowed: [&'static str; 3] = ["type", "table", "data"];
        assert(literals(allowed@) =~= row_fields());
        if let Err(e) = check_fields(object, allowed.as_slice(), line_number) {
            return Err(e);
        }
        let name = match import_string_field(object, "table", line_number) {
            Ok(name) => name,
            Err(e) => {
                return Err(e);
            },
        };
        let i: usize = match find_table(&self.tables, name) {
            Some(i) => i,
            None => {
                let number = decimal_of(line_number as u64);
                return Err(
                    crate::error::invalid4(
                        "import JSONL line ",
                        number.as_str(),
                        ": unknown export table ",
                        name,
                    ),
                );
            },
        };
        if i < self.current_table_index {
            return Err(import_invalid(line_number, "import rows are not in export table order"));
        }
        let data = match import_object_field(object, "data", line_number) {
            Ok(data) => data,
            Err(e) => {
                return Err(e);
            },
        };
        match insert_import_row(&self.tables[i], data, line_number) {
            Ok(insert) => Ok((i, insert)),
            Err(e) => Err(e),
        }
    }

    /// Reads a row: rows come in the order of the tables.
    pub fn accept_row(&mut self, object: &Vec<(String, ImportJson)>, line_number: usize) -> (r:
        Result<ImportInsert, Error>)
        requires
            consistent(old(self)@),
        ensures
            consistent(final(self)@),
            match r {
                Ok(insert) => {
                    let i = row_table(old(self)@, object@, line_number as nat)->Ok_0;
                    &&& row_fault(old(self)@, object@, line_number as nat) is None
                    &&& 0 <= i < old(self)@.tables.len()
                    &&& final(self)@ == after_row(old(self)@, i)
                    &&& inserts(
                        insert,
                        old(self)@.tables[i],
                        object_field(object@, "data"@, line_number as nat)->Ok_0,
                        line_number as nat,
                    )
                },
                Err(e) => row_fault(old(self)@, object@, line_number as nat) == Some(e@) && final(self)@ == old(self)@,
            },
    {
        let (i, insert) = match self.read_row(object, line_number) {
            Ok(found) => found,
            Err(e) => {
                return Err(e);
            },
        };
        let ghost before = self@;
        proof {
            lemma_row_keeps(before, i as int);
        }
        self.current_table_index = i;
        let count: u64 = self.table_counts[i];
        self.table_counts.set(
            i,
            if count == u64::MAX {
                count
            } else {
                count + 1
            },
        );
        if self.row_count != u64::MAX {
            self.row_count = self.row_count + 1;
        }
        assert(self@.counts =~= after_row(before, i as int).counts);
        Ok(insert)
    }

    fn check_counts(&self, object: &Vec<(String, ImportJson)>, line_number: usize) -> (r: Result<
        (),
        Error,
    >)
        requires
            consistent(self@),
        ensures
            crate::error::verdict(r) == counts_fault(
                self@,
                object@,
                line_number as nat,
                self@.tables.len(),
            ),
    {
        let ghost s = self@;
        let ghost line = line_number as nat;
        assert(s.tables.len() == self.tables@.len());
        for i in 0..self.tables.len()
            invariant
                s == self@,
                consistent(s),
                line == line_number as nat,
                counts_fault(s, object@, line, i as nat) is None,
        {
            assert(s.tables[i as int].name == self.tables@[i as int].name@);
            assert(s.counts.len() == s.tables.len());
            match import_i64_field(object, self.tables[i].name.as_str(), line_number) {
                Err(e) => {
                    proof {
                        lemma_counts_prefix(s, object@, line, (i + 1) as nat, s.tables.len());
                    }
                    return Err(e);
                },
                Ok(count) => {
                    if count < 0 || count as u64 != self.table_counts[i] {
                        proof {
                            lemma_counts_prefix(s, object@, line, (i + 1) as nat, s.tables.len());
                        }
                        return Err(
                            import_invalid(line_number, "import footer table count mismatch"),
                        );
                    }
                },
            }
        }
        Ok(())
    }

    /// Reads the footer: it has to give the counts of the rows that were read.
    pub fn accept_footer(&mut self, object: &Vec<(String, ImportJson)>, line_number: usize) -> (r:
        Result<(), Error>)
        requires
            consistent(old(self)@),
        ensures
            consistent(final(self)@),
            match r {
                Ok(()) => footer_fault(old(self)@, object@, line_number as nat) is None && final(self)@ == after_footer(old(self)@),
                Err(e) => footer_fault(old(self)@, object@, line_number as nat) == Some(e@)
                    && final(self)@ == old(self)@,
            },
    {
        if let Err(e) = self.require_open_rows(line_number) {
            return Err(e);
        }
        let allowed: [&'static str; 3] = ["type", "row_count", "table_counts"];
        assert(literals(allowed@) =~= footer_fields());
        if let Err(e) = check_fields(object, allowed.as_slice(), line_number) {
            return Err(e);
        }
        match import_i64_field(object, "row_count", line_number) {
            Err(e) => {
                return Err(e);
            },
            Ok(n) => {
                if n < 0 || n as u64 != self.row_count {
                    return Err(import_invalid(line_number, "import footer row_count mismatch"));
                }
            },
        }
        let counts = match import_object_field(object, "table_counts", line_number) {
            Ok(counts) => counts,
            Err(e) => {
                return Err(e);
            },
        };
        if counts.len() != self.tables.len() {
            return Err(import_invalid(line_number, "import footer table_counts mismatch"));
        }
        if let Err(e) = self.check_counts(counts, line_number) {
            return Err(e);
        }
        self.footer_seen = true;
        Ok(())
    }
}

proof fn lemma_counts_prefix(
    s: ImportModel,
    object: Seq<(String, ImportJson)>,
    line: nat,
    n: nat,
    m: nat,
)
    requires
        n <= m,
        counts_fault(s, object, line, n) is Some,
    ensures
        counts_fault(s, object, line, m) == counts_fault(s, object, line, n),
    decreases m,
{
    if n < m {
        lemma_counts_prefix(s, object, line, n, (m - 1) as nat);
    }
}

/// What a record asks for.
pub open spec fn record_type(value: ImportJson, line: nat) -> Result<Seq<char>, Fault> {
    match object_of(value, "record"@, line) {
        Err(fault) => Err(fault),
        Ok(object) => text_field(object, "type"@, line),
    }
}

/// The fault of a record.
pub open spec fn record_fault(s: ImportModel, value: ImportJson, line: nat) -> Option<Fault> {
    first_of(
        depth_fault(value, line),
        match record_type(value, line) {
            Err(fault) => Some(fault),
            Ok(kind) => {
                let object = object_of(value, "record"@, line)->Ok_0;
                if kind == "header"@ {
                    header_fault(s, object, line)
                } else if kind == "row"@ {
                    row_fault(s, object, line)
                } else if kind == "footer"@ {
                    footer_fault(s, object, line)
                } else {
                    Some(line_fault(line, "unknown import record type"@))
                }
            },
        },
    )
}

/// After a record.
pub open spec fn after_record(s: ImportModel, value: ImportJson, line: nat) -> ImportModel {
    let object = object_of(value, "record"@, line)->Ok_0;
    let kind = record_type(value, line)->Ok_0;
    if kind == "header"@ {
        after_header(s, object, line)
    } else if kind == "row"@ {
        after_row(s, row_table(s, object, line)->Ok_0)
    } else {
        after_footer(s)
    }
}

/// Whether what comes back for a record is the row that it holds.
pub open spec fn record_inserts(
    s: ImportModel,
    value: ImportJson,
    line: nat,
    insert: Option<ImportInsert>,
) -> bool {
    let object = object_of(value, "record"@, line)->Ok_0;
    if record_type(value, line)->Ok_0 == "row"@ {
        insert is Some && inserts(
            insert->0,
            s.tables[row_table(s, object, line)->Ok_0],
            object_field(object, "data"@, line)->Ok_0,
            line,
        )
    } else {
        insert is None
    }
}

/// Reads a record: the row to insert, where it holds one.
pub fn process_import_record(state: &mut ImportState, value: &ImportJson, line_number: usize) -> (r:
    Result<Option<ImportInsert>, Error>)
    requires
        consistent(old(state)@),
    ensures
        consistent(final(state)@),
        match r {
            Ok(insert) => {
                &&& record_fault(old(state)@, *value, line_number as nat) is None
                &&& final(state)@ == after_record(old(state)@, *value, line_number as nat)
                &&& record_inserts(old(state)@, *value, line_number as nat, insert)
            },
            Err(e) => record_fault(old(state)@, *value, line_number as nat) == Some(e@) && final(state)@ == old(state)@,
        },
{
    proof {
        reveal_strlit("header");
        reveal_strlit("row");
        reveal_strlit("footer");
        assert("header"@[0] != "footer"@[0]);
        assert("row"@.len() == 3);
    }
    if let Err(e) = validate_import_json_depth(value, line_number) {
        return Err(e);
    }
    let object = match import_object(value, line_number, "record") {
        Ok(object) => object,
        Err(e) => {
            return Err(e);
        },
    };
    let kind = match import_string_field(object, "type", line_number) {
        Ok(kind) => kind,
        Err(e) => {
            return Err(e);
        },
    };
    if text_eq(kind, "header") {
        match state.accept_header(object, line_number) {
            Ok(()) => Ok(None),
            Err(e) => Err(e),
        }
    } else if text_eq(kind, "row") {
        match state.accept_row(object, line_number) {
            Ok(insert) => Ok(Some(insert)),
            Err(e) => Err(e),
        }
    } else if text_eq(kind, "footer") {
        match state.accept_footer(object, line_number) {
            Ok(()) => Ok(None),
            Err(e) => Err(e),
        }
    } else {
        Err(import_invalid(line_number, "unknown import record type"))
    }
}

/// Once the footer was read, no record is accepted.
pub proof fn law_footer_ends_an_archive(s: ImportModel, value: ImportJson, line: nat)
    requires
        consistent(s),
        s.footer_seen,
    ensures
        record_fault(s, value, line) is Some,
{
}

/// Before the header was read, only a header is accepted.
pub proof fn law_archive_begins_with_header(s: ImportModel, value: ImportJson, line: nat)
    requires
        !s.header_seen,
        record_fault(s, value, line) is None,
    ensures
        record_type(value, line) is Ok,
        record_type(value, line)->Ok_0 == "header"@,
        after_record(s, value, line).header_seen,
{
}

/// An accepted footer gives as many rows as all tables together have.
pub proof fn law_footer_counts_all_rows(
    s: ImportModel,
    object: Seq<(String, ImportJson)>,
    line: nat,
)
    requires
        consistent(s),
        footer_fault(s, object, line) is None,
    ensures
        integer_field(object, "row_count"@, line) is Ok,
        integer_field(object, "row_count"@, line)->Ok_0 == total(s.counts),
{
}

/// The number of rows of a table.
pub struct ExportTableReport {
    /// Name of the table.
    pub name: String,
    /// Rows.
    pub rows: u64,
}

/// The models of numbers of rows.
pub open spec fn report_models(list: Seq<ExportTableReport>) -> Seq<(Seq<char>, u64)> {
    list.map_values(|t: ExportTableReport| (t.name@, t.rows))
}

/// The numbers of rows of a state.
pub open spec fn table_rows(s: ImportModel) -> Seq<(Seq<char>, u64)> {
    Seq::new(s.tables.len(), |i: int| (s.tables[i].name, s.counts[i]))
}

/// Reports the number of rows of each table.
pub fn table_reports(state: &ImportState) -> (r: Vec<ExportTableReport>)
    requires
        consistent(state@),
    ensures
        report_models(r@) == table_rows(state@),
{
    let ghost wanted = table_rows(state@);
    let mut out: Vec<ExportTableReport> = Vec::new();
    assert(report_models(out@) =~= wanted.take(0));
    assert(state@.tables.len() == state.tables@.len());
    for i in 0..state.tables.len()
        invariant
            consistent(state@),
            state@.tables.len() == state.tables@.len(),
            wanted == table_rows(state@),
            report_models(out@) == wanted.take(i as int),
    {
        let ghost before = out@;
        out.push(
            ExportTableReport { name: state.tables[i].name.clone(), rows: state.table_counts[i] },
        );
        assert(report_models(out@) =~= report_models(before).push(wanted[i as int]));
        assert(wanted.take(i + 1) =~= wanted.take(i as int).push(wanted[i as int]));
    }
    assert(wanted.take(state.tables@.len() as int) =~= wanted);
    out
}

/// Reads the lines of an archive one after the other.
pub struct ArchiveReader {
    /// How far the archive has been read.
    pub state: ImportState,
    /// Digest of what was read.
    pub hasher: Sha256,
    /// Bytes read.
    pub bytes: u64,
    /// Lines read.
    pub line_number: usize,
}

/// A sum that stays at the greatest number.
pub open spec fn capped_sum(a: int, b: int) -> int {
    if a + b > u64::MAX {
        u64::MAX as int
    } else {
        a + b
    }
}

/// The number of the next line.
pub open spec fn next_line(n: usize) -> usize {
    if n == usize::MAX {
        n
    } else {
        (n + 1) as usize
    }
}

impl ArchiveReader {
    /// What holds of every reader.
    pub open spec fn wf(&self) -> bool {
        consistent(self.state@) && self.hasher.wf()
    }

    /// Begins to read an archive.
    pub fn new(known: Vec<TableSpec>) -> (r: Self)
        ensures
            r.wf(),
            r.state@ == initial_state(table_models(known@)),
            r.hasher@ == Seq::<u8>::empty(),
            r.bytes == 0,
            r.line_number == 0,
    {
        ArchiveReader {
            state: ImportState::new(known),
            hasher: Sha256::new(),
            bytes: 0,
            line_number: 0,
        }
    }

    /// Reads one line, given how its text parses: the row to insert, where it
    /// holds one.
    pub fn process_import_line(&mut self, raw: &[u8], parsed: &Result<ImportJson, String>) -> (r:
        Result<Option<ImportInsert>, Error>)
        requires
            old(self).wf(),
        ensures
            final(self).wf(),
            ({
                let line = next_line(old(self).line_number) as nat;
                match r {
                    Ok(insert) => {
                        &&& *parsed is Ok
                        &&& record_fault(old(self).state@, parsed->Ok_0, line) is None
                        &&& final(self).state@ == after_record(
                            old(self).state@,
                            parsed->Ok_0,
                            line,
                        )
                        &&& record_inserts(old(self).state@, parsed->Ok_0, line, insert)
                        &&& final(self).hasher@ == old(self).hasher@ + raw@
                        &&& final(self).bytes == capped_sum(
                            old(self).bytes as int,
                            raw@.len() as int,
                        )
                        &&& final(self).line_number == line
                    },
                    Err(e) => match *parsed {
                        Ok(value) => record_fault(old(self).state@, value, line) == Some(e@),
                        Err(error) => e@ == line_fault(line, error@),
                    },
                }
            }),
    {
        if self.line_number != usize::MAX {
            self.line_number = self.line_number + 1;
        }
        let line_number: usize = self.line_number;
        let n: u64 = raw.len() as u64;
        self.bytes = if n > u64::MAX - self.bytes {
            u64::MAX
        } else {
            self.bytes + n
        };
        self.hasher.update(raw);
        match parsed {
            Ok(value) => process_import_record(&mut self.state, value, line_number),
            Err(error) => Err(import_invalid(line_number, error.as_str())),
        }
    }

    /// Ends the reading: an archive ends with its footer.
    pub fn finish(self) -> (r: Result<ParsedImportFile, Error>)
        requires
            self.wf(),
        ensures
            match r {
                Ok(parsed) => {
                    &&& self.state@.footer_seen
                    &&& parsed.schema_version == self.state@.schema_version
                    &&& report_models(parsed.tables@) == table_rows(self.state@)
                    &&& parsed.row_count == self.state@.row_count
                    &&& parsed.bytes == self.bytes
                    &&& parsed.sha256@ == hex_text(sha256(self.hasher@))
                },
                Err(e) => !self.state@.footer_seen && e@ == Fault::InvalidRequest(
                    "import file missing footer"@,
                ),
            },
    {
        if !self.state.footer_seen {
            return Err(invalid("import file missing footer"));
        }
        let tables = table_reports(&self.state);
        Ok(
            ParsedImportFile {
                schema_version: self.state.schema_version,
                tables,
                row_count: self.state.row_count,
                bytes: self.bytes,
                sha256: self.hasher.finish_hex(),
            },
        )
    }
}

/// What was read from an archive.
pub struct ParsedImportFile {
    /// Schema of the archive.
    pub schema_version: i32,
    /// Rows of each table.
    pub tables: Vec<ExportTableReport>,
    /// Rows.
    pub row_count: u64,
    /// Bytes.
    pub bytes: u64,
    /// Digest.
    pub sha256: String,
}

} // verus!
