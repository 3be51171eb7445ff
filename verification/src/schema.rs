//! The schema of a store: what a store has to hold, and what may be opened.

use vstd::prelude::*;

use crate::error::{concat, invalid3, signed_decimal, signed_decimal_of, verdict, Error, Fault};
use crate::json::text_of_string;
use crate::text::{
    begins_with, chars_of, decimal, decimal_of, lines_of, list_contains, matches_at, occurs_at,
    text_eq, text_lines, trim_start, views,
};
use crate::validate::is_digit;
use crate::vocabulary::{DEFAULT_SPACE, MAX_SEMANTIC_EMBEDDING_DIMS, SCHEMA_VERSION};

verus! {

/// Required table names.
pub const REQUIRED_TABLES: [&'static str; 19] = [
    "schema_migrations",
    "config_kv",
    "spaces",
    "silos",
    "source_episodes",
    "memories",
    "memory_versions",
    "memory_representations",
    "memory_events",
    "memory_tags",
    "memory_links",
    "conflicts",
    "entities",
    "entity_aliases",
    "relationships",
    "processing_jobs",
    "embeddings",
    "dream_runs",
    "probe_runs",
];

/// Required full-text table names.
pub const REQUIRED_FTS_TABLES: [&'static str; 3] = [
    "memory_fts",
    "memory_fts_public",
    "source_episode_fts",
];

/// The protocol that this library speaks.
pub const PROTOCOL_VERSION: &'static str = "memkeeper.v0.1";

/// What a database says of itself.
pub struct SchemaFacts {
    /// Its user version.
    pub user_version: i32,
    /// The names of its tables and views.
    pub tables: Vec<String>,
    /// Whether the migration to its user version is recorded.
    pub migration_recorded: bool,
    /// Its configured schema version.
    pub schema_version: Option<String>,
    /// Its configured protocol version.
    pub protocol_version: Option<String>,
    /// Its configured default space.
    pub default_space: Option<String>,
    /// Whether the default space is there.
    pub seeded_space: bool,
}

/// Whether all of the tables are there.
pub open spec fn has_tables(tables: Seq<Seq<char>>, wanted: Seq<&'static str>) -> bool {
    forall|i: int| 0 <= i < wanted.len() ==> tables.contains(#[trigger] wanted[i]@)
}

/// Whether all of the tables are there but for the one that the sixth version
/// brought.
pub open spec fn has_older_tables(tables: Seq<Seq<char>>, wanted: Seq<&'static str>) -> bool {
    forall|i: int|
        0 <= i < wanted.len() && (#[trigger] wanted[i])@ != "memory_representations"@
            ==> tables.contains(wanted[i]@)
}

fn tables_present(tables: &Vec<String>, wanted: &[&'static str]) -> (r: bool)
    ensures
        r == has_tables(views(tables@), wanted@),
{
    for i in 0..wanted.len()
        invariant
            forall|k: int| 0 <= k < i ==> views(tables@).contains(#[trigger] wanted@[k]@),
    {
        if !list_contains(tables.as_slice(), wanted[i]) {
            assert(!views(tables@).contains(wanted@[i as int]@));
            return false;
        }
    }
    true
}

fn older_tables_present(tables: &Vec<String>, wanted: &[&'static str]) -> (r: bool)
    ensures
        r == has_older_tables(views(tables@), wanted@),
{
    for i in 0..wanted.len()
        invariant
            forall|k: int|
                0 <= k < i && (#[trigger] wanted@[k])@ != "memory_representations"@ ==> views(
                    tables@,
                ).contains(wanted@[k]@),
    {
        if !text_eq(wanted[i], "memory_representations") && !list_contains(
            tables.as_slice(),
            wanted[i],
        ) {
            assert(!views(tables@).contains(wanted@[i as int]@));
            return false;
        }
    }
    true
}

/// The number that digits make.
pub open spec fn digits_value(s: Seq<char>) -> nat
    decreases s.len(),
{
    if s.len() == 0 {
        0
    } else {
        digits_value(s.drop_last()) * 10 + (s.last() as int - '0' as int) as nat
    }
}

/// Whether a text is one or more digits.
pub open spec fn all_digits(s: Seq<char>) -> bool {
    s.len() > 0 && forall|i: int| 0 <= i < s.len() ==> is_digit(#[trigger] s[i])
}

/// The whole number of 32 bits that a text writes, with an optional sign; zero
/// where it writes none.
pub open spec fn small_number(s: Seq<char>) -> int {
    let negative = s.len() > 0 && s[0] == '-';
    let digits = if s.len() > 0 && (s[0] == '-' || s[0] == '+') {
        s.skip(1)
    } else {
        s
    };
    let value = if negative {
        -(digits_value(digits) as int)
    } else {
        digits_value(digits) as int
    };
    if all_digits(digits) && i32::MIN <= value <= i32::MAX {
        value
    } else {
        0
    }
}

proof fn lemma_digits_value_grows(s: Seq<char>, n: int)
    requires
        all_digits(s),
        0 <= n <= s.len(),
    ensures
        digits_value(s.take(n)) <= digits_value(s),
    decreases s.len() - n,
{
    if n < s.len() {
        lemma_digits_value_grows(s, n + 1);
        assert(s.take(n + 1).drop_last() =~= s.take(n));
        assert(is_digit(s[n]));
    } else {
        assert(s.take(n) =~= s);
    }
}

/// Reads a whole number of 32 bits; zero where the text writes none.
pub fn parse_small_number(text: &str) -> (r: i32)
    ensures
        r == small_number(text@),
{
    let chars = chars_of(text);
    let negative: bool = chars.len() > 0 && chars[0] == '-';
    let signed: bool = chars.len() > 0 && (chars[0] == '-' || chars[0] == '+');
    let start: usize = if signed {
        1
    } else {
        0
    };
    let ghost digits = if signed {
        text@.skip(1)
    } else {
        text@
    };
    assert(digits =~= text@.skip(start as int));
    if start == chars.len() {
        return 0;
    }
    for i in start..chars.len()
        invariant
            chars@ == text@,
            start <= chars@.len(),
            digits == text@.skip(start as int),
            digits == if text@.len() > 0 && (text@[0] == '-' || text@[0] == '+') {
                text@.skip(1)
            } else {
                text@
            },
            forall|k: int| 0 <= k < i - start ==> is_digit(#[trigger] digits[k]),
    {
        assert(digits[i - start] == chars@[i as int]);
        if !('0' <= chars[i] && chars[i] <= '9') {
            assert(!is_digit(digits[i - start]));
            return 0;
        }
    }
    assert(all_digits(digits));
    let mut value: i64 = 0;
    assert(digits.take(0) =~= Seq::empty());
    for i in start..chars.len()
        invariant
            chars@ == text@,
            start <= chars@.len(),
            digits == text@.skip(start as int),
            all_digits(digits),
            signed == (text@.len() > 0 && (text@[0] == '-' || text@[0] == '+')),
            negative == (text@.len() > 0 && text@[0] == '-'),
            digits == if signed {
                text@.skip(1)
            } else {
                text@
            },
            value == digits_value(digits.take(i - start)),
            0 <= value <= 0x8000_0000,
    {
        proof {
            let k = i - start;
            assert(digits.take(k + 1).drop_last() =~= digits.take(k));
            assert(digits.take(k + 1).last() == chars@[i as int]);
            assert(is_digit(digits[k]));
            lemma_digits_value_grows(digits, k + 1);
        }
        value = value * 10 + (chars[i] as u32 - '0' as u32) as i64;
        if value > 0x8000_0000 {
            return 0;
        }
    }
    assert(digits.take(digits.len() as int) =~= digits);
    let result: i64 = if negative {
        -value
    } else {
        value
    };
    if -0x8000_0000 <= result && result <= 0x7fff_ffff {
        result as i32
    } else {
        0
    }
}

/// The fault of a database that should be a store.
pub open spec fn initialized_fault(path: Seq<char>, facts: SchemaFacts) -> Option<Fault> {
    let missing = Some(Fault::NotInitialized(path));
    let tables = views(facts.tables@);
    if facts.user_version == 0 {
        missing
    } else if facts.user_version != SCHEMA_VERSION {
        Some(Fault::SchemaMismatch(SCHEMA_VERSION as int, facts.user_version as int))
    } else if !has_tables(tables, REQUIRED_TABLES@) || !has_tables(tables, REQUIRED_FTS_TABLES@) {
        missing
    } else if !facts.migration_recorded || facts.schema_version is None {
        missing
    } else if facts.schema_version->0@ != "6"@ {
        Some(
            Fault::SchemaMismatch(SCHEMA_VERSION as int, small_number(facts.schema_version->0@)),
        )
    } else if text_of_string(facts.protocol_version) != Some(PROTOCOL_VERSION@) {
        missing
    } else if text_of_string(facts.default_space) != Some(DEFAULT_SPACE@) {
        missing
    } else if !facts.seeded_space {
        missing
    } else {
        None
    }
}

fn not_initialized(path: &str) -> (r: Error)
    ensures
        r@ == Fault::NotInitialized(path@),
{
    Error::NotInitialized { path: path.to_owned() }
}

fn is_text(value: &Option<String>, text: &str) -> (r: bool)
    ensures
        r == (text_of_string(*value) == Some(text@)),
{
    match value {
        Some(found) => text_eq(found.as_str(), text),
        None => false,
    }
}

/// Checks that a database is a store of the schema that this library works with.
pub fn validate_initialized(path: &str, facts: &SchemaFacts) -> (r: Result<(), Error>)
    ensures
        verdict(r) == initialized_fault(path@, *facts),
{
    if facts.user_version == 0 {
        return Err(not_initialized(path));
    }
    if facts.user_version != SCHEMA_VERSION {
        return Err(
            Error::SchemaMismatch { expected: SCHEMA_VERSION, actual: facts.user_version },
        );
    }
    if !tables_present(&facts.tables, &REQUIRED_TABLES) || !tables_present(
        &facts.tables,
        &REQUIRED_FTS_TABLES,
    ) {
        return Err(not_initialized(path));
    }
    if !facts.migration_recorded {
        return Err(not_initialized(path));
    }
    match &facts.schema_version {
        None => {
            return Err(not_initialized(path));
        },
        Some(version) => {
            if !text_eq(version.as_str(), "6") {
                return Err(
                    Error::SchemaMismatch {
                        expected: SCHEMA_VERSION,
                        actual: parse_small_number(version.as_str()),
                    },
                );
            }
        },
    }
    if !is_text(&facts.protocol_version, PROTOCOL_VERSION) {
        return Err(not_initialized(path));
    }
    if !is_text(&facts.default_space, DEFAULT_SPACE) {
        return Err(not_initialized(path));
    }
    if !facts.seeded_space {
        return Err(not_initialized(path));
    }
    Ok(())
}

/// Whether a database is a store of an earlier schema.
pub open spec fn older_store(facts: SchemaFacts) -> bool {
    &&& 0 < facts.user_version < SCHEMA_VERSION
    &&& has_older_tables(views(facts.tables@), REQUIRED_TABLES@)
    &&& has_tables(views(facts.tables@), REQUIRED_FTS_TABLES@)
    &&& facts.migration_recorded
    &&& text_of_string(facts.schema_version) == Some(signed_decimal(facts.user_version as int))
    &&& text_of_string(facts.protocol_version) == Some(PROTOCOL_VERSION@)
    &&& text_of_string(facts.default_space) == Some(DEFAULT_SPACE@)
}

/// Tests [`older_store`].
pub fn older_schema_is_memkeeper(facts: &SchemaFacts) -> (r: bool)
    ensures
        r == older_store(*facts),
{
    if facts.user_version <= 0 || facts.user_version >= SCHEMA_VERSION {
        return false;
    }
    if !older_tables_present(&facts.tables, &REQUIRED_TABLES) || !tables_present(
        &facts.tables,
        &REQUIRED_FTS_TABLES,
    ) {
        return false;
    }
    let number = signed_decimal_of(facts.user_version as i64);
    facts.migration_recorded && is_text(&facts.schema_version, number.as_str()) && is_text(
        &facts.protocol_version,
        PROTOCOL_VERSION,
    ) && is_text(&facts.default_space, DEFAULT_SPACE)
}

/// What an existing file turned out to be.
#[derive(Debug, Clone, Copy, PartialEq, Eq, Structural)]
pub enum ExistingStoreInspection {
    /// A store of this schema.
    Compatible,
    /// A store of an earlier schema.
    OlderSchema(i32),
    /// No store.
    Unrecognized,
    /// A store of a later schema.
    FutureSchema(i32),
}

/// What a database turns out to be.
pub open spec fn inspection(path: Seq<char>, facts: SchemaFacts) -> ExistingStoreInspection {
    if facts.user_version > SCHEMA_VERSION {
        ExistingStoreInspection::FutureSchema(facts.user_version)
    } else if facts.user_version < SCHEMA_VERSION {
        if older_store(facts) {
            ExistingStoreInspection::OlderSchema(facts.user_version)
        } else {
            ExistingStoreInspection::Unrecognized
        }
    } else {
        match initialized_fault(path, facts) {
            None => ExistingStoreInspection::Compatible,
            Some(Fault::SchemaMismatch(_, actual)) => ExistingStoreInspection::FutureSchema(
                actual as i32,
            ),
            Some(_) => ExistingStoreInspection::Unrecognized,
        }
    }
}

/// Tells what a database is.
pub fn inspect_opened_store(path: &str, facts: &SchemaFacts) -> (r: ExistingStoreInspection)
    ensures
        r == inspection(path@, *facts),
{
    if facts.user_version > SCHEMA_VERSION {
        return ExistingStoreInspection::FutureSchema(facts.user_version);
    }
    if facts.user_version < SCHEMA_VERSION {
        return if older_schema_is_memkeeper(facts) {
            ExistingStoreInspection::OlderSchema(facts.user_version)
        } else {
            ExistingStoreInspection::Unrecognized
        };
    }
    match validate_initialized(path, facts) {
        Ok(_) => ExistingStoreInspection::Compatible,
        Err(Error::SchemaMismatch { actual, expected: _ }) => ExistingStoreInspection::FutureSchema(
            actual,
        ),
        Err(_) => ExistingStoreInspection::Unrecognized,
    }
}

/// What is to be done next to open a store.
#[derive(Debug, Clone, Copy, PartialEq, Eq, Structural)]
pub enum OpenStep {
    /// Open it.
    Open,
    /// Bring it to this schema, then open it.
    Migrate,
    /// Inspect a copy of it first.
    InspectCopy,
}

/// The next step of opening a store for reading, after it was inspected in place,
/// and after a copy of it was inspected where that was needed.
pub open spec fn read_step(
    path: Seq<char>,
    exists: bool,
    in_place: ExistingStoreInspection,
    copy: Option<ExistingStoreInspection>,
) -> Result<OpenStep, Fault> {
    let found = if in_place == ExistingStoreInspection::Unrecognized {
        copy
    } else {
        Some(in_place)
    };
    if !exists {
        Err(Fault::NotInitialized(path))
    } else {
        match found {
            None => Ok(OpenStep::InspectCopy),
            Some(ExistingStoreInspection::Compatible) => Ok(OpenStep::Open),
            Some(ExistingStoreInspection::OlderSchema(actual)) => Err(
                Fault::SchemaMismatch(SCHEMA_VERSION as int, actual as int),
            ),
            Some(ExistingStoreInspection::FutureSchema(actual)) => Err(
                Fault::SchemaMismatch(SCHEMA_VERSION as int, actual as int),
            ),
            Some(ExistingStoreInspection::Unrecognized) => Err(Fault::NotInitialized(path)),
        }
    }
}

fn found_inspection(in_place: ExistingStoreInspection, copy: Option<ExistingStoreInspection>) -> (r:
    Option<ExistingStoreInspection>)
    ensures
        r == if in_place == ExistingStoreInspection::Unrecognized {
            copy
        } else {
            Some(in_place)
        },
{
    match in_place {
        ExistingStoreInspection::Unrecognized => copy,
        other => Some(other),
    }
}

/// Decides the next step of opening a store for reading.
pub fn open_initialized_read_fast(
    path: &str,
    exists: bool,
    in_place: ExistingStoreInspection,
    copy: Option<ExistingStoreInspection>,
) -> (r: Result<OpenStep, Error>)
    ensures
        match r {
            Ok(step) => read_step(path@, exists, in_place, copy) == Ok::<OpenStep, Fault>(step),
            Err(e) => read_step(path@, exists, in_place, copy) == Err::<OpenStep, Fault>(e@),
        },
{
    if !exists {
        return Err(not_initialized(path));
    }
    match found_inspection(in_place, copy) {
        None => Ok(OpenStep::InspectCopy),
        Some(ExistingStoreInspection::Compatible) => Ok(OpenStep::Open),
        Some(ExistingStoreInspection::OlderSchema(actual)) => Err(
            Error::SchemaMismatch { expected: SCHEMA_VERSION, actual },
        ),
        Some(ExistingStoreInspection::FutureSchema(actual)) => Err(
            Error::SchemaMismatch { expected: SCHEMA_VERSION, actual },
        ),
        Some(ExistingStoreInspection::Unrecognized) => Err(not_initialized(path)),
    }
}

/// The next step of opening a store for writing: as for reading, but an earlier
/// schema is brought up.
pub open spec fn write_step(
    path: Seq<char>,
    exists: bool,
    in_place: ExistingStoreInspection,
    copy: Option<ExistingStoreInspection>,
) -> Result<OpenStep, Fault> {
    let found = if in_place == ExistingStoreInspection::Unrecognized {
        copy
    } else {
        Some(in_place)
    };
    if exists && found is Some && found->0 is OlderSchema {
        Ok(OpenStep::Migrate)
    } else {
        read_step(path, exists, in_place, copy)
    }
}

/// Decides the next step of opening a store for writing.
pub fn open_initialized_write(
    path: &str,
    exists: bool,
    in_place: ExistingStoreInspection,
    copy: Option<ExistingStoreInspection>,
) -> (r: Result<OpenStep, Error>)
    ensures
        match r {
            Ok(step) => write_step(path@, exists, in_place, copy) == Ok::<OpenStep, Fault>(step),
            Err(e) => write_step(path@, exists, in_place, copy) == Err::<OpenStep, Fault>(e@),
        },
{
    if exists {
        if let Some(ExistingStoreInspection::OlderSchema(_)) = found_inspection(in_place, copy) {
            return Ok(OpenStep::Migrate);
        }
    }
    open_initialized_read_fast(path, exists, in_place, copy)
}

/// Whether initializing a store may go on with an existing path: an empty file or
/// a store is fine, any other database is left alone.
pub fn preflight_init_path(
    path: &str,
    empty: bool,
    found: ExistingStoreInspection,
) -> (r: Result<(), Error>)
    ensures
        verdict(r) == if empty {
            None
        } else {
            match found {
                ExistingStoreInspection::Compatible => None,
                ExistingStoreInspection::OlderSchema(_) => None,
                ExistingStoreInspection::Unrecognized => Some(
                    Fault::UnsafeExistingDatabase(path@),
                ),
                ExistingStoreInspection::FutureSchema(actual) => Some(
                    Fault::SchemaMismatch(SCHEMA_VERSION as int, actual as int),
                ),
            }
        },
{
    if empty {
        return Ok(());
    }
    match found {
        ExistingStoreInspection::Compatible => Ok(()),
        ExistingStoreInspection::OlderSchema(_) => Ok(()),
        ExistingStoreInspection::Unrecognized => Err(
            Error::UnsafeExistingDatabase { path: path.to_owned() },
        ),
        ExistingStoreInspection::FutureSchema(actual) => Err(
            Error::SchemaMismatch { expected: SCHEMA_VERSION, actual },
        ),
    }
}

/// Checks the journal mode of a new store.
pub fn ensure_wal(path: &str, journal_mode: &str) -> (r: Result<(), Error>)
    ensures
        verdict(r) == if journal_mode@ == "wal"@ {
            None
        } else {
            Some(Fault::WalUnavailable(path@, journal_mode@))
        },
{
    if text_eq(journal_mode, "wal") {
        Ok(())
    } else {
        Err(
            Error::WalUnavailable {
                path: path.to_owned(),
                journal_mode: journal_mode.to_owned(),
            },
        )
    }
}

/// The table of vectors of the dimension.
pub fn semantic_table_for_dims(dims: usize) -> (r: Result<String, Error>)
    ensures
        match r {
            Ok(table) => 1 <= dims <= MAX_SEMANTIC_EMBEDDING_DIMS && table@ == "memory_vec_"@
                + decimal(dims as nat),
            Err(e) => !(1 <= dims <= MAX_SEMANTIC_EMBEDDING_DIMS) && e@ == Fault::InvalidRequest(
                "embedding dimension "@ + decimal(dims as nat)
                    + " is not supported (expected 1..=8192)"@,
            ),
        },
{
    let number = decimal_of(dims as u64);
    if dims < 1 || dims > MAX_SEMANTIC_EMBEDDING_DIMS {
        return Err(
            invalid3(
                "embedding dimension ",
                number.as_str(),
                " is not supported (expected 1..=8192)",
            ),
        );
    }
    Ok(concat("memory_vec_", number.as_str()))
}

/// The table of document vectors of the dimension.
pub fn source_episode_vector_table(dimensions: usize) -> (r: String)
    ensures
        r@ == "source_episode_vec_"@ + decimal(dimensions as nat),
{
    let number = decimal_of(dimensions as u64);
    concat("source_episode_vec_", number.as_str())
}

/// Whether a text occurs in another.
pub open spec fn mentions(text: Seq<char>, part: Seq<char>) -> bool {
    exists|i: int| 0 <= i <= text.len() && #[trigger] occurs_at(text, part, i)
}

fn text_mentions(text: &Vec<char>, part: &str) -> (r: bool)
    ensures
        r == mentions(text@, part@),
{
    let wanted = chars_of(part);
    let mut i: usize = 0;
    while i <= text.len()
        invariant
            wanted@ == part@,
            i <= text@.len() + 1,
            forall|k: int| 0 <= k < i ==> !#[trigger] occurs_at(text@, part@, k),
        decreases text@.len() + 1 - i,
    {
        if matches_at(text.as_slice(), wanted.as_slice(), i) {
            return true;
        }
        if i == text.len() {
            return false;
        }
        i = i + 1;
    }
    false
}

/// Whether a text occurs in another.
pub fn contains_text(text: &str, part: &str) -> (r: bool)
    ensures
        r == mentions(text@, part@),
{
    let chars = chars_of(text);
    text_mentions(&chars, part)
}

fn mentions_all(text: &Vec<char>, names: &[&'static str]) -> (r: bool)
    ensures
        r == (forall|i: int| 0 <= i < names@.len() ==> mentions(text@, #[trigger] names@[i]@)),
{
    for i in 0..names.len()
        invariant
            forall|k: int| 0 <= k < i ==> mentions(text@, #[trigger] names@[k]@),
    {
        if !text_mentions(text, names[i]) {
            assert(!mentions(text@, names@[i as int]@));
            return false;
        }
    }
    true
}

/// Whether a schema text has everything that a store needs.
pub open spec fn complete_schema(schema_sql: Seq<char>) -> bool {
    &&& forall|i: int|
        0 <= i < REQUIRED_TABLES@.len() ==> mentions(schema_sql, #[trigger] REQUIRED_TABLES@[i]@)
    &&& forall|i: int|
        0 <= i < REQUIRED_FTS_TABLES@.len() ==> mentions(
            schema_sql,
            #[trigger] REQUIRED_FTS_TABLES@[i]@,
        )
    &&& mentions(schema_sql, DEFAULT_SPACE@)
    &&& mentions(schema_sql, "PRAGMA user_version = 1"@)
}

/// Return true if the schema text and the last migration contain the objects
/// that a store needs.
pub fn schema_mentions_required_objects(schema_sql: &str, finalize_sql: &str) -> (r: bool)
    ensures
        r == (complete_schema(schema_sql@) && mentions(finalize_sql@, "PRAGMA user_version = 6"@)),
{
    let chars = chars_of(schema_sql);
    mentions_all(&chars, &REQUIRED_TABLES) && mentions_all(&chars, &REQUIRED_FTS_TABLES)
        && text_mentions(&chars, DEFAULT_SPACE) && text_mentions(&chars, "PRAGMA user_version = 1")
        && contains_text(finalize_sql, "PRAGMA user_version = 6")
}

/// Whether a line sets something that a transaction cannot set.
pub open spec fn session_pragma(line: Seq<char>) -> bool {
    let start = trim_start(line);
    begins_with(start, "PRAGMA foreign_keys"@) || begins_with(start, "PRAGMA journal_mode"@)
        || begins_with(start, "PRAGMA busy_timeout"@)
}

/// Lines without those that a transaction cannot run, each ended by a newline.
pub open spec fn transactional(lines: Seq<Seq<char>>) -> Seq<char>
    decreases lines.len(),
{
    if lines.len() == 0 {
        Seq::empty()
    } else {
        let before = transactional(lines.drop_last());
        if session_pragma(lines.last()) {
            before
        } else {
            before + lines.last() + "\n"@
        }
    }
}

fn is_session_pragma(line: &str) -> (r: bool)
    ensures
        r == session_pragma(line@),
{
    let start = crate::text::trim_left(line);
    crate::text::strip_prefix(start, "PRAGMA foreign_keys").is_some()
        || crate::text::strip_prefix(start, "PRAGMA journal_mode").is_some()
        || crate::text::strip_prefix(start, "PRAGMA busy_timeout").is_some()
}

/// The lines of a schema that run inside a transaction.
pub fn transactional_schema_sql(schema_sql: &str) -> (r: String)
    ensures
        r@ == transactional(text_lines(schema_sql@)),
{
    let lines = lines_of(schema_sql);
    let ghost all = views(lines@);
    let mut out = String::new();
    assert(out@ =~= transactional(all.take(0)));
    for i in 0..lines.len()
        invariant
            all == views(lines@),
            out@ == transactional(all.take(i as int)),
    {
        assert(all.take(i + 1).drop_last() =~= all.take(i as int));
        assert(all.take(i + 1).last() == lines@[i as int]@);
        if !is_session_pragma(lines[i].as_str()) {
            out.append(lines[i].as_str());
            out.append("\n");
        }
    }
    assert(all.take(lines@.len() as int) =~= all);
    out
}

/// A store is what it says it is: a database that passes the check inspects as
/// compatible, and only such a one opens for reading.
pub proof fn law_only_stores_open(path: Seq<char>, facts: SchemaFacts)
    requires
        facts.user_version == SCHEMA_VERSION,
    ensures
        (inspection(path, facts) == ExistingStoreInspection::Compatible) <==> initialized_fault(
            path,
            facts,
        ) is None,
        read_step(path, true, inspection(path, facts), Some(inspection(path, facts))) == Ok::<
            OpenStep,
            Fault,
        >(OpenStep::Open) <==> initialized_fault(path, facts) is None,
{
}

/// A store of an earlier schema is never read as it is, but brought up on a
/// write; one of a later schema is opened for neither.
pub proof fn law_schemas_are_respected(path: Seq<char>, actual: i32)
    ensures
        read_step(path, true, ExistingStoreInspection::OlderSchema(actual), None) == Err::<
            OpenStep,
            Fault,
        >(Fault::SchemaMismatch(SCHEMA_VERSION as int, actual as int)),
        write_step(path, true, ExistingStoreInspection::OlderSchema(actual), None) == Ok::<
            OpenStep,
            Fault,
        >(OpenStep::Migrate),
        read_step(path, true, ExistingStoreInspection::FutureSchema(actual), None) is Err,
        write_step(path, true, ExistingStoreInspection::FutureSchema(actual), None) is Err,
{
}

} // verus!
