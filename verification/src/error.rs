//! Store errors and the fault each of them stands for.

use vstd::prelude::*;

use crate::text::decimal_of;

verus! {

/// What a database failure was about.
#[derive(Debug, Clone, Copy, PartialEq, Eq, Structural)]
pub enum DatabaseFailure {
    /// Another connection holds the database.
    Busy,
    /// A table is locked.
    Locked,
    /// Any other failure.
    Other,
}

/// Store-layer errors with enough structure for host adapters to map to stable protocol errors.
#[derive(Debug)]
pub enum Error {
    /// Filesystem failure while preparing or inspecting a store path.
    Io {
        /// Description given by the operating system.
        message: String,
    },
    /// Database failure while opening, migrating, or querying a store.
    Database {
        /// The class of the failure.
        failure: DatabaseFailure,
        /// Description given by the database.
        message: String,
    },
    /// Input failed store-level validation.
    InvalidRequest {
        /// Safe diagnostic message.
        message: String,
    },
    /// The path does not point to an initialized store.
    NotInitialized {
        /// Store path that failed initialization validation.
        path: String,
    },
    /// Store path is not acceptable for a durable local database.
    InvalidPath {
        /// Rejected store path.
        path: String,
        /// Safe explanation for the rejection.
        reason: &'static str,
    },
    /// Existing database is not recognized as a store, so init refuses to mutate it.
    UnsafeExistingDatabase {
        /// Existing database path that was refused.
        path: String,
    },
    /// Store schema is not supported by this binary.
    SchemaMismatch {
        /// Schema version expected by this binary.
        expected: i32,
        /// Schema version found in the database.
        actual: i32,
    },
    /// The required durable journal mode could not be enabled.
    WalUnavailable {
        /// Store path that could not use the journal mode.
        path: String,
        /// Journal mode returned by the database.
        journal_mode: String,
    },
    /// Requested store object does not exist.
    NotFound {
        /// Object kind, such as `memory`, `space`, or `silo`.
        entity: &'static str,
        /// Requested object id/name.
        id: String,
    },
    /// Request conflicts with current store state or policy.
    Conflict {
        /// Safe diagnostic message.
        message: String,
    },
}

/// The model of an [`Error`].
pub enum Fault {
    /// Filesystem failure.
    Io(Seq<char>),
    /// Database failure.
    Database(DatabaseFailure, Seq<char>),
    /// Refused input, with the message.
    InvalidRequest(Seq<char>),
    /// Not an initialized store.
    NotInitialized(Seq<char>),
    /// Refused path and reason.
    InvalidPath(Seq<char>, Seq<char>),
    /// Refused existing database.
    UnsafeExistingDatabase(Seq<char>),
    /// Expected and found schema version.
    SchemaMismatch(int, int),
    /// Path and journal mode.
    WalUnavailable(Seq<char>, Seq<char>),
    /// Object kind and id.
    NotFound(Seq<char>, Seq<char>),
    /// Conflict, with the message.
    Conflict(Seq<char>),
}

impl View for Error {
    type V = Fault;

    open spec fn view(&self) -> Fault {
        match self {
            Error::Io { message } => Fault::Io(message@),
            Error::Database { failure, message } => Fault::Database(*failure, message@),
            Error::InvalidRequest { message } => Fault::InvalidRequest(message@),
            Error::NotInitialized { path } => Fault::NotInitialized(path@),
            Error::InvalidPath { path, reason } => Fault::InvalidPath(path@, reason@),
            Error::UnsafeExistingDatabase { path } => Fault::UnsafeExistingDatabase(path@),
            Error::SchemaMismatch { expected, actual } => Fault::SchemaMismatch(
                *expected as int,
                *actual as int,
            ),
            Error::WalUnavailable { path, journal_mode } => Fault::WalUnavailable(
                path@,
                journal_mode@,
            ),
            Error::NotFound { entity, id } => Fault::NotFound(entity@, id@),
            Error::Conflict { message } => Fault::Conflict(message@),
        }
    }
}

/// A number with its sign, in decimal.
pub open spec fn signed_decimal(n: int) -> Seq<char> {
    if n < 0 {
        seq!['-'] + crate::text::decimal((-n) as nat)
    } else {
        crate::text::decimal(n as nat)
    }
}

/// Writes a signed number in decimal.
pub fn signed_decimal_of(n: i64) -> (r: String)
    ensures
        r@ == signed_decimal(n as int),
{
    if n < 0 {
        let magnitude: u64 = if n == i64::MIN {
            0x8000_0000_0000_0000
        } else {
            (-n) as u64
        };
        let mut out = String::new();
        out.push('-');
        let digits = decimal_of(magnitude);
        out.append(digits.as_str());
        assert(out@ =~= signed_decimal(n as int));
        out
    } else {
        decimal_of(n as u64)
    }
}

/// The diagnostic text of a fault.
pub open spec fn fault_message(fault: Fault) -> Seq<char> {
    match fault {
        Fault::Io(message) => "filesystem error: "@ + message,
        Fault::Database(_, message) => "SQLite error: "@ + message,
        Fault::InvalidRequest(message) => message,
        Fault::Conflict(message) => message,
        Fault::NotInitialized(path) => "store is not initialized: "@ + path,
        Fault::InvalidPath(path, reason) => "invalid store path "@ + path + ": "@ + reason,
        Fault::UnsafeExistingDatabase(path) =>
            "refusing to initialize non-memkeeper existing database: "@ + path,
        Fault::SchemaMismatch(expected, actual) => "schema mismatch: expected version "@
            + signed_decimal(expected) + ", found version "@ + signed_decimal(actual),
        Fault::WalUnavailable(path, mode) => "WAL journal mode unavailable for "@ + path
            + ": got "@ + mode,
        Fault::NotFound(entity, id) => entity + " not found: "@ + id,
    }
}

/// `a` followed by `b`.
pub fn concat(a: &str, b: &str) -> (r: String)
    ensures
        r@ == a@ + b@,
{
    let mut out = a.to_owned();
    out.append(b);
    out
}

/// `a`, `b` and `c`, one after the other.
pub fn concat3(a: &str, b: &str, c: &str) -> (r: String)
    ensures
        r@ == a@ + b@ + c@,
{
    let mut out = a.to_owned();
    out.append(b);
    out.append(c);
    out
}

/// Four texts, one after the other.
pub fn concat4(a: &str, b: &str, c: &str, d: &str) -> (r: String)
    ensures
        r@ == a@ + b@ + c@ + d@,
{
    let mut out = a.to_owned();
    out.append(b);
    out.append(c);
    out.append(d);
    out
}

impl Error {
    /// Return whether the underlying database reported a lock/busy condition.
    pub fn is_locked(&self) -> (r: bool)
        ensures
            r == (self@ matches Fault::Database(failure, _) && failure != DatabaseFailure::Other),
    {
        match self {
            Error::Database { failure, message: _ } => match failure {
                DatabaseFailure::Busy => true,
                DatabaseFailure::Locked => true,
                DatabaseFailure::Other => false,
            },
            _ => false,
        }
    }

    /// Return whether a retry may succeed without changing the request.
    pub fn is_retryable(&self) -> (r: bool)
        ensures
            r == (self@ matches Fault::Database(failure, _) && failure != DatabaseFailure::Other),
    {
        self.is_locked()
    }

    /// The diagnostic text of the error.
    pub fn message(&self) -> (r: String)
        ensures
            r@ == fault_message(self@),
    {
        match self {
            Error::Io { message } => concat("filesystem error: ", message.as_str()),
            Error::Database { failure: _, message } => concat("SQLite error: ", message.as_str()),
            Error::InvalidRequest { message } => message.clone(),
            Error::Conflict { message } => message.clone(),
            Error::NotInitialized { path } => concat("store is not initialized: ", path.as_str()),
            Error::InvalidPath { path, reason } => concat4(
                "invalid store path ",
                path.as_str(),
                ": ",
                reason,
            ),
            Error::UnsafeExistingDatabase { path } => concat(
                "refusing to initialize non-memkeeper existing database: ",
                path.as_str(),
            ),
            Error::SchemaMismatch { expected, actual } => {
                let wanted = signed_decimal_of(*expected as i64);
                let found = signed_decimal_of(*actual as i64);
                concat4(
                    "schema mismatch: expected version ",
                    wanted.as_str(),
                    ", found version ",
                    found.as_str(),
                )
            },
            Error::WalUnavailable { path, journal_mode } => concat4(
                "WAL journal mode unavailable for ",
                path.as_str(),
                ": got ",
                journal_mode.as_str(),
            ),
            Error::NotFound { entity, id } => concat3(entity, " not found: ", id.as_str()),
        }
    }
}

/// An `InvalidRequest` with the given message.
pub fn invalid(message: &str) -> (r: Error)
    ensures
        r@ == Fault::InvalidRequest(message@),
{
    Error::InvalidRequest { message: message.to_owned() }
}

/// An `InvalidRequest` whose message is `a` followed by `b`.
pub fn invalid2(a: &str, b: &str) -> (r: Error)
    ensures
        r@ == Fault::InvalidRequest(a@ + b@),
{
    Error::InvalidRequest { message: concat(a, b) }
}

/// An `InvalidRequest` whose message is `a`, `b` and `c` in a row.
pub fn invalid3(a: &str, b: &str, c: &str) -> (r: Error)
    ensures
        r@ == Fault::InvalidRequest(a@ + b@ + c@),
{
    Error::InvalidRequest { message: concat3(a, b, c) }
}

/// An `InvalidRequest` whose message is made of four parts.
pub fn invalid4(a: &str, b: &str, c: &str, d: &str) -> (r: Error)
    ensures
        r@ == Fault::InvalidRequest(a@ + b@ + c@ + d@),
{
    Error::InvalidRequest { message: concat4(a, b, c, d) }
}

/// A `Conflict` whose message is `a` followed by `b`.
pub fn conflict2(a: &str, b: &str) -> (r: Error)
    ensures
        r@ == Fault::Conflict(a@ + b@),
{
    Error::Conflict { message: concat(a, b) }
}

/// A `NotFound` for an object of kind `entity`.
pub fn not_found(entity: &'static str, id: &str) -> (r: Error)
    ensures
        r@ == Fault::NotFound(entity@, id@),
{
    Error::NotFound { entity, id: id.to_owned() }
}

/// What a checked request amounts to: nothing wrong, or the first fault found.
pub open spec fn verdict(r: Result<(), Error>) -> Option<Fault> {
    match r {
        Ok(_) => None,
        Err(e) => Some(e@),
    }
}

} // verus!
