//! Paths of stores and outputs, as texts with `/` between their parts.

use vstd::prelude::*;

use crate::error::{concat, concat3, conflict2, verdict, Error, Fault};
use crate::text::{
    begins_with, chars_of, join, joined, lemma_parts_hold_no_separator, parts_by, split_by, text_eq,
    views,
};
use crate::validate::first_of;

verus! {

/// The path of a file that the database keeps beside a store.
pub fn sidecar_path(path: &str, suffix: &str) -> (r: String)
    ensures
        r@ == path@ + suffix@,
{
    concat(path, suffix)
}

/// Whether a byte stands for itself in a path inside a URI.
pub open spec fn plain_byte(b: u8) -> bool {
    ||| 65 <= b <= 90
    ||| 97 <= b <= 122
    ||| 48 <= b <= 57
    ||| b == 47
    ||| b == 45
    ||| b == 46
    ||| b == 95
    ||| b == 126
}

/// The upper-case hexadecimal digit with the value `n`.
pub open spec fn upper_digit(n: u8) -> char {
    if n < 10 {
        ((48 + n) as u8) as char
    } else {
        ((55 + n) as u8) as char
    }
}

/// Bytes as a path inside a URI: every byte that does not stand for itself becomes
/// `%` and two upper-case hexadecimal digits.
pub open spec fn percent_text(bytes: Seq<u8>) -> Seq<char>
    decreases bytes.len(),
{
    if bytes.len() == 0 {
        Seq::empty()
    } else {
        let before = percent_text(bytes.drop_last());
        let b = bytes.last();
        if plain_byte(b) {
            before.push(b as char)
        } else {
            before.push('%').push(upper_digit(b / 16)).push(upper_digit(b % 16))
        }
    }
}

fn upper_digit_of(n: u8) -> (r: char)
    requires
        n < 16,
    ensures
        r == upper_digit(n),
{
    if n < 10 {
        (48 + n) as char
    } else {
        (55 + n) as char
    }
}

/// Writes a path for use inside a URI.
pub fn percent_encode_path(value: &str) -> (r: String)
    ensures
        r@ == percent_text(vstd::utf8::encode_utf8(value@)),
{
    let bytes = value.as_bytes();
    let mut out = String::new();
    for i in 0..bytes.len()
        invariant
            bytes@ == vstd::utf8::encode_utf8(value@),
            out@ == percent_text(bytes@.take(i as int)),
    {
        let b: u8 = bytes[i];
        let plain: bool = (65 <= b && b <= 90) || (97 <= b && b <= 122) || (48 <= b && b <= 57) || b
            == 47 || b == 45 || b == 46 || b == 95 || b == 126;
        assert(bytes@.take(i + 1).drop_last() =~= bytes@.take(i as int));
        if plain {
            out.push(b as char);
        } else {
            out.push('%');
            out.push(upper_digit_of(b / 16));
            out.push(upper_digit_of(b % 16));
        }
    }
    assert(bytes@.take(bytes@.len() as int) =~= bytes@);
    out
}

/// The URI by which a store is opened for reading without any lock.
pub fn sqlite_immutable_uri(absolute: &str) -> (r: String)
    ensures
        r@ == "file:"@ + percent_text(vstd::utf8::encode_utf8(absolute@))
            + "?mode=ro&immutable=1"@,
{
    let encoded = percent_encode_path(absolute);
    concat3("file:", encoded.as_str(), "?mode=ro&immutable=1")
}

/// The parts of a path: the texts between its separators.
pub open spec fn path_parts(path: Seq<char>) -> Seq<Seq<char>> {
    parts_by(path, '/')
}

/// The parts that remain of a path: empty ones and `.` are dropped, and `..` takes
/// the part before it away.
pub open spec fn resolved(parts: Seq<Seq<char>>) -> Seq<Seq<char>>
    decreases parts.len(),
{
    if parts.len() == 0 {
        Seq::empty()
    } else {
        let before = resolved(parts.drop_last());
        let part = parts.last();
        if part.len() == 0 || part == "."@ {
            before
        } else if part == ".."@ {
            if before.len() == 0 {
                before
            } else {
                before.drop_last()
            }
        } else {
            before.push(part)
        }
    }
}

/// A path without empty parts, `.` and `..`.
pub open spec fn lexical_path(path: Seq<char>) -> Seq<char> {
    let parts = joined(resolved(path_parts(path)), "/"@);
    if path.len() > 0 && path[0] == '/' {
        "/"@ + parts
    } else {
        parts
    }
}

/// Resolves a path without looking at the file system.
pub fn normalize_path_lexically(path: &str) -> (r: String)
    ensures
        r@ == lexical_path(path@),
{
    let parts = split_by(path, '/');
    let ghost all = views(parts@);
    let mut kept: Vec<String> = Vec::new();
    assert(views(kept@) =~= resolved(all.take(0)));
    for i in 0..parts.len()
        invariant
            all == views(parts@),
            views(kept@) == resolved(all.take(i as int)),
    {
        let ghost before = kept@;
        proof {
            assert(all.take(i + 1).drop_last() =~= all.take(i as int));
            assert(all.take(i + 1).last() == parts@[i as int]@);
            assert(views(before).len() == before.len());
        }
        if parts[i].as_str().is_empty() || text_eq(parts[i].as_str(), ".") {
        } else if text_eq(parts[i].as_str(), "..") {
            if kept.len() > 0 {
                let n: usize = kept.len() - 1;
                kept.truncate(n);
                assert(views(kept@) =~= views(before).drop_last());
            }
        } else {
            kept.push(parts[i].clone());
            assert(views(kept@) =~= views(before).push(parts@[i as int]@));
        }
    }
    assert(all.take(parts@.len() as int) =~= all);
    let body = join(kept.as_slice(), "/");
    let chars = chars_of(path);
    if chars.len() > 0 && chars[0] == '/' {
        concat("/", body.as_str())
    } else {
        body
    }
}

proof fn lemma_resolved_is_clean(parts: Seq<Seq<char>>)
    requires
        forall|i: int|
            0 <= i < parts.len() ==> forall|k: int|
                0 <= k < (#[trigger] parts[i]).len() ==> parts[i][k] != '/',
    ensures
        forall|i: int|
            0 <= i < resolved(parts).len() ==> (#[trigger] resolved(parts)[i]).len() > 0
                && resolved(parts)[i] != "."@ && resolved(parts)[i] != ".."@ && forall|k: int|
                0 <= k < resolved(parts)[i].len() ==> resolved(parts)[i][k] != '/',
    decreases parts.len(),
{
    if parts.len() > 0 {
        let rest = parts.drop_last();
        assert forall|i: int, k: int|
            0 <= i < rest.len() && 0 <= k < rest[i].len() implies rest[i][k] != '/' by {
            assert(rest[i] == parts[i]);
        }
        lemma_resolved_is_clean(rest);
        let before = resolved(rest);
        let after = resolved(parts);
        assert forall|i: int| 0 <= i < after.len() implies (#[trigger] after[i]).len() > 0
            && after[i] != "."@ && after[i] != ".."@ && forall|k: int|
            0 <= k < after[i].len() ==> after[i][k] != '/' by {
            if i < before.len() {
                assert(after[i] == before[i]);
            } else {
                assert(after[i] == parts[parts.len() - 1]);
            }
        }
    }
}

/// A resolved path has no empty part, no `.` and no `..`.
pub proof fn law_resolved_paths_are_plain(path: Seq<char>)
    ensures
        forall|i: int|
            0 <= i < resolved(path_parts(path)).len() ==> (#[trigger] resolved(
                path_parts(path),
            )[i]).len() > 0 && resolved(path_parts(path))[i] != "."@ && resolved(path_parts(path))[i]
                != ".."@,
{
    lemma_parts_hold_no_separator(path, '/');
    let parts = path_parts(path);
    assert forall|i: int| 0 <= i < parts.len() implies forall|k: int|
        0 <= k < (#[trigger] parts[i]).len() ==> parts[i][k] != '/' by {
        assert forall|k: int| 0 <= k < parts[i].len() implies parts[i][k] != '/' by {
            assert(parts_by(path, '/')[i][k] != '/');
        }
    }
    lemma_resolved_is_clean(parts);
}

/// A text with every character in lower case.
pub uninterp spec fn lowercase(text: Seq<char>) -> Seq<char>;

/// `str::to_lowercase`: the Unicode lower-case form of the text, which is a
/// function of the text alone.
#[verifier::external_body]
pub(crate) fn to_lowercase(text: &str) -> (r: String)
    ensures
        r@ == lowercase(text@),
{
    text.to_lowercase()
}

/// The key by which two paths are the same on a file system without regard to
/// case.
pub fn path_identity_key(path: &str) -> (r: String)
    ensures
        r@ == lowercase(path@),
{
    to_lowercase(path)
}

/// Whether one path is another or lies below it.
pub open spec fn at_or_below(path: Seq<char>, base: Seq<char>) -> bool {
    path == base || begins_with(path, base + "/"@)
}

fn is_at_or_below(path: &str, base: &str) -> (r: bool)
    ensures
        r == at_or_below(path@, base@),
{
    if text_eq(path, base) {
        return true;
    }
    let nested = concat(base, "/");
    crate::text::strip_prefix(path, nested.as_str()).is_some()
}

/// Whether an output path is reserved for a file beside the source store, given
/// the identity keys of both.
pub open spec fn reserved(
    output: Seq<char>,
    output_key: Seq<char>,
    sidecar: Seq<char>,
    sidecar_key: Seq<char>,
) -> bool {
    at_or_below(output, sidecar) || at_or_below(output_key, sidecar_key)
}

/// Whether an output path is reserved for a file beside the source store.
pub fn is_reserved(output: &str, output_key: &str, sidecar: &str, sidecar_key: &str) -> (r: bool)
    ensures
        r == reserved(output@, output_key@, sidecar@, sidecar_key@),
{
    is_at_or_below(output, sidecar) || is_at_or_below(output_key, sidecar_key)
}

/// Whether an output path is reserved for the file with the suffix beside a
/// store, both paths resolved.
pub open spec fn reserved_beside(output: Seq<char>, store: Seq<char>, suffix: Seq<char>) -> bool {
    let sidecar = lexical_path(store + suffix);
    reserved(output, lowercase(output), sidecar, lowercase(sidecar))
}

fn is_reserved_beside(output: &str, store: &str, suffix: &str) -> (r: bool)
    ensures
        r == reserved_beside(output@, store@, suffix@),
{
    let beside = sidecar_path(store, suffix);
    let sidecar = normalize_path_lexically(beside.as_str());
    let output_key = path_identity_key(output);
    let sidecar_key = path_identity_key(sidecar.as_str());
    is_reserved(output, output_key.as_str(), sidecar.as_str(), sidecar_key.as_str())
}

/// Refuses to write an output where the database keeps its files beside the
/// source store. Links in both paths are followed already.
pub fn reject_source_sidecar_output(source_store: &str, output_path: &str) -> (r: Result<
    (),
    Error,
>)
    ensures
        verdict(r) == ({
            let store = lexical_path(source_store@);
            let output = lexical_path(output_path@);
            if reserved_beside(output, store, "-wal"@) || reserved_beside(output, store, "-shm"@)
                || reserved_beside(output, store, "-journal"@) {
                Some(
                    Fault::Conflict(
                        "output path is reserved for the source store SQLite sidecar: "@ + output,
                    ),
                )
            } else {
                None
            }
        }),
{
    let store = normalize_path_lexically(source_store);
    let output = normalize_path_lexically(output_path);
    if is_reserved_beside(output.as_str(), store.as_str(), "-wal") || is_reserved_beside(
        output.as_str(),
        store.as_str(),
        "-shm",
    ) || is_reserved_beside(output.as_str(), store.as_str(), "-journal") {
        Err(
            conflict2(
                "output path is reserved for the source store SQLite sidecar: ",
                output.as_str(),
            ),
        )
    } else {
        Ok(())
    }
}

/// The first of the files that the database keeps beside a store, in the order
/// write-ahead log, shared memory, journal.
pub open spec fn first_sidecar(wal: bool, shm: bool, journal: bool) -> Option<Seq<char>> {
    if wal {
        Some("-wal"@)
    } else if shm {
        Some("-shm"@)
    } else if journal {
        Some("-journal"@)
    } else {
        None
    }
}

/// Which files stand beside a path.
#[derive(Debug, Clone, Copy)]
pub struct Sidecars {
    /// Write-ahead log.
    pub wal: bool,
    /// Shared memory.
    pub shm: bool,
    /// Rollback journal.
    pub journal: bool,
}

/// The suffix of the first file beside a path.
pub fn first_sidecar_suffix(found: Sidecars) -> (r: Option<&'static str>)
    ensures
        crate::json::text_of(r) == first_sidecar(found.wal, found.shm, found.journal),
{
    if found.wal {
        Some("-wal")
    } else if found.shm {
        Some("-shm")
    } else if found.journal {
        Some("-journal")
    } else {
        None
    }
}

/// Refuses a backup that left files beside itself: it would not be whole.
pub fn reject_output_sidecar_files(path: &str, found: Sidecars) -> (r: Result<(), Error>)
    ensures
        verdict(r) == match first_sidecar(found.wal, found.shm, found.journal) {
            Some(suffix) => Some(
                Fault::Conflict(
                    "backup produced SQLite sidecar "@ + (path@ + suffix)
                        + "; refusing non-self-contained backup"@,
                ),
            ),
            None => None,
        },
{
    match first_sidecar_suffix(found) {
        Some(suffix) => {
            let sidecar = sidecar_path(path, suffix);
            let message = concat3(
                "backup produced SQLite sidecar ",
                sidecar.as_str(),
                "; refusing non-self-contained backup",
            );
            Err(Error::Conflict { message })
        },
        None => Ok(()),
    }
}

/// The fault of a path's shape: it has to be a plain file system path.
pub open spec fn shape_fault(
    path: Seq<char>,
    empty_reason: Seq<char>,
    plain_reason: Seq<char>,
) -> Option<Fault> {
    if path.len() == 0 {
        Some(Fault::InvalidPath(path, empty_reason))
    } else if path == ":memory:"@ || begins_with(path, "file:"@) {
        Some(Fault::InvalidPath(path, plain_reason))
    } else {
        None
    }
}

fn check_shape(path: &str, empty_reason: &'static str, plain_reason: &'static str) -> (r: Result<
    (),
    Error,
>)
    ensures
        verdict(r) == shape_fault(path@, empty_reason@, plain_reason@),
{
    if path.is_empty() {
        return Err(Error::InvalidPath { path: path.to_owned(), reason: empty_reason });
    }
    if text_eq(path, ":memory:") || crate::text::strip_prefix(path, "file:").is_some() {
        return Err(Error::InvalidPath { path: path.to_owned(), reason: plain_reason });
    }
    Ok(())
}

/// Checks the shape of an import's input path.
pub fn validate_import_input_path_shape(path: &str) -> (r: Result<(), Error>)
    ensures
        verdict(r) == shape_fault(
            path@,
            "input path must not be empty"@,
            "input paths must use plain filesystem paths"@,
        ),
{
    check_shape(path, "input path must not be empty", "input paths must use plain filesystem paths")
}

/// Checks the shape of an output path.
pub fn validate_output_path_shape(path: &str) -> (r: Result<(), Error>)
    ensures
        verdict(r) == shape_fault(
            path@,
            "output path must not be empty"@,
            "output paths must use plain filesystem paths"@,
        ),
{
    check_shape(
        path,
        "output path must not be empty",
        "output paths must use plain filesystem paths",
    )
}

/// What stands at a store path.
#[derive(Debug, Clone, Copy)]
pub struct PathFacts {
    /// A symbolic link.
    pub symlink: bool,
    /// A directory.
    pub directory: bool,
    /// Which of the files beside it are symbolic links.
    pub sidecar_symlinks: Sidecars,
}

/// The fault of symbolic links beside a store.
pub open spec fn sidecar_link_fault(path: Seq<char>, found: Sidecars) -> Option<Fault> {
    match first_sidecar(found.wal, found.shm, found.journal) {
        Some(suffix) => Some(
            Fault::InvalidPath(path + suffix, "SQLite sidecar path must not be a symlink"@),
        ),
        None => None,
    }
}

/// Refuses symbolic links beside a store.
pub fn reject_sqlite_sidecar_symlinks(path: &str, found: Sidecars) -> (r: Result<(), Error>)
    ensures
        verdict(r) == sidecar_link_fault(path@, found),
{
    match first_sidecar_suffix(found) {
        Some(suffix) => Err(
            Error::InvalidPath {
                path: sidecar_path(path, suffix),
                reason: "SQLite sidecar path must not be a symlink",
            },
        ),
        None => Ok(()),
    }
}

/// The fault of a store path.
pub open spec fn store_path_fault(path: Seq<char>, facts: PathFacts) -> Option<Fault> {
    first_of(
        shape_fault(
            path,
            "path must not be empty"@,
            "durable stores must use plain filesystem paths, not SQLite URI or memory paths"@,
        ),
        if facts.symlink {
            Some(Fault::InvalidPath(path, "store path must not be a symlink"@))
        } else if facts.directory {
            Some(Fault::InvalidPath(path, "path points to a directory"@))
        } else {
            sidecar_link_fault(path, facts.sidecar_symlinks)
        },
    )
}

/// Checks a store path against what stands there.
pub fn validate_store_path(path: &str, facts: PathFacts) -> (r: Result<(), Error>)
    ensures
        verdict(r) == store_path_fault(path@, facts),
{
    if let Err(e) = check_shape(
        path,
        "path must not be empty",
        "durable stores must use plain filesystem paths, not SQLite URI or memory paths",
    ) {
        return Err(e);
    }
    if facts.symlink {
        return Err(
            Error::InvalidPath {
                path: path.to_owned(),
                reason: "store path must not be a symlink",
            },
        );
    }
    if facts.directory {
        return Err(
            Error::InvalidPath { path: path.to_owned(), reason: "path points to a directory" },
        );
    }
    reject_sqlite_sidecar_symlinks(path, facts.sidecar_symlinks)
}

} // verus!
