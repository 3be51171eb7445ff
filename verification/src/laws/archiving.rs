//! What exports, backups, imports and representations promise.

use vstd::prelude::*;

use crate::archive::{
    backup_store, export_store, import_store, BackupFacts, BackupReport, BackupRequest,
    ExportReport, ExportRequest, ExportedTable, ImportReport, ImportRequest, ImportTarget,
};
use crate::digest::text_digest;
use crate::error::Error;
use crate::import::ParsedImportFile;
use crate::integrity::ImportedStore;
use crate::json::text_of;
use crate::paths::{validate_store_path, PathFacts};
use crate::representation::{
    insert_representation, representation_document, retrieval_companion,
    MemoryRepresentationRecord, RetrievalRepresentationInput,
};
use crate::text::is_blank;

verus! {

/// An export is made in lines of JSON, to a path where nothing is, and reports the rows of
/// each table, the size and the digest of what it wrote.
pub proof fn law_exports_report_what_they_write(
    store: &str,
    request: ExportRequest,
    output: &str,
    output_exists: bool,
    schema_version: i32,
    tables: Vec<ExportedTable>,
    text: String,
    report: ExportReport,
)
    requires
        crate::archive::complete(tables@),
        call_ensures(
            export_store,
            (store, &request, output, output_exists, schema_version, &tables),
            Ok::<(String, ExportReport), Error>((text, report)),
        ),
    ensures
        request.format@ == "jsonl"@,
        !output_exists,
        request.output_path@.len() > 0 && request.output_path@ != ":memory:"@,
        report.output_path@ == request.output_path@,
        report.schema_version == schema_version,
        report.sha256@ == text_digest(text@),
        report.bytes == vstd::utf8::encode_utf8(text@).len(),
        report.tables@.len() == tables@.len(),
        forall|i: int|
            0 <= i < report.tables@.len() && tables@[i].rows@.len() <= u64::MAX ==> (
            #[trigger] report.tables@[i]).name@ == tables@[i].table.name@ && report.tables@[i].rows
                == tables@[i].rows@.len(),
{
    let models = crate::import::report_models(report.tables@);
    assert(models.len() == report.tables@.len());
    assert(crate::archive::exported_counts(tables@).len() == tables@.len());
    assert forall|i: int|
        0 <= i < report.tables@.len() && tables@[i].rows@.len() <= u64::MAX implies (
    #[trigger] report.tables@[i]).name@ == tables@[i].table.name@ && report.tables@[i].rows
        == tables@[i].rows@.len() by {
        assert(models[i] == (report.tables@[i].name@, report.tables@[i].rows));
        assert(models[i] == crate::archive::exported_counts(tables@)[i]);
    }
}

/// A backup stands by itself: no file beside it belongs to it or stands in its way, and it
/// is written where nothing is.
pub proof fn law_backups_stand_by_themselves(
    store: &str,
    request: BackupRequest,
    output: &str,
    written: &str,
    facts: BackupFacts,
    report: BackupReport,
)
    requires
        call_ensures(
            backup_store,
            (store, &request, output, written, facts),
            Ok::<BackupReport, Error>(report),
        ),
    ensures
        !facts.output_exists,
        !facts.left.wal && !facts.left.shm && !facts.left.journal,
        !facts.standing.wal && !facts.standing.shm && !facts.standing.journal,
        report.output_path@ == request.output_path@,
        report.sha256 == facts.sha256 && report.bytes == facts.bytes,
        report.page_count == facts.page_count && report.schema_version == facts.schema_version,
{
}

/// An import makes a new store, from an archive that was read to its end; it never goes
/// over a store that is there. It reports what was read.
pub proof fn law_imports_make_new_stores(
    path: &str,
    facts: PathFacts,
    target: ImportTarget,
    request: ImportRequest,
    parsed: Result<ParsedImportFile, Error>,
    store: ImportedStore,
    fts_memory_rows: i64,
    fts_source_episode_rows: i64,
    report: ImportReport,
)
    requires
        call_ensures(
            import_store,
            (
                path,
                facts,
                target,
                &request,
                parsed,
                &store,
                fts_memory_rows,
                fts_source_episode_rows,
            ),
            Ok::<ImportReport, Error>(report),
        ),
    ensures
        !target.exists,
        request.format@ == "jsonl"@ && request.conflict_policy@ == "fail_if_exists"@,
        !request.dry_run ==> !target.standing.wal && !target.standing.shm
            && !target.standing.journal,
        !facts.symlink && !facts.directory,
        parsed is Ok,
        report.row_count == parsed->Ok_0.row_count,
        report.tables == parsed->Ok_0.tables,
        report.sha256 == parsed->Ok_0.sha256 && report.bytes == parsed->Ok_0.bytes,
        report.schema_version == parsed->Ok_0.schema_version,
        report.fts_memory_rows == fts_memory_rows,
        report.fts_source_episode_rows == fts_source_episode_rows,
        report.dry_run == request.dry_run,
        store.invalid_active_version is None,
{
}

/// A store lies in a plain file: neither it nor a file beside it is a link, and it is no
/// directory and not in memory.
pub proof fn law_stores_lie_in_plain_files(path: &str, facts: PathFacts)
    requires
        call_ensures(validate_store_path, (path, facts), Ok::<(), Error>(())),
    ensures
        path@.len() > 0 && path@ != ":memory:"@,
        !facts.symlink && !facts.directory,
        !facts.sidecar_symlinks.wal && !facts.sidecar_symlinks.shm
            && !facts.sidecar_symlinks.journal,
{
}

/// What a memory is found by begins with its representation, or with its summary where it
/// has none, and goes on with its content.
pub proof fn law_documents_begin_with_the_representation(
    content: &str,
    summary: Option<&str>,
    representation: Option<RetrievalRepresentationInput>,
    companion: Option<&str>,
    document: String,
)
    requires
        call_ensures(retrieval_companion, (summary, &representation), companion),
        call_ensures(representation_document, (content, companion), document),
    ensures
        representation matches Some(input) ==> text_of(companion) == Some(input.text@),
        representation is None ==> text_of(companion) == text_of(summary),
        representation is Some && representation->0.text@.len() > 0 ==> document@
            == representation->0.text@ + "\n\n"@ + content@,
        representation is None && summary is Some && summary->0@.len() > 0 ==> document@
            == summary->0@ + "\n\n"@ + content@,
        representation is None && summary is None ==> document@ == content@,
{
}

/// A representation is kept exactly where it is of the known kind, says something and has
/// at most five hundred and twelve characters; it is kept with the digest of its text.
pub proof fn law_representations_are_kept_with_digests(
    version_id: &str,
    input: RetrievalRepresentationInput,
    now: &str,
    answer: Result<MemoryRepresentationRecord, Error>,
)
    requires
        call_ensures(insert_representation, (version_id, &input, now), answer),
    ensures
        answer is Ok <==> input.kind@ == "contextual-card-v1"@ && !is_blank(input.text@)
            && input.text@.len() <= 512,
        answer matches Ok(record) ==> {
            &&& record.version_id@ == version_id@
            &&& record.kind@ == input.kind@ && record.text@ == input.text@
            &&& record.text_sha256@ == text_digest(input.text@)
            &&& record.created_at@ == now@
        },
{
}

} // verus!
