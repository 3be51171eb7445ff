//! What has to hold of an imported store.

use vstd::prelude::*;

use crate::digest::{sha256_text, text_digest};
use crate::error::{invalid2, invalid3, verdict, Error, Fault};
use crate::json::{as_text, text_of, text_of_string};
use crate::ranking::{in_unit_range, is_in_unit_range, Score};
use crate::remember::JsonDocument;
use crate::representation::{
    representation_fault, validate_retrieval_representation, RetrievalRepresentationInput,
};
use crate::text::{is_blank, text_eq, trim, trimmed, views};
use crate::validate::{
    canonical, database_time_shape, first_of, is_canonical, is_sqlite_current_timestamp_like,
    is_utc_rfc3339_like, metadata_fault, normal_tags, normalized_tags, refused_if, timestamp_fault,
    utc_shape, validate_optional_metadata_value, validate_optional_timestamp,
};
use crate::vocabulary::{
    is_supported_kind, is_supported_scope, is_supported_status, supported_kind, supported_scope,
    supported_status, MAX_CONTENT_CHARS, MAX_SOURCE_REF_JSON_CHARS, MAX_SUMMARY_CHARS,
    MAX_TIMESTAMP_CHARS,
};

verus! {

/// The fault of an optional name: it must not need trimming.
pub open spec fn import_name_fault(name: Seq<char>, value: Option<Seq<char>>) -> Option<Fault> {
    match value {
        None => None,
        Some(text) => first_of(
            refused_if(
                trimmed(text) != text,
                "import archive "@ + name + " must not need trimming"@,
            ),
            metadata_fault(name, Some(text)),
        ),
    }
}

/// Checks an optional name.
pub fn validate_optional_import_metadata_value(name: &str, value: Option<&str>) -> (r: Result<
    (),
    Error,
>)
    ensures
        verdict(r) == import_name_fault(name@, text_of(value)),
{
    match value {
        None => Ok(()),
        Some(text) => {
            if !text_eq(trim(text), text) {
                return Err(invalid3("import archive ", name, " must not need trimming"));
            }
            validate_optional_metadata_value(name, Some(text))
        },
    }
}

/// Checks a name.
pub fn validate_required_import_metadata_value(name: &str, value: &str) -> (r: Result<(), Error>)
    ensures
        verdict(r) == import_name_fault(name@, Some(value@)),
{
    validate_optional_import_metadata_value(name, Some(value))
}

/// The fault of an optional text.
pub open spec fn import_text_fault(name: Seq<char>, value: Option<Seq<char>>, max: nat) -> Option<
    Fault,
> {
    match value {
        None => None,
        Some(text) => refused_if(
            !is_canonical(text, max),
            "import archive "@ + name + " is not canonical or is too long"@,
        ),
    }
}

/// Checks an optional text.
pub fn validate_optional_import_text_value(name: &str, value: Option<&str>, max_chars: usize) -> (r:
    Result<(), Error>)
    ensures
        verdict(r) == import_text_fault(name@, text_of(value), max_chars as nat),
{
    match value {
        None => Ok(()),
        Some(text) => if canonical(text, max_chars) {
            Ok(())
        } else {
            Err(invalid3("import archive ", name, " is not canonical or is too long"))
        },
    }
}

/// Whether a document is too long or no object.
pub open spec fn bad_document(document: Option<JsonDocument>) -> bool {
    document is Some && (document->0.text@.len() > MAX_SOURCE_REF_JSON_CHARS
        || !document->0.holds_object())
}

fn is_bad_document(document: &Option<JsonDocument>) -> (r: bool)
    ensures
        r == bad_document(*document),
{
    match document {
        None => false,
        Some(d) => d.text.as_str().unicode_len() > MAX_SOURCE_REF_JSON_CHARS || !d.is_object(),
    }
}

/// The fault of an optional document.
pub open spec fn import_document_fault(name: Seq<char>, document: Option<JsonDocument>) -> Option<
    Fault,
> {
    refused_if(bad_document(document), "import archive has invalid "@ + name)
}

/// Checks an optional document.
pub fn validate_optional_import_json_object(name: &str, document: &Option<JsonDocument>) -> (r:
    Result<(), Error>)
    ensures
        verdict(r) == import_document_fault(name@, *document),
{
    if is_bad_document(document) {
        Err(invalid2("import archive has invalid ", name))
    } else {
        Ok(())
    }
}

/// The fault of a time, of the protocol or of the database.
pub open spec fn import_time_fault(name: Seq<char>, value: Seq<char>) -> Option<Fault> {
    refused_if(
        value.len() > MAX_TIMESTAMP_CHARS || !(utc_shape(value) || database_time_shape(value)),
        name + " must be a bounded UTC timestamp"@,
    )
}

/// Checks a time.
pub fn validate_required_import_timestamp(name: &str, value: &str) -> (r: Result<(), Error>)
    ensures
        verdict(r) == import_time_fault(name@, value@),
{
    if value.unicode_len() > MAX_TIMESTAMP_CHARS || !(is_utc_rfc3339_like(value)
        || is_sqlite_current_timestamp_like(value)) {
        Err(invalid2(name, " must be a bounded UTC timestamp"))
    } else {
        Ok(())
    }
}

/// An imported space.
pub struct ImportSpaceRow {
    /// Name.
    pub name: String,
    /// Name for people.
    pub display_name: Option<String>,
    /// Description.
    pub description: Option<String>,
    /// Default silo.
    pub default_silo: String,
    /// Ontology.
    pub ontology: Option<String>,
    /// Configuration.
    pub config_json: Option<JsonDocument>,
    /// When it was made.
    pub created_at: String,
    /// When it was last changed.
    pub updated_at: String,
}

/// An imported silo.
pub struct ImportSiloRow {
    /// Space.
    pub space_name: String,
    /// Name.
    pub name: String,
    /// Description.
    pub description: Option<String>,
    /// How long its memories are kept.
    pub retention_policy: String,
    /// Scope of memories without one.
    pub default_scope: String,
    /// Configuration.
    pub config_json: Option<JsonDocument>,
    /// When it was made.
    pub created_at: String,
    /// When it was last changed.
    pub updated_at: String,
}

/// The fault of a space.
pub open spec fn space_row_fault(row: ImportSpaceRow) -> Option<Fault> {
    first_of(
        import_name_fault("space name"@, Some(row.name@)),
        first_of(
            import_name_fault("space display_name"@, text_of_string(row.display_name)),
            first_of(
                import_text_fault(
                    "space description"@,
                    text_of_string(row.description),
                    MAX_SUMMARY_CHARS as nat,
                ),
                first_of(
                    import_name_fault("space default_silo"@, Some(row.default_silo@)),
                    first_of(
                        import_text_fault(
                            "space ontology"@,
                            text_of_string(row.ontology),
                            MAX_SOURCE_REF_JSON_CHARS as nat,
                        ),
                        first_of(
                            import_document_fault("space config_json"@, row.config_json),
                            first_of(
                                import_time_fault("space created_at"@, row.created_at@),
                                import_time_fault("space updated_at"@, row.updated_at@),
                            ),
                        ),
                    ),
                ),
            ),
        ),
    )
}

fn check_space_row(row: &ImportSpaceRow) -> (r: Result<(), Error>)
    ensures
        verdict(r) == space_row_fault(*row),
{
    if let Err(e) = validate_required_import_metadata_value("space name", row.name.as_str()) {
        return Err(e);
    }
    if let Err(e) = validate_optional_import_metadata_value(
        "space display_name",
        as_text(&row.display_name),
    ) {
        return Err(e);
    }
    if let Err(e) = validate_optional_import_text_value(
        "space description",
        as_text(&row.description),
        MAX_SUMMARY_CHARS,
    ) {
        return Err(e);
    }
    if let Err(e) = validate_required_import_metadata_value(
        "space default_silo",
        row.default_silo.as_str(),
    ) {
        return Err(e);
    }
    if let Err(e) = validate_optional_import_text_value(
        "space ontology",
        as_text(&row.ontology),
        MAX_SOURCE_REF_JSON_CHARS,
    ) {
        return Err(e);
    }
    if let Err(e) = validate_optional_import_json_object("space config_json", &row.config_json) {
        return Err(e);
    }
    if let Err(e) = validate_required_import_timestamp(
        "space created_at",
        row.created_at.as_str(),
    ) {
        return Err(e);
    }
    validate_required_import_timestamp("space updated_at", row.updated_at.as_str())
}

/// The fault of a silo.
pub open spec fn silo_row_fault(row: ImportSiloRow) -> Option<Fault> {
    first_of(
        import_name_fault("silo space"@, Some(row.space_name@)),
        first_of(
            import_name_fault("silo name"@, Some(row.name@)),
            first_of(
                import_text_fault(
                    "silo description"@,
                    text_of_string(row.description),
                    MAX_SUMMARY_CHARS as nat,
                ),
                first_of(
                    import_name_fault("silo retention_policy"@, Some(row.retention_policy@)),
                    first_of(
                        import_name_fault("silo default_scope"@, Some(row.default_scope@)),
                        first_of(
                            refused_if(
                                !supported_scope(row.default_scope@),
                                "import archive has unsupported silo default_scope: "@
                                    + row.default_scope@,
                            ),
                            first_of(
                                import_document_fault("silo config_json"@, row.config_json),
                                first_of(
                                    import_time_fault("silo created_at"@, row.created_at@),
                                    import_time_fault("silo updated_at"@, row.updated_at@),
                                ),
                            ),
                        ),
                    ),
                ),
            ),
        ),
    )
}

fn check_silo_row(row: &ImportSiloRow) -> (r: Result<(), Error>)
    ensures
        verdict(r) == silo_row_fault(*row),
{
    if let Err(e) = validate_required_import_metadata_value("silo space", row.space_name.as_str()) {
        return Err(e);
    }
    if let Err(e) = validate_required_import_metadata_value("silo name", row.name.as_str()) {
        return Err(e);
    }
    if let Err(e) = validate_optional_import_text_value(
        "silo description",
        as_text(&row.description),
        MAX_SUMMARY_CHARS,
    ) {
        return Err(e);
    }
    if let Err(e) = validate_required_import_metadata_value(
        "silo retention_policy",
        row.retention_policy.as_str(),
    ) {
        return Err(e);
    }
    if let Err(e) = validate_required_import_metadata_value(
        "silo default_scope",
        row.default_scope.as_str(),
    ) {
        return Err(e);
    }
    if !is_supported_scope(row.default_scope.as_str()) {
        return Err(
            invalid2(
                "import archive has unsupported silo default_scope: ",
                row.default_scope.as_str(),
            ),
        );
    }
    if let Err(e) = validate_optional_import_json_object("silo config_json", &row.config_json) {
        return Err(e);
    }
    if let Err(e) = validate_required_import_timestamp("silo created_at", row.created_at.as_str()) {
        return Err(e);
    }
    validate_required_import_timestamp("silo updated_at", row.updated_at.as_str())
}

/// The fault of the first faulty row.
pub open spec fn first_fault<A>(rows: Seq<A>, fault: spec_fn(A) -> Option<Fault>) -> Option<Fault>
    decreases rows.len(),
{
    if rows.len() == 0 {
        None
    } else {
        first_of(first_fault(rows.drop_last(), fault), fault(rows.last()))
    }
}

proof fn lemma_first_fault<A>(rows: Seq<A>, fault: spec_fn(A) -> Option<Fault>, n: int)
    requires
        0 <= n <= rows.len(),
        first_fault(rows.take(n), fault) is Some,
    ensures
        first_fault(rows, fault) == first_fault(rows.take(n), fault),
    decreases rows.len() - n,
{
    if n < rows.len() {
        assert(rows.take(n + 1).drop_last() =~= rows.take(n));
        lemma_first_fault(rows, fault, n + 1);
    } else {
        assert(rows.take(n) =~= rows);
    }
}

proof fn lemma_faultless<A>(rows: Seq<A>, fault: spec_fn(A) -> Option<Fault>, i: int)
    requires
        first_fault(rows, fault) is None,
        0 <= i < rows.len(),
    ensures
        fault(rows[i]) is None,
    decreases rows.len(),
{
    if i < rows.len() - 1 {
        lemma_faultless(rows.drop_last(), fault, i);
    }
}

/// The faults of spaces.
pub open spec fn space_faults() -> spec_fn(ImportSpaceRow) -> Option<Fault> {
    |row: ImportSpaceRow| space_row_fault(row)
}

/// The faults of silos.
pub open spec fn silo_faults() -> spec_fn(ImportSiloRow) -> Option<Fault> {
    |row: ImportSiloRow| silo_row_fault(row)
}

/// Whether a space has its default silo.
pub open spec fn has_default_silo(space: ImportSpaceRow, silos: Seq<ImportSiloRow>) -> bool {
    exists|i: int|
        0 <= i < silos.len() && (#[trigger] silos[i]).space_name@ == space.name@ && silos[i].name@
            == space.default_silo@
}

/// The faults of spaces without their default silo.
pub open spec fn default_silo_faults(silos: Seq<ImportSiloRow>) -> spec_fn(ImportSpaceRow) -> Option<
    Fault,
> {
    |space: ImportSpaceRow|
        refused_if(
            !has_default_silo(space, silos),
            "import archive has missing default silo for space "@ + space.name@,
        )
}

/// The fault of the spaces and silos.
pub open spec fn places_fault(spaces: Seq<ImportSpaceRow>, silos: Seq<ImportSiloRow>) -> Option<
    Fault,
> {
    first_of(
        first_fault(spaces, space_faults()),
        first_of(
            first_fault(silos, silo_faults()),
            first_fault(spaces, default_silo_faults(silos)),
        ),
    )
}

fn find_default_silo(space: &ImportSpaceRow, silos: &Vec<ImportSiloRow>) -> (r: bool)
    ensures
        r == has_default_silo(*space, silos@),
{
    for i in 0..silos.len()
        invariant
            forall|k: int|
                0 <= k < i ==> !((#[trigger] silos@[k]).space_name@ == space.name@
                    && silos@[k].name@ == space.default_silo@),
    {
        if text_eq(silos[i].space_name.as_str(), space.name.as_str()) && text_eq(
            silos[i].name.as_str(),
            space.default_silo.as_str(),
        ) {
            return true;
        }
    }
    false
}

/// Checks the spaces and silos of an imported store: each by itself, and that
/// every space has its default silo.
pub fn validate_import_spaces_and_silos(
    spaces: &Vec<ImportSpaceRow>,
    silos: &Vec<ImportSiloRow>,
) -> (r: Result<(), Error>)
    ensures
        verdict(r) == places_fault(spaces@, silos@),
{
    for i in 0..spaces.len()
        invariant
            first_fault(spaces@.take(i as int), space_faults()) is None,
    {
        proof {
            assert(spaces@.take(i + 1).drop_last() =~= spaces@.take(i as int));
        }
        if let Err(e) = check_space_row(&spaces[i]) {
            proof {
                lemma_first_fault(spaces@, space_faults(), i + 1);
            }
            return Err(e);
        }
    }
    assert(spaces@.take(spaces@.len() as int) =~= spaces@);
    for i in 0..silos.len()
        invariant
            first_fault(spaces@, space_faults()) is None,
            first_fault(silos@.take(i as int), silo_faults()) is None,
    {
        proof {
            assert(silos@.take(i + 1).drop_last() =~= silos@.take(i as int));
        }
        if let Err(e) = check_silo_row(&silos[i]) {
            proof {
                lemma_first_fault(silos@, silo_faults(), i + 1);
            }
            return Err(e);
        }
    }
    assert(silos@.take(silos@.len() as int) =~= silos@);
    for i in 0..spaces.len()
        invariant
            first_fault(spaces@, space_faults()) is None,
            first_fault(silos@, silo_faults()) is None,
            first_fault(spaces@.take(i as int), default_silo_faults(silos@)) is None,
    {
        proof {
            assert(spaces@.take(i + 1).drop_last() =~= spaces@.take(i as int));
        }
        if !find_default_silo(&spaces[i], silos) {
            proof {
                lemma_first_fault(spaces@, default_silo_faults(silos@), i + 1);
            }
            return Err(
                invalid2(
                    "import archive has missing default silo for space ",
                    spaces[i].name.as_str(),
                ),
            );
        }
    }
    Ok(())
}

/// In an accepted store every space has its default silo.
pub proof fn law_spaces_have_default_silos(
    spaces: Seq<ImportSpaceRow>,
    silos: Seq<ImportSiloRow>,
)
    requires
        places_fault(spaces, silos) is None,
    ensures
        forall|i: int| 0 <= i < spaces.len() ==> has_default_silo(#[trigger] spaces[i], silos),
{
    assert forall|i: int| 0 <= i < spaces.len() implies has_default_silo(
        #[trigger] spaces[i],
        silos,
    ) by {
        lemma_faultless(spaces, default_silo_faults(silos), i);
    }
}

/// The source reference of an imported version.
pub struct ImportSourceRef {
    /// Id of the version.
    pub version_id: String,
    /// The reference.
    pub source_ref: JsonDocument,
}

/// The faults of source references.
pub open spec fn source_ref_faults() -> spec_fn(ImportSourceRef) -> Option<Fault> {
    |row: ImportSourceRef|
        first_of(
            refused_if(
                row.source_ref.text@.len() > MAX_SOURCE_REF_JSON_CHARS,
                "import archive source_ref_json exceeds maximum size for version "@
                    + row.version_id@,
            ),
            refused_if(
                !row.source_ref.holds_object(),
                "import archive has invalid source_ref_json for version "@ + row.version_id@,
            ),
        )
}

/// Checks the source references of an imported store.
pub fn validate_import_source_refs(rows: &Vec<ImportSourceRef>) -> (r: Result<(), Error>)
    ensures
        verdict(r) == first_fault(rows@, source_ref_faults()),
{
    for i in 0..rows.len()
        invariant
            first_fault(rows@.take(i as int), source_ref_faults()) is None,
    {
        proof {
            assert(rows@.take(i + 1).drop_last() =~= rows@.take(i as int));
            if first_fault(rows@.take(i + 1), source_ref_faults()) is Some {
                lemma_first_fault(rows@, source_ref_faults(), i + 1);
            }
        }
        let row = &rows[i];
        if row.source_ref.text.as_str().unicode_len() > MAX_SOURCE_REF_JSON_CHARS {
            return Err(
                invalid2(
                    "import archive source_ref_json exceeds maximum size for version ",
                    row.version_id.as_str(),
                ),
            );
        }
        if !row.source_ref.is_object() {
            return Err(
                invalid2(
                    "import archive has invalid source_ref_json for version ",
                    row.version_id.as_str(),
                ),
            );
        }
    }
    assert(rows@.take(rows@.len() as int) =~= rows@);
    Ok(())
}

/// An imported source episode.
pub struct ImportSourceEpisodeInvariantRow {
    /// Id.
    pub id: String,
    /// Space.
    pub space_name: String,
    /// Provenance type.
    pub source_type: String,
    /// Source path.
    pub source_path: Option<String>,
    /// Description.
    pub source_description: Option<String>,
    /// Content.
    pub content: Option<String>,
    /// Digest of the content.
    pub content_sha256: Option<String>,
    /// Position within the source.
    pub chunk_index: i64,
    /// Chunks of the source.
    pub chunk_count: i64,
    /// Metadata.
    pub metadata_json: Option<JsonDocument>,
}

/// The fault of the digest of a source episode: it has to be that of the content.
pub open spec fn episode_digest_fault(row: ImportSourceEpisodeInvariantRow) -> Option<Fault> {
    match text_of_string(row.content_sha256) {
        None => None,
        Some(hash) => first_of(
            import_name_fault("source episode content_sha256"@, Some(hash)),
            refused_if(
                match text_of_string(row.content) {
                    Some(content) => text_digest(content) != hash,
                    None => true,
                },
                "import archive has content hash mismatch for source "@ + row.id@,
            ),
        ),
    }
}

/// The fault of a source episode.
pub open spec fn episode_fault(row: ImportSourceEpisodeInvariantRow) -> Option<Fault> {
    first_of(
        import_name_fault("source episode id"@, Some(row.id@)),
        first_of(
            import_name_fault("source episode space"@, Some(row.space_name@)),
            first_of(
                import_name_fault("source episode type"@, Some(row.source_type@)),
                first_of(
                    import_text_fault(
                        "source episode path"@,
                        text_of_string(row.source_path),
                        MAX_SOURCE_REF_JSON_CHARS as nat,
                    ),
                    first_of(
                        import_text_fault(
                            "source episode description"@,
                            text_of_string(row.source_description),
                            MAX_SOURCE_REF_JSON_CHARS as nat,
                        ),
                        first_of(
                            refused_if(
                                row.chunk_count < 1 || row.chunk_index < 0 || row.chunk_index
                                    >= row.chunk_count,
                                "import archive has invalid chunk indexes for source "@ + row.id@,
                            ),
                            first_of(
                                refused_if(
                                    row.content is Some && row.content->0@.len()
                                        > MAX_CONTENT_CHARS,
                                    "import archive source content is too large for source "@
                                        + row.id@,
                                ),
                                first_of(
                                    episode_digest_fault(row),
                                    refused_if(
                                        bad_document(row.metadata_json),
                                        "import archive has invalid metadata_json for source "@
                                            + row.id@,
                                    ),
                                ),
                            ),
                        ),
                    ),
                ),
            ),
        ),
    )
}

fn check_episode_digest(row: &ImportSourceEpisodeInvariantRow) -> (r: Result<(), Error>)
    ensures
        verdict(r) == episode_digest_fault(*row),
{
    match &row.content_sha256 {
        None => Ok(()),
        Some(hash) => {
            if let Err(e) = validate_required_import_metadata_value(
                "source episode content_sha256",
                hash.as_str(),
            ) {
                return Err(e);
            }
            let matching: bool = match &row.content {
                Some(content) => {
                    let digest = sha256_text(content.as_str());
                    text_eq(digest.as_str(), hash.as_str())
                },
                None => false,
            };
            if matching {
                Ok(())
            } else {
                Err(
                    invalid2(
                        "import archive has content hash mismatch for source ",
                        row.id.as_str(),
                    ),
                )
            }
        },
    }
}

/// Checks an imported source episode.
pub fn validate_import_source_episode_row(row: &ImportSourceEpisodeInvariantRow) -> (r: Result<
    (),
    Error,
>)
    ensures
        verdict(r) == episode_fault(*row),
{
    if let Err(e) = validate_required_import_metadata_value("source episode id", row.id.as_str()) {
        return Err(e);
    }
    if let Err(e) = validate_required_import_metadata_value(
        "source episode space",
        row.space_name.as_str(),
    ) {
        return Err(e);
    }
    if let Err(e) = validate_required_import_metadata_value(
        "source episode type",
        row.source_type.as_str(),
    ) {
        return Err(e);
    }
    if let Err(e) = validate_optional_import_text_value(
        "source episode path",
        as_text(&row.source_path),
        MAX_SOURCE_REF_JSON_CHARS,
    ) {
        return Err(e);
    }
    if let Err(e) = validate_optional_import_text_value(
        "source episode description",
        as_text(&row.source_description),
        MAX_SOURCE_REF_JSON_CHARS,
    ) {
        return Err(e);
    }
    if row.chunk_count < 1 || row.chunk_index < 0 || row.chunk_index >= row.chunk_count {
        return Err(
            invalid2("import archive has invalid chunk indexes for source ", row.id.as_str()),
        );
    }
    if let Some(content) = &row.content {
        if content.as_str().unicode_len() > MAX_CONTENT_CHARS {
            return Err(
                invalid2(
                    "import archive source content is too large for source ",
                    row.id.as_str(),
                ),
            );
        }
    }
    if let Err(e) = check_episode_digest(row) {
        return Err(e);
    }
    if is_bad_document(&row.metadata_json) {
        return Err(
            invalid2("import archive has invalid metadata_json for source ", row.id.as_str()),
        );
    }
    Ok(())
}

/// The faults of source episodes.
pub open spec fn episode_faults() -> spec_fn(ImportSourceEpisodeInvariantRow) -> Option<Fault> {
    |row: ImportSourceEpisodeInvariantRow| episode_fault(row)
}

/// Checks the source episodes of an imported store.
pub fn validate_import_source_episodes(rows: &Vec<ImportSourceEpisodeInvariantRow>) -> (r: Result<
    (),
    Error,
>)
    ensures
        verdict(r) == first_fault(rows@, episode_faults()),
{
    for i in 0..rows.len()
        invariant
            first_fault(rows@.take(i as int), episode_faults()) is None,
    {
        proof {
            assert(rows@.take(i + 1).drop_last() =~= rows@.take(i as int));
            if first_fault(rows@.take(i + 1), episode_faults()) is Some {
                lemma_first_fault(rows@, episode_faults(), i + 1);
            }
        }
        if let Err(e) = validate_import_source_episode_row(&rows[i]) {
            return Err(e);
        }
    }
    assert(rows@.take(rows@.len() as int) =~= rows@);
    Ok(())
}

/// An imported memory.
pub struct ImportMemoryInvariantRow {
    /// Id.
    pub id: String,
    /// Space.
    pub space_name: String,
    /// Silo.
    pub silo_name: String,
    /// Scope.
    pub scope: String,
    /// Project key.
    pub project_key: Option<String>,
    /// Kind.
    pub kind: String,
    /// Entity key.
    pub entity_key: Option<String>,
    /// Claim key.
    pub claim_key: Option<String>,
    /// Status.
    pub status: String,
    /// Confidence.
    pub confidence: Score,
    /// Source episode.
    pub source_episode_id: Option<String>,
    /// Start of validity.
    pub valid_from: Option<String>,
    /// End of validity.
    pub valid_to: Option<String>,
    /// Observation time.
    pub observed_at: String,
    /// When it was made.
    pub created_at: String,
    /// When it was last changed.
    pub updated_at: String,
    /// When it was last read.
    pub accessed_at: Option<String>,
    /// Expiry.
    pub expires_at: Option<String>,
    /// When it was deleted.
    pub deleted_at: Option<String>,
    /// Metadata.
    pub metadata_json: Option<JsonDocument>,
}

/// The fault of the names of a memory.
pub open spec fn memory_names_fault(row: ImportMemoryInvariantRow) -> Option<Fault> {
    first_of(
        import_name_fault("memory id"@, Some(row.id@)),
        first_of(
            import_name_fault("memory space"@, Some(row.space_name@)),
            first_of(
                import_name_fault("memory silo"@, Some(row.silo_name@)),
                first_of(
                    import_name_fault("memory scope"@, Some(row.scope@)),
                    first_of(
                        import_name_fault("memory project"@, text_of_string(row.project_key)),
                        first_of(
                            import_name_fault("memory kind"@, Some(row.kind@)),
                            first_of(
                                import_name_fault(
                                    "memory entity_key"@,
                                    text_of_string(row.entity_key),
                                ),
                                first_of(
                                    import_name_fault(
                                        "memory claim_key"@,
                                        text_of_string(row.claim_key),
                                    ),
                                    first_of(
                                        import_name_fault("memory status"@, Some(row.status@)),
                                        import_name_fault(
                                            "memory source_episode_id"@,
                                            text_of_string(row.source_episode_id),
                                        ),
                                    ),
                                ),
                            ),
                        ),
                    ),
                ),
            ),
        ),
    )
}

/// The fault of the times of a memory.
pub open spec fn memory_times_fault(row: ImportMemoryInvariantRow) -> Option<Fault> {
    first_of(
        timestamp_fault("memory observed_at"@, Some(row.observed_at@)),
        first_of(
            timestamp_fault("memory created_at"@, Some(row.created_at@)),
            first_of(
                timestamp_fault("memory updated_at"@, Some(row.updated_at@)),
                first_of(
                    timestamp_fault("memory valid_from"@, text_of_string(row.valid_from)),
                    first_of(
                        timestamp_fault("memory valid_to"@, text_of_string(row.valid_to)),
                        first_of(
                            timestamp_fault("memory accessed_at"@, text_of_string(row.accessed_at)),
                            first_of(
                                timestamp_fault(
                                    "memory expires_at"@,
                                    text_of_string(row.expires_at),
                                ),
                                timestamp_fault(
                                    "memory deleted_at"@,
                                    text_of_string(row.deleted_at),
                                ),
                            ),
                        ),
                    ),
                ),
            ),
        ),
    )
}

/// The fault of a memory.
pub open spec fn memory_row_fault(row: ImportMemoryInvariantRow) -> Option<Fault> {
    first_of(
        memory_names_fault(row),
        first_of(
            refused_if(
                !supported_scope(row.scope@),
                "import archive has unsupported memory scope: "@ + row.scope@,
            ),
            first_of(
                refused_if(
                    !supported_kind(row.kind@),
                    "import archive has unsupported memory kind: "@ + row.kind@,
                ),
                first_of(
                    refused_if(
                        !supported_status(row.status@) || !in_unit_range(row.confidence),
                        "import archive has invalid status/confidence for memory "@ + row.id@,
                    ),
                    first_of(
                        memory_times_fault(row),
                        refused_if(
                            bad_document(row.metadata_json),
                            "import archive has invalid metadata_json for memory "@ + row.id@,
                        ),
                    ),
                ),
            ),
        ),
    )
}

fn check_memory_names(row: &ImportMemoryInvariantRow) -> (r: Result<(), Error>)
    ensures
        verdict(r) == memory_names_fault(*row),
{
    if let Err(e) = validate_required_import_metadata_value("memory id", row.id.as_str()) {
        return Err(e);
    }
    if let Err(e) = validate_required_import_metadata_value(
        "memory space",
        row.space_name.as_str(),
    ) {
        return Err(e);
    }
    if let Err(e) = validate_required_import_metadata_value("memory silo", row.silo_name.as_str()) {
        return Err(e);
    }
    if let Err(e) = validate_required_import_metadata_value("memory scope", row.scope.as_str()) {
        return Err(e);
    }
    if let Err(e) = validate_optional_import_metadata_value(
        "memory project",
        as_text(&row.project_key),
    ) {
        return Err(e);
    }
    if let Err(e) = validate_required_import_metadata_value("memory kind", row.kind.as_str()) {
        return Err(e);
    }
    if let Err(e) = validate_optional_import_metadata_value(
        "memory entity_key",
        as_text(&row.entity_key),
    ) {
        return Err(e);
    }
    if let Err(e) = validate_optional_import_metadata_value(
        "memory claim_key",
        as_text(&row.claim_key),
    ) {
        return Err(e);
    }
    if let Err(e) = validate_required_import_metadata_value("memory status", row.status.as_str()) {
        return Err(e);
    }
    validate_optional_import_metadata_value(
        "memory source_episode_id",
        as_text(&row.source_episode_id),
    )
}

/// Checks the times of an imported memory.
pub fn validate_import_memory_timestamps(row: &ImportMemoryInvariantRow) -> (r: Result<(), Error>)
    ensures
        verdict(r) == memory_times_fault(*row),
{
    if let Err(e) = validate_optional_timestamp(
        "memory observed_at",
        Some(row.observed_at.as_str()),
    ) {
        return Err(e);
    }
    if let Err(e) = validate_optional_timestamp("memory created_at", Some(row.created_at.as_str())) {
        return Err(e);
    }
    if let Err(e) = validate_optional_timestamp("memory updated_at", Some(row.updated_at.as_str())) {
        return Err(e);
    }
    if let Err(e) = validate_optional_timestamp("memory valid_from", as_text(&row.valid_from)) {
        return Err(e);
    }
    if let Err(e) = validate_optional_timestamp("memory valid_to", as_text(&row.valid_to)) {
        return Err(e);
    }
    if let Err(e) = validate_optional_timestamp("memory accessed_at", as_text(&row.accessed_at)) {
        return Err(e);
    }
    if let Err(e) = validate_optional_timestamp("memory expires_at", as_text(&row.expires_at)) {
        return Err(e);
    }
    validate_optional_timestamp("memory deleted_at", as_text(&row.deleted_at))
}

/// Checks an imported memory.
pub fn validate_import_memory_row(row: &ImportMemoryInvariantRow) -> (r: Result<(), Error>)
    ensures
        verdict(r) == memory_row_fault(*row),
{
    if let Err(e) = check_memory_names(row) {
        return Err(e);
    }
    if !is_supported_scope(row.scope.as_str()) {
        return Err(
            invalid2("import archive has unsupported memory scope: ", row.scope.as_str()),
        );
    }
    if !is_supported_kind(row.kind.as_str()) {
        return Err(invalid2("import archive has unsupported memory kind: ", row.kind.as_str()));
    }
    if !is_supported_status(row.status.as_str()) || !is_in_unit_range(row.confidence) {
        return Err(
            invalid2(
                "import archive has invalid status/confidence for memory ",
                row.id.as_str(),
            ),
        );
    }
    if let Err(e) = validate_import_memory_timestamps(row) {
        return Err(e);
    }
    if is_bad_document(&row.metadata_json) {
        return Err(
            invalid2("import archive has invalid metadata_json for memory ", row.id.as_str()),
        );
    }
    Ok(())
}

/// The faults of memories.
pub open spec fn memory_faults() -> spec_fn(ImportMemoryInvariantRow) -> Option<Fault> {
    |row: ImportMemoryInvariantRow| memory_row_fault(row)
}

/// Checks the memories of an imported store.
pub fn validate_import_memories(rows: &Vec<ImportMemoryInvariantRow>) -> (r: Result<(), Error>)
    ensures
        verdict(r) == first_fault(rows@, memory_faults()),
{
    for i in 0..rows.len()
        invariant
            first_fault(rows@.take(i as int), memory_faults()) is None,
    {
        proof {
            assert(rows@.take(i + 1).drop_last() =~= rows@.take(i as int));
            if first_fault(rows@.take(i + 1), memory_faults()) is Some {
                lemma_first_fault(rows@, memory_faults(), i + 1);
            }
        }
        if let Err(e) = validate_import_memory_row(&rows[i]) {
            return Err(e);
        }
    }
    assert(rows@.take(rows@.len() as int) =~= rows@);
    Ok(())
}

/// An imported version of a memory.
pub struct ImportVersionRow {
    /// Id.
    pub id: String,
    /// Content.
    pub content: String,
    /// Summary.
    pub summary: Option<String>,
    /// Digest of the content.
    pub content_sha256: String,
}

/// The fault of a version.
pub open spec fn version_fault(row: ImportVersionRow) -> Option<Fault> {
    first_of(
        import_name_fault("memory version id"@, Some(row.id@)),
        first_of(
            refused_if(
                is_blank(row.content@) || row.content@.len() > MAX_CONTENT_CHARS,
                "import archive has invalid content length for version "@ + row.id@,
            ),
            first_of(
                refused_if(
                    row.summary is Some && row.summary->0@.len() > MAX_SUMMARY_CHARS,
                    "import archive has invalid summary length for version "@ + row.id@,
                ),
                refused_if(
                    row.content_sha256@ != text_digest(row.content@),
                    "import archive has content hash mismatch for version "@ + row.id@,
                ),
            ),
        ),
    )
}

fn check_version(row: &ImportVersionRow) -> (r: Result<(), Error>)
    ensures
        verdict(r) == version_fault(*row),
{
    if let Err(e) = validate_required_import_metadata_value("memory version id", row.id.as_str()) {
        return Err(e);
    }
    if trim(row.content.as_str()).is_empty() || row.content.as_str().unicode_len()
        > MAX_CONTENT_CHARS {
        return Err(
            invalid2("import archive has invalid content length for version ", row.id.as_str()),
        );
    }
    if let Some(summary) = &row.summary {
        if summary.as_str().unicode_len() > MAX_SUMMARY_CHARS {
            return Err(
                invalid2(
                    "import archive has invalid summary length for version ",
                    row.id.as_str(),
                ),
            );
        }
    }
    let digest = sha256_text(row.content.as_str());
    if !text_eq(row.content_sha256.as_str(), digest.as_str()) {
        return Err(
            invalid2("import archive has content hash mismatch for version ", row.id.as_str()),
        );
    }
    Ok(())
}

/// The faults of versions.
pub open spec fn version_faults() -> spec_fn(ImportVersionRow) -> Option<Fault> {
    |row: ImportVersionRow| version_fault(row)
}

/// Checks the versions of an imported store.
pub fn validate_import_memory_versions(rows: &Vec<ImportVersionRow>) -> (r: Result<(), Error>)
    ensures
        verdict(r) == first_fault(rows@, version_faults()),
{
    for i in 0..rows.len()
        invariant
            first_fault(rows@.take(i as int), version_faults()) is None,
    {
        proof {
            assert(rows@.take(i + 1).drop_last() =~= rows@.take(i as int));
            if first_fault(rows@.take(i + 1), version_faults()) is Some {
                lemma_first_fault(rows@, version_faults(), i + 1);
            }
        }
        if let Err(e) = check_version(&rows[i]) {
            return Err(e);
        }
    }
    assert(rows@.take(rows@.len() as int) =~= rows@);
    Ok(())
}

/// A tag of an imported memory.
pub struct ImportTagRow {
    /// The memory.
    pub memory_id: String,
    /// The tag.
    pub tag: String,
}

/// The tags of one memory.
pub struct MemoryTags {
    /// The memory.
    pub memory_id: Seq<char>,
    /// Its tags.
    pub tags: Seq<Seq<char>>,
}

/// The tags of each memory, from rows in which those of one memory stand
/// together.
pub open spec fn grouped(rows: Seq<ImportTagRow>) -> Seq<MemoryTags>
    decreases rows.len(),
{
    if rows.len() == 0 {
        Seq::empty()
    } else {
        let before = grouped(rows.drop_last());
        let row = rows.last();
        if before.len() > 0 && before.last().memory_id == row.memory_id@ {
            before.update(
                before.len() - 1,
                MemoryTags {
                    memory_id: row.memory_id@,
                    tags: before.last().tags.push(row.tag@),
                },
            )
        } else {
            before.push(MemoryTags { memory_id: row.memory_id@, tags: seq![row.tag@] })
        }
    }
}

/// The faults of the tags of memories: they have to be in normal form.
pub open spec fn tag_faults() -> spec_fn(MemoryTags) -> Option<Fault> {
    |group: MemoryTags| tag_group_fault(group.memory_id, group.tags)
}

/// The fault of the tags of one memory.
pub open spec fn tag_group_fault(memory_id: Seq<char>, tags: Seq<Seq<char>>) -> Option<Fault> {
    match normal_tags(tags) {
        Err(_) => Some(
            Fault::InvalidRequest("import archive has invalid tags for memory "@ + memory_id),
        ),
        Ok(normal) => refused_if(
            normal != tags,
            "import archive has non-canonical tags for memory "@ + memory_id,
        ),
    }
}

fn same_texts(a: &Vec<String>, b: &Vec<String>) -> (r: bool)
    ensures
        r == (views(a@) == views(b@)),
{
    assert(views(a@).len() == a@.len());
    assert(views(b@).len() == b@.len());
    if a.len() != b.len() {
        return false;
    }
    for i in 0..a.len()
        invariant
            a@.len() == b@.len(),
            forall|k: int| 0 <= k < i ==> views(a@)[k] == #[trigger] views(b@)[k],
    {
        if !text_eq(a[i].as_str(), b[i].as_str()) {
            assert(views(a@)[i as int] != views(b@)[i as int]);
            return false;
        }
    }
    assert(views(a@) =~= views(b@));
    true
}

fn check_tag_group(memory_id: &str, tags: &Vec<String>) -> (r: Result<(), Error>)
    ensures
        verdict(r) == tag_group_fault(memory_id@, views(tags@)),
{
    match normalized_tags(tags.as_slice()) {
        Err(_) => Err(invalid2("import archive has invalid tags for memory ", memory_id)),
        Ok(normal) => if same_texts(&normal, tags) {
            Ok(())
        } else {
            Err(invalid2("import archive has non-canonical tags for memory ", memory_id))
        },
    }
}

/// The models of groups of tags.
pub open spec fn group_models(list: Seq<(String, Vec<String>)>) -> Seq<MemoryTags> {
    list.map_values(|g: (String, Vec<String>)| MemoryTags { memory_id: g.0@, tags: views(g.1@) })
}

fn group_tags(rows: &Vec<ImportTagRow>) -> (r: Vec<(String, Vec<String>)>)
    ensures
        group_models(r@) == grouped(rows@),
{
    let mut out: Vec<(String, Vec<String>)> = Vec::new();
    assert(group_models(out@) =~= grouped(rows@.take(0)));
    for i in 0..rows.len()
        invariant
            group_models(out@) == grouped(rows@.take(i as int)),
    {
        let ghost before = group_models(out@);
        proof {
            assert(rows@.take(i + 1).drop_last() =~= rows@.take(i as int));
            assert(rows@.take(i + 1).last() == rows@[i as int]);
            assert(before.len() == out@.len());
        }
        let n: usize = out.len();
        let id = rows[i].memory_id.as_str();
        if n > 0 && text_eq(out[n - 1].0.as_str(), id) {
            let mut tags = crate::pool::clone_texts(&out[n - 1].1);
            let ghost old_tags = tags@;
            tags.push(rows[i].tag.clone());
            assert(views(tags@) =~= views(old_tags).push(rows@[i as int].tag@));
            let ghost tag_views = views(tags@);
            out.set(n - 1, (rows[i].memory_id.clone(), tags));
            assert(group_models(out@) =~= before.update(
                n - 1,
                MemoryTags { memory_id: id@, tags: tag_views },
            ));
        } else {
            let mut tags: Vec<String> = Vec::new();
            tags.push(rows[i].tag.clone());
            assert(views(tags@) =~= seq![rows@[i as int].tag@]);
            out.push((rows[i].memory_id.clone(), tags));
            assert(group_models(out@) =~= before.push(
                MemoryTags { memory_id: id@, tags: seq![rows@[i as int].tag@] },
            ));
        }
    }
    assert(rows@.take(rows@.len() as int) =~= rows@);
    out
}

/// Checks the tags of an imported store, memory by memory.
pub fn validate_import_memory_tags(rows: &Vec<ImportTagRow>) -> (r: Result<(), Error>)
    ensures
        verdict(r) == first_fault(grouped(rows@), tag_faults()),
{
    let groups = group_tags(rows);
    let ghost all = group_models(groups@);
    for i in 0..groups.len()
        invariant
            all == group_models(groups@),
            all == grouped(rows@),
            first_fault(all.take(i as int), tag_faults()) is None,
    {
        proof {
            assert(all.take(i + 1).drop_last() =~= all.take(i as int));
            assert(all.take(i + 1).last() == all[i as int]);
            if first_fault(all.take(i + 1), tag_faults()) is Some {
                lemma_first_fault(all, tag_faults(), i + 1);
            }
        }
        if let Err(e) = check_tag_group(groups[i].0.as_str(), &groups[i].1) {
            return Err(e);
        }
    }
    assert(all.take(groups@.len() as int) =~= all);
    Ok(())
}

/// An imported retrieval text.
pub struct ImportRepresentationRow {
    /// The version that it belongs to.
    pub version_id: String,
    /// Kind and text.
    pub input: RetrievalRepresentationInput,
    /// Digest of the text.
    pub text_sha256: String,
    /// Whether the version exists.
    pub version_exists: bool,
}

/// The faults of retrieval texts.
pub open spec fn representation_faults() -> spec_fn(ImportRepresentationRow) -> Option<Fault> {
    |row: ImportRepresentationRow|
        first_of(
            refused_if(
                !row.version_exists,
                "import archive has representation for missing version "@ + row.version_id@,
            ),
            first_of(
                representation_fault(row.input.kind@, row.input.text@),
                refused_if(
                    text_digest(row.input.text@) != row.text_sha256@,
                    "import archive has representation hash mismatch for version "@
                        + row.version_id@,
                ),
            ),
        )
}

/// Checks the retrieval texts of an imported store.
pub fn validate_import_representations(rows: &Vec<ImportRepresentationRow>) -> (r: Result<
    (),
    Error,
>)
    ensures
        verdict(r) == first_fault(rows@, representation_faults()),
{
    for i in 0..rows.len()
        invariant
            first_fault(rows@.take(i as int), representation_faults()) is None,
    {
        proof {
            assert(rows@.take(i + 1).drop_last() =~= rows@.take(i as int));
            if first_fault(rows@.take(i + 1), representation_faults()) is Some {
                lemma_first_fault(rows@, representation_faults(), i + 1);
            }
        }
        let row = &rows[i];
        if !row.version_exists {
            return Err(
                invalid2(
                    "import archive has representation for missing version ",
                    row.version_id.as_str(),
                ),
            );
        }
        if let Err(e) = validate_retrieval_representation(&row.input) {
            return Err(e);
        }
        let digest = sha256_text(row.input.text.as_str());
        if !text_eq(digest.as_str(), row.text_sha256.as_str()) {
            return Err(
                invalid2(
                    "import archive has representation hash mismatch for version ",
                    row.version_id.as_str(),
                ),
            );
        }
    }
    assert(rows@.take(rows@.len() as int) =~= rows@);
    Ok(())
}

/// For each way in which rows of an imported store can reach over the border of
/// a space, the first row that does.
pub struct SpaceCrossings {
    /// A memory whose source episode is in another space.
    pub memory_source: Option<String>,
    /// A version whose source episode is in another space.
    pub version_source: Option<String>,
    /// A link between memories of two spaces.
    pub link: Option<String>,
    /// A conflict between memories of two spaces.
    pub conflict: Option<String>,
    /// An entity whose source episode is in another space.
    pub entity_source: Option<String>,
    /// An alias whose source episode is in another space.
    pub alias_source: Option<String>,
    /// A relationship that reaches into another space.
    pub relationship: Option<String>,
}

/// The fault of a row that reaches into another space.
pub open spec fn crossing_fault(reason: Seq<char>, found: Option<Seq<char>>) -> Option<Fault> {
    match found {
        Some(id) => Some(Fault::InvalidRequest("import archive "@ + reason + ": "@ + id)),
        None => None,
    }
}

/// Refuses a row that reaches into another space.
pub fn reject_import_space_mismatch(reason: &str, found: Option<&str>) -> (r: Result<(), Error>)
    ensures
        verdict(r) == crossing_fault(reason@, text_of(found)),
{
    match found {
        Some(id) => Err(crate::error::invalid4("import archive ", reason, ": ", id)),
        None => Ok(()),
    }
}

/// The fault of rows that reach into other spaces.
pub open spec fn crossings_fault(found: SpaceCrossings) -> Option<Fault> {
    first_of(
        crossing_fault(
            "memory source_episode_id crosses spaces"@,
            text_of_string(found.memory_source),
        ),
        first_of(
            crossing_fault(
                "memory version source_episode_id crosses spaces"@,
                text_of_string(found.version_source),
            ),
            first_of(
                crossing_fault("memory link crosses spaces"@, text_of_string(found.link)),
                first_of(
                    crossing_fault(
                        "conflict memory crosses spaces"@,
                        text_of_string(found.conflict),
                    ),
                    first_of(
                        crossing_fault(
                            "entity source_episode_id crosses spaces"@,
                            text_of_string(found.entity_source),
                        ),
                        first_of(
                            crossing_fault(
                                "entity alias source_episode_id crosses spaces"@,
                                text_of_string(found.alias_source),
                            ),
                            crossing_fault(
                                "relationship crosses spaces"@,
                                text_of_string(found.relationship),
                            ),
                        ),
                    ),
                ),
            ),
        ),
    )
}

/// Checks that no row of an imported store reaches into another space.
pub fn validate_import_space_isolation(found: &SpaceCrossings) -> (r: Result<(), Error>)
    ensures
        verdict(r) == crossings_fault(*found),
{
    if let Err(e) = reject_import_space_mismatch(
        "memory source_episode_id crosses spaces",
        as_text(&found.memory_source),
    ) {
        return Err(e);
    }
    if let Err(e) = reject_import_space_mismatch(
        "memory version source_episode_id crosses spaces",
        as_text(&found.version_source),
    ) {
        return Err(e);
    }
    if let Err(e) = reject_import_space_mismatch(
        "memory link crosses spaces",
        as_text(&found.link),
    ) {
        return Err(e);
    }
    if let Err(e) = reject_import_space_mismatch(
        "conflict memory crosses spaces",
        as_text(&found.conflict),
    ) {
        return Err(e);
    }
    if let Err(e) = reject_import_space_mismatch(
        "entity source_episode_id crosses spaces",
        as_text(&found.entity_source),
    ) {
        return Err(e);
    }
    if let Err(e) = reject_import_space_mismatch(
        "entity alias source_episode_id crosses spaces",
        as_text(&found.alias_source),
    ) {
        return Err(e);
    }
    reject_import_space_mismatch("relationship crosses spaces", as_text(&found.relationship))
}

/// An imported store, as it is checked.
pub struct ImportedStore {
    /// The first memory without an active version of its own.
    pub invalid_active_version: Option<String>,
    /// Spaces by name.
    pub spaces: Vec<ImportSpaceRow>,
    /// Silos by space and name.
    pub silos: Vec<ImportSiloRow>,
    /// Source references of versions.
    pub source_refs: Vec<ImportSourceRef>,
    /// Source episodes by id.
    pub source_episodes: Vec<ImportSourceEpisodeInvariantRow>,
    /// Memories by id.
    pub memories: Vec<ImportMemoryInvariantRow>,
    /// Versions.
    pub versions: Vec<ImportVersionRow>,
    /// Tags by memory.
    pub tags: Vec<ImportTagRow>,
    /// Retrieval texts.
    pub representations: Vec<ImportRepresentationRow>,
    /// Rows that reach into other spaces.
    pub crossings: SpaceCrossings,
}

/// The fault of an imported store.
pub open spec fn store_fault(store: ImportedStore) -> Option<Fault> {
    first_of(
        match text_of_string(store.invalid_active_version) {
            Some(id) => Some(
                Fault::InvalidRequest(
                    "import archive has invalid active_version_id for memory "@ + id,
                ),
            ),
            None => None,
        },
        first_of(
            places_fault(store.spaces@, store.silos@),
            first_of(
                first_fault(store.source_refs@, source_ref_faults()),
                first_of(
                    first_fault(store.source_episodes@, episode_faults()),
                    first_of(
                        first_fault(store.memories@, memory_faults()),
                        first_of(
                            first_fault(store.versions@, version_faults()),
                            first_of(
                                first_fault(grouped(store.tags@), tag_faults()),
                                first_of(
                                    first_fault(store.representations@, representation_faults()),
                                    crossings_fault(store.crossings),
                                ),
                            ),
                        ),
                    ),
                ),
            ),
        ),
    )
}

/// Checks an imported store.
pub fn validate_import_integrity(store: &ImportedStore) -> (r: Result<(), Error>)
    ensures
        verdict(r) == store_fault(*store),
{
    if let Some(id) = &store.invalid_active_version {
        return Err(
            invalid2("import archive has invalid active_version_id for memory ", id.as_str()),
        );
    }
    if let Err(e) = validate_import_spaces_and_silos(&store.spaces, &store.silos) {
        return Err(e);
    }
    if let Err(e) = validate_import_source_refs(&store.source_refs) {
        return Err(e);
    }
    if let Err(e) = validate_import_source_episodes(&store.source_episodes) {
        return Err(e);
    }
    if let Err(e) = validate_import_memories(&store.memories) {
        return Err(e);
    }
    if let Err(e) = validate_import_memory_versions(&store.versions) {
        return Err(e);
    }
    if let Err(e) = validate_import_memory_tags(&store.tags) {
        return Err(e);
    }
    if let Err(e) = validate_import_representations(&store.representations) {
        return Err(e);
    }
    validate_import_space_isolation(&store.crossings)
}

/// In an accepted store every version carries the digest of its content.
pub proof fn law_versions_are_sealed(store: ImportedStore, i: int)
    requires
        store_fault(store) is None,
        0 <= i < store.versions@.len(),
    ensures
        store.versions@[i].content_sha256@ == text_digest(store.versions@[i].content@),
{
    lemma_faultless(store.versions@, version_faults(), i);
}

} // verus!
