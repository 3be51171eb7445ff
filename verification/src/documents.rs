//! Ingested documents: storing, finding, promoting and pruning their chunks.

use vstd::prelude::*;

use crate::digest::{sha256_text, text_digest};
use crate::error::{invalid, invalid3, verdict, Error, Fault};
use crate::json::{as_text, text_of, text_of_string};
use crate::pool::clone_text;
use crate::remember::JsonDocument;
use crate::text::{decimal, decimal_of, is_blank, text_eq, trim, trimmed, views};
use crate::validate::{
    first_of, refuse_if, refused_if, reject_all_spaces_sentinel, sentinel_fault,
};
use crate::vocabulary::{ALL_SPACES, DOCUMENTS_SPACE, MAX_CONTENT_CHARS, MAX_SOURCE_REF_JSON_CHARS};

verus! {

/// Source type of chunks where none is named.
pub const DEFAULT_INGEST_SOURCE_TYPE: &'static str = "import";

/// Default chunk limit for a document fetch.
pub const DEFAULT_DOCUMENT_GET_LIMIT: usize = 500;

/// Default candidate limit for a promotion ranking.
pub const DEFAULT_PROMOTION_CANDIDATE_LIMIT: usize = 20;

/// Default cluster cap for a duplicate scan.
pub const DEFAULT_DUPLICATE_CLUSTER_LIMIT: usize = 50;

/// A text without surrounding white space, where something is left of it, else
/// the default.
pub open spec fn trimmed_or(value: Option<Seq<char>>, default: Seq<char>) -> Seq<char> {
    match value {
        Some(text) if !is_blank(text) => trimmed(text),
        _ => default,
    }
}

/// A text without surrounding white space, or the default.
pub fn trimmed_or_default(value: Option<&str>, default: &str) -> (r: String)
    ensures
        r@ == trimmed_or(text_of(value), default@),
{
    match value {
        Some(text) => {
            let core = trim(text);
            if core.is_empty() {
                default.to_owned()
            } else {
                core.to_owned()
            }
        },
        None => default.to_owned(),
    }
}

/// Request to ingest one document source as isolated chunks.
pub struct IngestRequest {
    /// Target space.
    pub space: Option<String>,
    /// Provenance type recorded on each chunk.
    pub source_type: Option<String>,
    /// Path of the source document.
    pub source_path: Option<String>,
    /// URI of the source document.
    pub source_uri: Option<String>,
    /// Description of the source.
    pub source_description: Option<String>,
    /// Metadata stored on each chunk.
    pub metadata_json: Option<JsonDocument>,
    /// Chunk contents in order.
    pub chunks: Vec<String>,
    /// The dimensions of the chunks' embeddings, where these were supplied.
    pub embeddings: Option<Vec<usize>>,
    /// Model of the embeddings.
    pub embedding_model_id: Option<String>,
    /// Validate and report without writing.
    pub dry_run: bool,
}

/// Result of ingesting a document source.
#[derive(Debug, Clone, PartialEq, Eq)]
pub struct IngestReport {
    /// Space the chunks were written to.
    pub space: String,
    /// Source path echoed back.
    pub source_path: Option<String>,
    /// Total chunks supplied in the request.
    pub chunk_count: usize,
    /// Ids created by this call.
    pub created: Vec<String>,
    /// Chunks skipped because they were there already.
    pub skipped: usize,
    /// True when this call created the target space.
    pub created_space: bool,
    /// True when validated but rolled back.
    pub dry_run: bool,
}

/// The fault of one chunk.
pub open spec fn chunk_fault(index: nat, content: Seq<char>) -> Option<Fault> {
    first_of(
        refused_if(
            is_blank(content),
            "ingest chunk "@ + decimal(index) + " must not be empty"@,
        ),
        refused_if(
            content.len() > MAX_CONTENT_CHARS,
            "ingest chunk "@ + decimal(index) + " exceeds the maximum content size"@,
        ),
    )
}

/// The first fault among chunks.
pub open spec fn chunks_fault(chunks: Seq<Seq<char>>) -> Option<Fault>
    decreases chunks.len(),
{
    if chunks.len() == 0 {
        None
    } else {
        first_of(
            chunks_fault(chunks.drop_last()),
            chunk_fault((chunks.len() - 1) as nat, chunks.last()),
        )
    }
}

proof fn lemma_chunks_fault_prefix(chunks: Seq<Seq<char>>, n: int)
    requires
        0 <= n <= chunks.len(),
        chunks_fault(chunks.take(n)) is Some,
    ensures
        chunks_fault(chunks) == chunks_fault(chunks.take(n)),
    decreases chunks.len() - n,
{
    if n == chunks.len() {
        assert(chunks.take(n) =~= chunks);
    } else {
        assert(chunks.take(n + 1).drop_last() =~= chunks.take(n));
        lemma_chunks_fault_prefix(chunks, n + 1);
    }
}

fn validate_chunks(chunks: &Vec<String>) -> (r: Result<(), Error>)
    ensures
        verdict(r) == chunks_fault(views(chunks@)),
{
    let ghost all = views(chunks@);
    assert(all.take(0) =~= Seq::empty());
    for i in 0..chunks.len()
        invariant
            all == views(chunks@),
            chunks_fault(all.take(i as int)) is None,
    {
        proof {
            assert(all.take(i + 1).drop_last() =~= all.take(i as int));
            assert(all.take(i + 1).last() == chunks@[i as int]@);
        }
        let content = chunks[i].as_str();
        let number = decimal_of(i as u64);
        if trim(content).is_empty() {
            proof {
                lemma_chunks_fault_prefix(all, i + 1);
            }
            return Err(invalid3("ingest chunk ", number.as_str(), " must not be empty"));
        }
        if content.unicode_len() > MAX_CONTENT_CHARS {
            proof {
                lemma_chunks_fault_prefix(all, i + 1);
            }
            return Err(
                invalid3("ingest chunk ", number.as_str(), " exceeds the maximum content size"),
            );
        }
    }
    assert(all.take(chunks@.len() as int) =~= all);
    Ok(())
}

/// The fault of supplied embeddings: one for each chunk, none empty, with a model.
pub open spec fn embeddings_fault(request: IngestRequest) -> Option<Fault> {
    match request.embeddings {
        None => None,
        Some(list) => first_of(
            refused_if(
                list@.len() != request.chunks@.len(),
                "ingest embeddings length must match chunks length"@,
            ),
            first_of(
                refused_if(
                    list@.contains(0),
                    "ingest embedding vectors must not be empty"@,
                ),
                refused_if(
                    request.embedding_model_id is None || is_blank(
                        request.embedding_model_id->0@,
                    ),
                    "ingest embedding_model_id is required when embeddings are supplied"@,
                ),
            ),
        ),
    }
}

fn holds_zero(list: &Vec<usize>) -> (r: bool)
    ensures
        r == list@.contains(0),
{
    for i in 0..list.len()
        invariant
            forall|k: int| 0 <= k < i ==> list@[k] != 0,
    {
        if list[i] == 0 {
            assert(list@[i as int] == 0);
            return true;
        }
    }
    false
}

fn validate_embeddings(request: &IngestRequest) -> (r: Result<(), Error>)
    ensures
        verdict(r) == embeddings_fault(*request),
{
    match &request.embeddings {
        None => Ok(()),
        Some(list) => {
            if list.len() != request.chunks.len() {
                return Err(invalid("ingest embeddings length must match chunks length"));
            }
            if holds_zero(list) {
                return Err(invalid("ingest embedding vectors must not be empty"));
            }
            let named: bool = match &request.embedding_model_id {
                Some(model) => !trim(model.as_str()).is_empty(),
                None => false,
            };
            refuse_if(
                !named,
                "ingest embedding_model_id is required when embeddings are supplied",
            )
        },
    }
}

/// The space that a request ingests into.
pub open spec fn ingest_space(request: IngestRequest) -> Seq<char> {
    trimmed_or(text_of_string(request.space), DOCUMENTS_SPACE@)
}

/// The first fault of an ingest request: the marker of all spaces is no space to
/// ingest into, also with white space around it.
pub open spec fn ingest_fault(request: IngestRequest) -> Option<Fault> {
    first_of(
        sentinel_fault(text_of_string(request.space)),
        first_of(sentinel_fault(Some(ingest_space(request))), request_fault(request)),
    )
}

/// The first fault of an ingest request beyond the all-spaces marker.
pub open spec fn request_fault(request: IngestRequest) -> Option<Fault> {
    first_of(
        refused_if(
            request.chunks@.len() == 0,
            "ingest request must include at least one chunk"@,
        ),
        first_of(
            refused_if(
                request.space is Some && is_blank(request.space->0@),
                "ingest space must not be blank when provided"@,
            ),
            first_of(
                chunks_fault(views(request.chunks@)),
                first_of(
                    match request.metadata_json {
                        Some(document) => refused_if(
                            document.text@.len() > MAX_SOURCE_REF_JSON_CHARS
                                || !document.holds_object(),
                            "ingest metadata_json must be a valid JSON object"@,
                        ),
                        None => None,
                    },
                    embeddings_fault(request),
                ),
            ),
        ),
    )
}

/// Checks an ingest request.
pub fn validate_ingest_request(request: &IngestRequest) -> (r: Result<(), Error>)
    ensures
        verdict(r) == ingest_fault(*request),
{
    if let Err(e) = reject_all_spaces_sentinel(as_text(&request.space)) {
        return Err(e);
    }
    let space = trimmed_or_default(as_text(&request.space), DOCUMENTS_SPACE);
    if let Err(e) = reject_all_spaces_sentinel(Some(space.as_str())) {
        return Err(e);
    }
    if request.chunks.len() == 0 {
        return Err(invalid("ingest request must include at least one chunk"));
    }
    if let Some(space) = &request.space {
        if trim(space.as_str()).is_empty() {
            return Err(invalid("ingest space must not be blank when provided"));
        }
    }
    if let Err(e) = validate_chunks(&request.chunks) {
        return Err(e);
    }
    if let Some(document) = &request.metadata_json {
        if document.text.as_str().unicode_len() > MAX_SOURCE_REF_JSON_CHARS || !document.is_object() {
            return Err(invalid("ingest metadata_json must be a valid JSON object"));
        }
    }
    validate_embeddings(request)
}

/// Nothing is ingested into the marker of all spaces.
pub proof fn law_ingest_names_one_space(request: IngestRequest)
    requires
        ingest_fault(request) is None,
    ensures
        ingest_space(request) != ALL_SPACES@,
{
}

/// A stored chunk of the same space and source path.
pub struct KnownChunk {
    /// Digest of its content.
    pub content_sha256: String,
    /// Its id.
    pub id: String,
}

/// The models of known chunks: digest and id.
pub open spec fn known_chunks(list: Seq<KnownChunk>) -> Seq<(Seq<char>, Seq<char>)> {
    list.map_values(|k: KnownChunk| (k.content_sha256@, k.id@))
}

/// What happens to one chunk.
pub struct ChunkAction {
    /// The chunk's id.
    pub id: String,
    /// Whether the chunk is stored anew; else its provenance is brought up to date.
    pub insert: bool,
    /// Digest of its content.
    pub content_sha256: String,
}

/// The models of chunk actions: id, whether it is new, digest.
pub open spec fn actions(list: Seq<ChunkAction>) -> Seq<(Seq<char>, bool, Seq<char>)> {
    list.map_values(|a: ChunkAction| (a.id@, a.insert, a.content_sha256@))
}

/// The chunks that are known after the first `n` chunks of a request were
/// ingested.
pub open spec fn known_after(
    chunks: Seq<Seq<char>>,
    ids: Seq<Seq<char>>,
    known: Seq<(Seq<char>, Seq<char>)>,
    n: nat,
) -> Seq<(Seq<char>, Seq<char>)>
    decreases n,
{
    if n == 0 {
        known
    } else {
        let before = known_after(chunks, ids, known, (n - 1) as nat);
        let digest = text_digest(chunks[n - 1]);
        if crate::admissions::lookup(before, digest) is Some {
            before
        } else {
            before.push((digest, ids[n - 1]))
        }
    }
}

/// What happens to the chunk at a position: it is brought up to date where the
/// space has its content under the same source path already, and stored under a
/// new id otherwise.
pub open spec fn chunk_action(
    chunks: Seq<Seq<char>>,
    ids: Seq<Seq<char>>,
    known: Seq<(Seq<char>, Seq<char>)>,
    i: int,
) -> (Seq<char>, bool, Seq<char>) {
    let before = known_after(chunks, ids, known, i as nat);
    let digest = text_digest(chunks[i]);
    match crate::admissions::lookup(before, digest) {
        Some(id) => (id, false, digest),
        None => (ids[i], true, digest),
    }
}

/// What happens to all chunks.
pub open spec fn chunk_actions(
    chunks: Seq<Seq<char>>,
    ids: Seq<Seq<char>>,
    known: Seq<(Seq<char>, Seq<char>)>,
) -> Seq<(Seq<char>, bool, Seq<char>)> {
    Seq::new(chunks.len(), |i: int| chunk_action(chunks, ids, known, i))
}

/// The ids that are new.
pub open spec fn created_ids(list: Seq<(Seq<char>, bool, Seq<char>)>) -> Seq<Seq<char>>
    decreases list.len(),
{
    if list.len() == 0 {
        Seq::empty()
    } else if list.last().1 {
        created_ids(list.drop_last()).push(list.last().0)
    } else {
        created_ids(list.drop_last())
    }
}

/// What an ingest puts into the store and reports.
pub struct IngestPlan {
    /// Target space.
    pub space: String,
    /// Whether the space is made.
    pub create_space: bool,
    /// Source type of the chunks.
    pub source_type: String,
    /// What happens to each chunk.
    pub actions: Vec<ChunkAction>,
    /// The report.
    pub report: IngestReport,
}

/// The known chunk with the digest.
fn find_known(known: &Vec<KnownChunk>, digest: &str) -> (r: Option<usize>)
    ensures
        match r {
            Some(i) => i < known@.len() && crate::admissions::lookup(
                known_chunks(known@),
                digest@,
            ) == Some(known@[i as int].id@),
            None => crate::admissions::lookup(known_chunks(known@), digest@) is None,
        },
{
    let ghost models = known_chunks(known@);
    for i in 0..known.len()
        invariant
            models == known_chunks(known@),
            forall|j: int| 0 <= j < i ==> models[j].0 != digest@,
    {
        if text_eq(known[i].content_sha256.as_str(), digest) {
            proof {
                assert(models[i as int].0 == digest@);
                crate::admissions::lemma_lookup_at(models, digest@, i as int);
            }
            return Some(i);
        }
    }
    proof {
        crate::admissions::lemma_lookup_none(models, digest@);
    }
    None
}

fn plan_chunks(chunks: &Vec<String>, ids: &Vec<String>, known: Vec<KnownChunk>) -> (r: (
    Vec<ChunkAction>,
    Vec<String>,
    usize,
))
    requires
        ids@.len() == chunks@.len(),
    ensures
        ({
            let wanted = chunk_actions(views(chunks@), views(ids@), known_chunks(known@));
            &&& actions(r.0@) == wanted
            &&& views(r.1@) == created_ids(wanted)
            &&& r.2 == chunks@.len() - created_ids(wanted).len()
        }),
{
    let ghost texts = views(chunks@);
    let ghost names = views(ids@);
    let ghost start = known_chunks(known@);
    let ghost wanted = chunk_actions(texts, names, start);
    let mut seen = known;
    let mut out: Vec<ChunkAction> = Vec::new();
    let mut created: Vec<String> = Vec::new();
    let mut skipped: usize = 0;
    assert(actions(out@) =~= wanted.take(0));
    assert(views(created@) =~= created_ids(wanted.take(0)));
    for i in 0..chunks.len()
        invariant
            texts == views(chunks@),
            names == views(ids@),
            ids@.len() == chunks@.len(),
            wanted == chunk_actions(texts, names, start),
            known_chunks(seen@) == known_after(texts, names, start, i as nat),
            actions(out@) == wanted.take(i as int),
            views(created@) == created_ids(wanted.take(i as int)),
            skipped + created@.len() == i,
    {
        let digest = sha256_text(chunks[i].as_str());
        let ghost before_out = out@;
        let ghost before_created = created@;
        let ghost before_seen = seen@;
        proof {
            assert(texts[i as int] == chunks@[i as int]@);
            assert(wanted[i as int] == chunk_action(texts, names, start, i as int));
            assert(wanted.take(i + 1).drop_last() =~= wanted.take(i as int));
            assert(wanted.take(i + 1).last() == wanted[i as int]);
            assert(wanted.take(i + 1) =~= wanted.take(i as int).push(wanted[i as int]));
            assert(views(before_created).len() == before_created.len());
        }
        match find_known(&seen, digest.as_str()) {
            Some(at) => {
                let id = seen[at].id.clone();
                out.push(ChunkAction { id, insert: false, content_sha256: digest });
                skipped = skipped + 1;
            },
            None => {
                let id = ids[i].clone();
                seen.push(KnownChunk { content_sha256: digest.clone(), id: id.clone() });
                assert(known_chunks(seen@) =~= known_chunks(before_seen).push(
                    (digest@, names[i as int]),
                ));
                created.push(id.clone());
                assert(views(created@) =~= views(before_created).push(names[i as int]));
                out.push(ChunkAction { id, insert: true, content_sha256: digest });
            },
        }
        assert(actions(out@) =~= actions(before_out).push(wanted[i as int]));
    }
    assert(wanted.take(chunks@.len() as int) =~= wanted);
    assert(views(created@).len() == created@.len());
    (out, created, skipped)
}

/// Whether a plan is what an ingest request calls for.
pub open spec fn ingest_matches(
    plan: IngestPlan,
    request: IngestRequest,
    space_exists: bool,
    ids: Seq<Seq<char>>,
    known: Seq<(Seq<char>, Seq<char>)>,
) -> bool {
    let wanted = chunk_actions(views(request.chunks@), ids, known);
    &&& plan.space@ == ingest_space(request)
    &&& plan.create_space == !space_exists
    &&& plan.source_type@ == trimmed_or(
        text_of_string(request.source_type),
        DEFAULT_INGEST_SOURCE_TYPE@,
    )
    &&& actions(plan.actions@) == wanted
    &&& plan.report.space@ == plan.space@
    &&& text_of_string(plan.report.source_path) == text_of_string(request.source_path)
    &&& plan.report.chunk_count == request.chunks@.len()
    &&& views(plan.report.created@) == created_ids(wanted)
    &&& plan.report.skipped == request.chunks@.len() - created_ids(wanted).len()
    &&& plan.report.created_space == (!space_exists && !request.dry_run)
    &&& plan.report.dry_run == request.dry_run
}

/// Ingest one document source as isolated chunks. `ids` holds a fresh id for each
/// chunk, `known` the chunks that the space has under the request's source path.
pub fn ingest_source(
    request: &IngestRequest,
    space_exists: bool,
    ids: &Vec<String>,
    known: Vec<KnownChunk>,
) -> (r: Result<IngestPlan, Error>)
    requires
        ids@.len() == request.chunks@.len(),
    ensures
        match r {
            Ok(plan) => ingest_fault(*request) is None && ingest_matches(
                plan,
                *request,
                space_exists,
                views(ids@),
                known_chunks(known@),
            ),
            Err(e) => ingest_fault(*request) == Some(e@),
        },
{
    if let Err(e) = validate_ingest_request(request) {
        return Err(e);
    }
    let space = trimmed_or_default(as_text(&request.space), DOCUMENTS_SPACE);
    let source_type = trimmed_or_default(
        as_text(&request.source_type),
        DEFAULT_INGEST_SOURCE_TYPE,
    );
    let (actions, created, skipped) = plan_chunks(&request.chunks, ids, known);
    Ok(
        IngestPlan {
            space: space.clone(),
            create_space: !space_exists,
            source_type,
            actions,
            report: IngestReport {
                space,
                source_path: clone_text(&request.source_path),
                chunk_count: request.chunks.len(),
                created,
                skipped,
                created_space: !space_exists && !request.dry_run,
                dry_run: request.dry_run,
            },
        },
    )
}

proof fn lemma_known_grows(
    chunks: Seq<Seq<char>>,
    ids: Seq<Seq<char>>,
    known: Seq<(Seq<char>, Seq<char>)>,
    digest: Seq<char>,
    m: nat,
    n: nat,
)
    requires
        m <= n,
        crate::admissions::lookup(known_after(chunks, ids, known, m), digest) is Some,
    ensures
        crate::admissions::lookup(known_after(chunks, ids, known, n), digest) is Some,
    decreases n - m,
{
    if m < n {
        let before = known_after(chunks, ids, known, m);
        let after = known_after(chunks, ids, known, m + 1);
        if after != before {
            assert(after.drop_last() =~= before);
        }
        lemma_known_grows(chunks, ids, known, digest, m + 1, n);
    }
}

proof fn lemma_chunk_becomes_known(
    chunks: Seq<Seq<char>>,
    ids: Seq<Seq<char>>,
    known: Seq<(Seq<char>, Seq<char>)>,
    i: int,
)
    requires
        0 <= i < chunks.len(),
    ensures
        crate::admissions::lookup(
            known_after(chunks, ids, known, chunks.len()),
            text_digest(chunks[i]),
        ) is Some,
{
    let digest = text_digest(chunks[i]);
    let before = known_after(chunks, ids, known, i as nat);
    let after = known_after(chunks, ids, known, (i + 1) as nat);
    if crate::admissions::lookup(before, digest) is None {
        assert(after.drop_last() =~= before);
    }
    lemma_known_grows(chunks, ids, known, digest, (i + 1) as nat, chunks.len());
}

/// Ingesting the same chunks again stores nothing: every chunk is known by then.
pub proof fn law_ingest_is_idempotent(
    chunks: Seq<Seq<char>>,
    ids: Seq<Seq<char>>,
    known: Seq<(Seq<char>, Seq<char>)>,
    later_ids: Seq<Seq<char>>,
)
    ensures
        ({
            let stored = known_after(chunks, ids, known, chunks.len());
            let again = chunk_actions(chunks, later_ids, stored);
            &&& forall|i: int| 0 <= i < again.len() ==> !(#[trigger] again[i]).1
            &&& created_ids(again).len() == 0
        }),
{
    let stored = known_after(chunks, ids, known, chunks.len());
    let again = chunk_actions(chunks, later_ids, stored);
    assert forall|i: int| 0 <= i < again.len() implies !(#[trigger] again[i]).1 by {
        lemma_chunk_becomes_known(chunks, ids, known, i);
        assert(known_after(chunks, later_ids, stored, 0) == stored);
        lemma_known_grows(chunks, later_ids, stored, text_digest(chunks[i]), 0, i as nat);
    }
    lemma_no_created(again);
}

proof fn lemma_no_created(list: Seq<(Seq<char>, bool, Seq<char>)>)
    requires
        forall|i: int| 0 <= i < list.len() ==> !(#[trigger] list[i]).1,
    ensures
        created_ids(list).len() == 0,
    decreases list.len(),
{
    if list.len() > 0 {
        let rest = list.drop_last();
        assert forall|i: int| 0 <= i < rest.len() implies !(#[trigger] rest[i]).1 by {
            assert(rest[i] == list[i]);
        }
        lemma_no_created(rest);
        assert(!list[list.len() - 1].1);
    }
}

} // verus!
