//! What filing documents, searching them and taking them away promise.

use vstd::prelude::*;

use crate::admissions::lookup;
use crate::chunks::{
    chunk_keys, find_chunk, get_document, mark_source_episodes_extracted, merge_document_hits,
    merged_hits, merged_models, open_chunks, plan_document_search, promotion_candidates,
    prune_documents, pruned, search_documents, statuses, with_hits, ChunkStatus, DocumentChunkHit,
    DocumentGetPlan, DocumentGetRequest, DocumentPruneReport, DocumentPruneRequest,
    DocumentSearchPlan, DocumentSearchReport, DocumentSearchRequest, MarkExtractedReport,
    MarkExtractedRequest, MergedChunk, MergedModel, PromotionCandidatesRequest, PromotionPlan,
};
use crate::digest::text_digest;
use crate::documents::{
    actions, chunk_action, chunk_actions, chunk_fault, chunks_fault, created_ids, ingest_source,
    known_after, known_chunks, ChunkAction, IngestPlan, IngestRequest, KnownChunk,
};
use crate::error::Error;
use crate::json::text_of_string;
use crate::laws::ordering::{lemma_key_order, lemma_sorting_names_each, names_each_once};
use crate::order::text_less;
use crate::ranking::{sorting, Score};
use crate::text::{decimal, is_blank, trimmed, views};

verus! {

/// Whether a chunk with a digest is on file under an id.
pub open spec fn is_on_file(known: Seq<KnownChunk>, digest: Seq<char>, id: Seq<char>) -> bool {
    exists|k: int|
        0 <= k < known.len() && (#[trigger] known[k]).content_sha256@ == digest && known[k].id@
            == id
}

/// Whether a chunk with a digest is on file.
pub open spec fn is_filed(known: Seq<KnownChunk>, digest: Seq<char>) -> bool {
    exists|k: int| 0 <= k < known.len() && (#[trigger] known[k]).content_sha256@ == digest
}

/// Whether one of the first `n` chunks has a text.
pub open spec fn came_before(chunks: Seq<String>, n: int, digest: Seq<char>) -> bool {
    exists|k: int| 0 <= k < n && text_digest((#[trigger] chunks[k])@) == digest
}

/// Whether one of the first `n` chunks has a digest and is to be inserted under an id.
pub open spec fn is_inserted_before(
    plan: Seq<ChunkAction>,
    n: int,
    digest: Seq<char>,
    id: Seq<char>,
) -> bool {
    exists|k: int|
        0 <= k < n && (#[trigger] plan[k]).insert && plan[k].content_sha256@ == digest
            && plan[k].id@ == id
}

proof fn lemma_lookup(list: Seq<(Seq<char>, Seq<char>)>, key: Seq<char>)
    ensures
        match lookup(list, key) {
            Some(id) => exists|k: int|
                0 <= k < list.len() && (#[trigger] list[k]).0 == key && list[k].1 == id,
            None => forall|k: int| 0 <= k < list.len() ==> (#[trigger] list[k]).0 != key,
        },
    decreases list.len(),
{
    if list.len() > 0 {
        let rest = list.drop_last();
        lemma_lookup(rest, key);
        match lookup(rest, key) {
            Some(id) => {
                let k = choose|k: int|
                    0 <= k < rest.len() && (#[trigger] rest[k]).0 == key && rest[k].1 == id;
                assert(list[k] == rest[k]);
            },
            None => {
                assert forall|k: int|
                    0 <= k < list.len() && lookup(list, key) is None implies (
                #[trigger] list[k]).0 != key by {
                    if k < rest.len() {
                        assert(rest[k] == list[k]);
                    }
                }
                assert(list[list.len() - 1] == list.last());
            },
        }
    }
}

/// Whether a pair is among those that were known, or comes of an earlier chunk.
spec fn is_accounted(
    chunks: Seq<Seq<char>>,
    ids: Seq<Seq<char>>,
    known: Seq<(Seq<char>, Seq<char>)>,
    n: nat,
    pair: (Seq<char>, Seq<char>),
) -> bool {
    known.contains(pair) || exists|k: int|
        0 <= k < n && #[trigger] chunk_action(chunks, ids, known, k) == (pair.1, true, pair.0)
}

proof fn lemma_known_after(
    chunks: Seq<Seq<char>>,
    ids: Seq<Seq<char>>,
    known: Seq<(Seq<char>, Seq<char>)>,
    n: nat,
)
    requires
        n <= chunks.len(),
        ids.len() == chunks.len(),
    ensures
        forall|p: int|
            0 <= p < known_after(chunks, ids, known, n).len() ==> is_accounted(
                chunks,
                ids,
                known,
                n,
                #[trigger] known_after(chunks, ids, known, n)[p],
            ),
        forall|k: int|
            0 <= k < n ==> lookup(
                known_after(chunks, ids, known, n),
                text_digest(#[trigger] chunks[k]),
            ) is Some,
        forall|p: int|
            0 <= p < known.len() ==> lookup(
                known_after(chunks, ids, known, n),
                (#[trigger] known[p]).0,
            ) is Some,
    decreases n,
{
    let after = known_after(chunks, ids, known, n);
    if n == 0 {
        assert forall|p: int| 0 <= p < known.len() implies lookup(
            after,
            (#[trigger] known[p]).0,
        ) is Some by {
            lemma_lookup(known, known[p].0);
        }
        assert forall|p: int| 0 <= p < after.len() implies is_accounted(
            chunks,
            ids,
            known,
            n,
            #[trigger] after[p],
        ) by {
            assert(known.contains(known[p]));
        }
    } else {
        let m = (n - 1) as nat;
        lemma_known_after(chunks, ids, known, m);
        let before = known_after(chunks, ids, known, m);
        let digest = text_digest(chunks[n - 1]);
        assert forall|key: Seq<char>| lookup(before, key) is Some implies #[trigger] lookup(
            after,
            key,
        ) is Some by {
            if after.len() > before.len() {
                assert(after.drop_last() =~= before);
            }
        }
        if lookup(before, digest) is None {
            assert(after.drop_last() =~= before);
            assert(lookup(after, digest) is Some);
        }
        assert forall|p: int| 0 <= p < after.len() implies is_accounted(
            chunks,
            ids,
            known,
            n,
            #[trigger] after[p],
        ) by {
            if p < before.len() {
                assert(after[p] == before[p]);
                assert(is_accounted(chunks, ids, known, m, before[p]));
                if !known.contains(before[p]) {
                    let k = choose|k: int|
                        0 <= k < m && #[trigger] chunk_action(chunks, ids, known, k) == (
                            before[p].1,
                            true,
                            before[p].0,
                        );
                    assert(chunk_action(chunks, ids, known, k) == (after[p].1, true, after[p].0));
                }
            } else {
                assert(chunk_action(chunks, ids, known, n - 1) == (after[p].1, true, after[p].0));
            }
        }
    }
}

/// Filing keeps each text once. A chunk is inserted, under the id that is made for it,
/// exactly where no chunk with its text is on file and none came before it; otherwise it
/// goes by the id of the one that is there. Every chunk is accounted for.
pub proof fn law_each_text_is_filed_once(
    request: IngestRequest,
    space_exists: bool,
    ids: Vec<String>,
    known: Vec<KnownChunk>,
    plan: IngestPlan,
    i: int,
)
    requires
        ids@.len() == request.chunks@.len(),
        call_ensures(
            ingest_source,
            (&request, space_exists, &ids, known),
            Ok::<IngestPlan, Error>(plan),
        ),
        0 <= i < request.chunks@.len(),
    ensures
        plan.actions@.len() == request.chunks@.len(),
        plan.actions@[i].content_sha256@ == text_digest(request.chunks@[i]@),
        plan.actions@[i].insert <==> !is_filed(known@, text_digest(request.chunks@[i]@))
            && !came_before(request.chunks@, i, text_digest(request.chunks@[i]@)),
        plan.actions@[i].insert ==> plan.actions@[i].id@ == ids@[i]@,
        !plan.actions@[i].insert ==> is_on_file(
            known@,
            text_digest(request.chunks@[i]@),
            plan.actions@[i].id@,
        ) || is_inserted_before(
            plan.actions@,
            i,
            text_digest(request.chunks@[i]@),
            plan.actions@[i].id@,
        ),
{
    let chunks = views(request.chunks@);
    let given = views(ids@);
    let pairs = known_chunks(known@);
    let wanted = chunk_actions(chunks, given, pairs);
    let all = actions(plan.actions@);
    assert(chunks.len() == request.chunks@.len() && given.len() == ids@.len());
    assert(all.len() == plan.actions@.len());
    assert(pairs.len() == known@.len());
    assert forall|k: int| 0 <= k < all.len() implies (#[trigger] plan.actions@[k]).id@
        == chunk_action(chunks, given, pairs, k).0 && plan.actions@[k].insert == chunk_action(
        chunks,
        given,
        pairs,
        k,
    ).1 && plan.actions@[k].content_sha256@ == chunk_action(chunks, given, pairs, k).2 by {
        assert(all[k] == wanted[k]);
    }
    assert(given[i] == ids@[i]@ && chunks[i] == request.chunks@[i]@);
    let digest = text_digest(chunks[i]);
    let before = known_after(chunks, given, pairs, i as nat);
    lemma_known_after(chunks, given, pairs, i as nat);
    lemma_lookup(before, digest);
    if is_filed(known@, digest) {
        let k = choose|k: int|
            0 <= k < known@.len() && (#[trigger] known@[k]).content_sha256@ == digest;
        assert(pairs[k].0 == digest);
    }
    if came_before(request.chunks@, i, digest) {
        let k = choose|k: int| 0 <= k < i && text_digest((#[trigger] request.chunks@[k])@) == digest;
        assert(text_digest(chunks[k]) == digest);
    }
    if let Some(id) = lookup(before, digest) {
        let p = choose|p: int|
            0 <= p < before.len() && (#[trigger] before[p]).0 == digest && before[p].1 == id;
        assert(is_accounted(chunks, given, pairs, i as nat, before[p]));
        if pairs.contains(before[p]) {
            let k = choose|k: int| 0 <= k < pairs.len() && pairs[k] == before[p];
            assert(known@[k].content_sha256@ == digest && known@[k].id@ == id);
        } else {
            let k = choose|k: int|
                0 <= k < i && #[trigger] chunk_action(chunks, given, pairs, k) == (id, true, digest);
            assert(plan.actions@[k].insert);
            assert(text_digest(request.chunks@[k]@) == digest) by {
                assert(chunks[k] == request.chunks@[k]@);
            }
        }
    }
}

proof fn lemma_created(list: Seq<(Seq<char>, bool, Seq<char>)>)
    ensures
        forall|i: int|
            0 <= i < list.len() && (#[trigger] list[i]).1 ==> created_ids(list).contains(list[i].0),
        created_ids(list).len() <= list.len(),
    decreases list.len(),
{
    if list.len() > 0 {
        let rest = list.drop_last();
        lemma_created(rest);
        assert forall|i: int| 0 <= i < list.len() && (#[trigger] list[i]).1 implies created_ids(
            list,
        ).contains(list[i].0) by {
            if i < rest.len() {
                assert(rest[i] == list[i]);
                let k = choose|k: int|
                    0 <= k < created_ids(rest).len() && created_ids(rest)[k] == list[i].0;
                assert(created_ids(list)[k] == list[i].0);
            } else {
                assert(created_ids(list)[created_ids(rest).len() as int] == list[i].0);
            }
        }
    }
}

/// A report on filing names every chunk that is inserted, and counts the others as
/// skipped. What is filed goes into the space that is named, or that of documents.
pub proof fn law_filing_accounts_for_all(
    request: IngestRequest,
    space_exists: bool,
    ids: Vec<String>,
    known: Vec<KnownChunk>,
    plan: IngestPlan,
)
    requires
        ids@.len() == request.chunks@.len(),
        call_ensures(
            ingest_source,
            (&request, space_exists, &ids, known),
            Ok::<IngestPlan, Error>(plan),
        ),
    ensures
        request.chunks@.len() > 0,
        forall|i: int|
            0 <= i < request.chunks@.len() ==> !is_blank((#[trigger] request.chunks@[i])@)
                && request.chunks@[i]@.len() <= 131_072,
        forall|i: int|
            0 <= i < plan.actions@.len() && (#[trigger] plan.actions@[i]).insert ==> views(
                plan.report.created@,
            ).contains(plan.actions@[i].id@),
        plan.report.created@.len() + plan.report.skipped == request.chunks@.len(),
        plan.report.chunk_count == request.chunks@.len(),
        request.space is None ==> plan.space@ == "documents"@,
        request.space matches Some(space) ==> plan.space@ == trimmed(space@),
        request.source_type is None ==> plan.source_type@ == "import"@,
        plan.report.space@ == plan.space@,
        plan.create_space <==> !space_exists,
        plan.report.created_space <==> !space_exists && !request.dry_run,
        plan.report.dry_run == request.dry_run,
{
    let all = actions(plan.actions@);
    lemma_created(all);
    assert(all.len() == plan.actions@.len());
    assert(views(plan.report.created@).len() == plan.report.created@.len());
    assert forall|i: int| 0 <= i < plan.actions@.len() && (
    #[trigger] plan.actions@[i]).insert implies views(plan.report.created@).contains(
        plan.actions@[i].id@,
    ) by {
        assert(all[i].1 && all[i].0 == plan.actions@[i].id@);
    }
    let chunks = views(request.chunks@);
    assert(chunks.len() == request.chunks@.len());
    assert forall|i: int| 0 <= i < request.chunks@.len() implies !is_blank(
        (#[trigger] request.chunks@[i])@,
    ) && request.chunks@[i]@.len() <= 131_072 by {
        lemma_chunk_ok(chunks, i);
        assert(chunks[i] == request.chunks@[i]@);
    }
}

proof fn lemma_chunk_ok(chunks: Seq<Seq<char>>, i: int)
    requires
        chunks_fault(chunks) is None,
        0 <= i < chunks.len(),
    ensures
        !is_blank(chunks[i]),
        chunks[i].len() <= 131_072,
    decreases chunks.len(),
{
    if i < chunks.len() - 1 {
        lemma_chunk_ok(chunks.drop_last(), i);
    } else {
        assert(chunk_fault((chunks.len() - 1) as nat, chunks.last()) is None);
    }
}

/// Whether some hit of a list is of a chunk.
pub open spec fn hits_chunk(hits: Seq<DocumentChunkHit>, n: int, id: Seq<char>) -> bool {
    exists|k: int| 0 <= k < n && (#[trigger] hits[k]).source_episode_id@ == id
}

/// Whether the chunk of a hit is among the merged ones.
pub open spec fn is_merged(list: Seq<MergedModel>, id: Seq<char>) -> bool {
    exists|k: int| 0 <= k < list.len() && (#[trigger] list[k]).hit.source_episode_id@ == id
}

proof fn lemma_find_chunk(list: Seq<MergedModel>, id: Seq<char>)
    ensures
        match find_chunk(list, id) {
            Some(i) => 0 <= i < list.len() && list[i].hit.source_episode_id@ == id,
            None => !is_merged(list, id),
        },
    decreases list.len(),
{
    if list.len() > 0 {
        let rest = list.drop_last();
        lemma_find_chunk(rest, id);
        if find_chunk(list, id) is None && is_merged(list, id) {
            let k = choose|k: int|
                0 <= k < list.len() && (#[trigger] list[k]).hit.source_episode_id@ == id;
            assert(rest[k].hit.source_episode_id@ == id);
        }
    }
}

/// Whether merged chunks tell which lists they come from, where the first `n` hits of
/// the second list were merged to those of the first.
spec fn tells_apart(
    list: Seq<MergedModel>,
    semantic: Seq<DocumentChunkHit>,
    n: int,
    lexical: Seq<DocumentChunkHit>,
    m: int,
) -> bool {
    &&& forall|k: int|
        0 <= k < list.len() ==> ((#[trigger] list[k]).semantic <==> hits_chunk(
            semantic,
            n,
            list[k].hit.source_episode_id@,
        )) && (list[k].lexical <==> hits_chunk(lexical, m, list[k].hit.source_episode_id@)) && (
        list[k].semantic || list[k].lexical)
    &&& forall|k: int|
        0 <= k < n ==> is_merged(list, (#[trigger] semantic[k]).source_episode_id@)
    &&& forall|k: int|
        0 <= k < m ==> is_merged(list, (#[trigger] lexical[k]).source_episode_id@)
    &&& forall|i: int, j: int|
        0 <= i < j < list.len() ==> (#[trigger] list[i]).hit.source_episode_id@ != (
        #[trigger] list[j]).hit.source_episode_id@
}

proof fn lemma_one_more(
    before: Seq<MergedModel>,
    semantic: Seq<DocumentChunkHit>,
    n: int,
    lexical: Seq<DocumentChunkHit>,
    m: int,
    first: bool,
)
    requires
        tells_apart(before, semantic, n, lexical, m),
        first ==> 0 <= n < semantic.len() && m == 0,
        !first ==> 0 <= m < lexical.len() && 0 <= n <= semantic.len(),
    ensures
        first ==> tells_apart(
            crate::chunks::with_hit(before, semantic[n], n as usize, true),
            semantic,
            n + 1,
            lexical,
            m,
        ),
        !first ==> tells_apart(
            crate::chunks::with_hit(before, lexical[m], m as usize, false),
            semantic,
            n,
            lexical,
            m + 1,
        ),
{
    let hit = if first {
        semantic[n]
    } else {
        lexical[m]
    };
    let id = hit.source_episode_id@;
    let rank = if first {
        n as usize
    } else {
        m as usize
    };
    let after = crate::chunks::with_hit(before, hit, rank, first);
    let n2 = if first {
        n + 1
    } else {
        n
    };
    let m2 = if first {
        m
    } else {
        m + 1
    };
    lemma_find_chunk(before, id);
    assert forall|other: Seq<char>|
        hits_chunk(semantic, n2, other) <==> #[trigger] hits_chunk(semantic, n, other) || (first
            && other == id) by {
        if hits_chunk(semantic, n2, other) {
            let k = choose|k: int|
                0 <= k < n2 && (#[trigger] semantic[k]).source_episode_id@ == other;
            assert(semantic[k].source_episode_id@ == other);
        }
        if hits_chunk(semantic, n, other) {
            let k = choose|k: int|
                0 <= k < n && (#[trigger] semantic[k]).source_episode_id@ == other;
            assert(semantic[k].source_episode_id@ == other);
        }
        if first {
            assert(semantic[n].source_episode_id@ == id);
        }
    }
    assert forall|other: Seq<char>|
        hits_chunk(lexical, m2, other) <==> #[trigger] hits_chunk(lexical, m, other) || (!first
            && other == id) by {
        if hits_chunk(lexical, m2, other) {
            let k = choose|k: int|
                0 <= k < m2 && (#[trigger] lexical[k]).source_episode_id@ == other;
            assert(lexical[k].source_episode_id@ == other);
        }
        if hits_chunk(lexical, m, other) {
            let k = choose|k: int|
                0 <= k < m && (#[trigger] lexical[k]).source_episode_id@ == other;
            assert(lexical[k].source_episode_id@ == other);
        }
        if !first {
            assert(lexical[m].source_episode_id@ == id);
        }
    }
    assert forall|k: int| 0 <= k < before.len() implies (
    #[trigger] after[k]).hit.source_episode_id@ == before[k].hit.source_episode_id@ by {}
    assert forall|other: Seq<char>| #[trigger] is_merged(before, other) implies is_merged(
        after,
        other,
    ) by {
        let k = choose|k: int|
            0 <= k < before.len() && (#[trigger] before[k]).hit.source_episode_id@ == other;
        assert(after[k].hit.source_episode_id@ == other);
    }
    match find_chunk(before, id) {
        Some(i) => {
            assert(after[i].hit.source_episode_id@ == id);
            assert forall|k: int| 0 <= k < after.len() implies ((#[trigger] after[k]).semantic
                <==> hits_chunk(semantic, n2, after[k].hit.source_episode_id@)) && (
            after[k].lexical <==> hits_chunk(lexical, m2, after[k].hit.source_episode_id@)) && (
            after[k].semantic || after[k].lexical) by {
                let kept = before[k];
                let own = kept.hit.source_episode_id@;
                assert(hits_chunk(semantic, n, own) == kept.semantic);
                assert(hits_chunk(lexical, m, own) == kept.lexical);
                if k != i {
                    assert(after[k] == before[k]);
                    assert(own != id);
                }
            }
        },
        None => {
            assert(after[before.len() as int].hit.source_episode_id@ == id);
            assert(!hits_chunk(semantic, n, id)) by {
                if hits_chunk(semantic, n, id) {
                    let k = choose|k: int|
                        0 <= k < n && (#[trigger] semantic[k]).source_episode_id@ == id;
                    assert(is_merged(before, semantic[k].source_episode_id@));
                }
            }
            assert(!hits_chunk(lexical, m, id)) by {
                if hits_chunk(lexical, m, id) {
                    let k = choose|k: int|
                        0 <= k < m && (#[trigger] lexical[k]).source_episode_id@ == id;
                    assert(is_merged(before, lexical[k].source_episode_id@));
                }
            }
            assert forall|k: int| 0 <= k < after.len() implies ((#[trigger] after[k]).semantic
                <==> hits_chunk(semantic, n2, after[k].hit.source_episode_id@)) && (
            after[k].lexical <==> hits_chunk(lexical, m2, after[k].hit.source_episode_id@)) && (
            after[k].semantic || after[k].lexical) by {
                if k < before.len() {
                    let own = before[k].hit.source_episode_id@;
                    assert(after[k] == before[k]);
                    assert(hits_chunk(semantic, n, own) == before[k].semantic);
                    assert(hits_chunk(lexical, m, own) == before[k].lexical);
                    assert(own != id) by {
                        if own == id {
                            assert(is_merged(before, id));
                        }
                    }
                }
            }
        },
    }
    assert(is_merged(after, id));
    assert forall|k: int| 0 <= k < n2 implies is_merged(
        after,
        (#[trigger] semantic[k]).source_episode_id@,
    ) by {
        if k < n {
            assert(is_merged(before, semantic[k].source_episode_id@));
        }
    }
    assert forall|k: int| 0 <= k < m2 implies is_merged(
        after,
        (#[trigger] lexical[k]).source_episode_id@,
    ) by {
        if k < m {
            assert(is_merged(before, lexical[k].source_episode_id@));
        }
    }
    assert forall|i: int, j: int| 0 <= i < j < after.len() implies (
    #[trigger] after[i]).hit.source_episode_id@ != (
    #[trigger] after[j]).hit.source_episode_id@ by {
        if j < before.len() {
            assert(before[i].hit.source_episode_id@ != before[j].hit.source_episode_id@);
        } else {
            assert(before[i].hit.source_episode_id@ != id) by {
                if before[i].hit.source_episode_id@ == id {
                    assert(is_merged(before, id));
                }
            }
        }
    }
}

proof fn lemma_first_list(semantic: Seq<DocumentChunkHit>, lexical: Seq<DocumentChunkHit>, n: nat)
    requires
        n <= semantic.len(),
    ensures
        tells_apart(with_hits(Seq::empty(), semantic, true, n), semantic, n as int, lexical, 0),
    decreases n,
{
    if n > 0 {
        lemma_first_list(semantic, lexical, (n - 1) as nat);
        lemma_one_more(
            with_hits(Seq::empty(), semantic, true, (n - 1) as nat),
            semantic,
            n - 1,
            lexical,
            0,
            true,
        );
    }
}

proof fn lemma_second_list(
    list: Seq<MergedModel>,
    semantic: Seq<DocumentChunkHit>,
    lexical: Seq<DocumentChunkHit>,
    m: nat,
)
    requires
        m <= lexical.len(),
        tells_apart(list, semantic, semantic.len() as int, lexical, 0),
    ensures
        tells_apart(
            with_hits(list, lexical, false, m),
            semantic,
            semantic.len() as int,
            lexical,
            m as int,
        ),
    decreases m,
{
    if m > 0 {
        lemma_second_list(list, semantic, lexical, (m - 1) as nat);
        lemma_one_more(
            with_hits(list, lexical, false, (m - 1) as nat),
            semantic,
            semantic.len() as int,
            lexical,
            m - 1,
            false,
        );
    }
}

/// Merging two lists of hits loses no chunk and repeats none, and each merged chunk
/// tells which of the lists it comes from.
pub proof fn law_merged_chunks_tell_where_they_come_from<'a>(
    semantic: &'a Vec<DocumentChunkHit>,
    lexical: &'a Vec<DocumentChunkHit>,
    merged: Vec<MergedChunk<'a>>,
)
    requires
        call_ensures(merge_document_hits, (semantic, lexical), merged),
    ensures
        forall|k: int|
            0 <= k < merged@.len() ==> ((#[trigger] merged@[k]).semantic <==> hits_chunk(
                semantic@,
                semantic@.len() as int,
                merged@[k].hit.source_episode_id@,
            )) && (merged@[k].lexical <==> hits_chunk(
                lexical@,
                lexical@.len() as int,
                merged@[k].hit.source_episode_id@,
            )) && (merged@[k].semantic || merged@[k].lexical),
        forall|k: int|
            0 <= k < semantic@.len() ==> is_merged(
                merged_models(merged@),
                (#[trigger] semantic@[k]).source_episode_id@,
            ),
        forall|k: int|
            0 <= k < lexical@.len() ==> is_merged(
                merged_models(merged@),
                (#[trigger] lexical@[k]).source_episode_id@,
            ),
        forall|i: int, j: int|
            0 <= i < j < merged@.len() ==> (#[trigger] merged@[i]).hit.source_episode_id@ != (
            #[trigger] merged@[j]).hit.source_episode_id@,
{
    lemma_first_list(semantic@, lexical@, semantic@.len());
    lemma_second_list(
        with_hits(Seq::empty(), semantic@, true, semantic@.len()),
        semantic@,
        lexical@,
        lexical@.len(),
    );
    let models = merged_models(merged@);
    assert(models == merged_hits(semantic@, lexical@));
    assert(models.len() == merged@.len());
    assert forall|k: int| 0 <= k < merged@.len() implies (#[trigger] merged@[k]).semantic
        == models[k].semantic && merged@[k].lexical == models[k].lexical && *merged@[k].hit
        == models[k].hit by {}
}

/// Whether documents are shown in order: by places in the list that they were merged to.
pub open spec fn ranks_by_score(
    report: DocumentSearchReport,
    list: Seq<MergedChunk<'_>>,
    scores: Seq<Score>,
    places: Seq<int>,
) -> bool {
    &&& names_each_once(places, list.len())
    &&& forall|i: int, j: int|
        0 <= i < j < list.len() ==> {
            let a = #[trigger] places[i];
            let b = #[trigger] places[j];
            scores[a].key > scores[b].key || (scores[a].key == scores[b].key && (text_less(
                list[a].hit.source_episode_id@,
                list[b].hit.source_episode_id@,
            ) || list[a].hit.source_episode_id@ == list[b].hit.source_episode_id@))
        }
    &&& report.results@.len() <= list.len()
    &&& forall|i: int|
        0 <= i < report.results@.len() ==> {
            &&& (#[trigger] report.results@[i]).rank == i + 1
            &&& report.results@[i].score == scores[places[i]]
            &&& report.results@[i].source_episode_id@ == list[places[i]].hit.source_episode_id@
            &&& report.results@[i].snippet@ == list[places[i]].hit.snippet@
            &&& text_of_string(report.results@[i].content) == text_of_string(
                list[places[i]].hit.content,
            )
            &&& report.results@[i].match_type@ == if list[places[i]].semantic
                && list[places[i]].lexical {
                "hybrid"@
            } else if list[places[i]].semantic {
                "semantic"@
            } else {
                "lexical"@
            }
        }
}

/// A search in documents shows the chunks with the greatest scores, the greatest first
/// and of equal ones by id: ten of them where no number is asked for, and never more
/// than fifty.
pub proof fn law_document_search_shows_the_best(
    request: DocumentSearchRequest,
    list: Vec<MergedChunk<'_>>,
    scores: Vec<Score>,
    report: DocumentSearchReport,
) -> (places: Seq<int>)
    requires
        scores@.len() == list@.len(),
        call_ensures(search_documents, (&request, &list, &scores), report),
    ensures
        ranks_by_score(report, list@, scores@, places),
        ({
            let most = if request.limit == 0 {
                10
            } else if request.limit > 50 {
                50
            } else {
                request.limit as int
            };
            report.results@.len() == if most < list@.len() {
                most
            } else {
                list@.len() as int
            }
        }),
        request.space is None ==> report.space@ == "documents"@,
        report.semantic_attempted <==> request.embedding is Some,
{
    let models = merged_models(list@);
    let keys = chunk_keys(models, scores@);
    let places = sorting(keys);
    lemma_sorting_names_each(keys);
    assert(models.len() == list@.len());
    assert forall|k: int| 0 <= k < list@.len() implies *(#[trigger] list@[k]).hit
        == models[k].hit && list@[k].semantic == models[k].semantic && list@[k].lexical
        == models[k].lexical by {}
    assert forall|i: int, j: int| 0 <= i < j < list@.len() implies {
        let a = #[trigger] places[i];
        let b = #[trigger] places[j];
        scores@[a].key > scores@[b].key || (scores@[a].key == scores@[b].key && (text_less(
            list@[a].hit.source_episode_id@,
            list@[b].hit.source_episode_id@,
        ) || list@[a].hit.source_episode_id@ == list@[b].hit.source_episode_id@))
    } by {
        let a = places[i];
        let b = places[j];
        lemma_key_order(keys, a, b);
        assert(keys[a].numbers[0] == -scores@[a].key && keys[b].numbers[0] == -scores@[b].key);
        assert(keys[a].texts[0] == (models[a].hit.source_episode_id@, false));
        assert(keys[b].texts[0] == (models[b].hit.source_episode_id@, false));
    }
    places
}

/// A search in documents looks at more chunks than it shows: at four times as many, and
/// at thirty-two more, whichever is more, up to two hundred. Words only are compared
/// where there is no embedding.
pub proof fn law_document_search_looks_further(
    request: DocumentSearchRequest,
    plan: DocumentSearchPlan,
)
    requires
        call_ensures(plan_document_search, (&request,), plan),
    ensures
        1 <= plan.limit <= 50,
        request.limit == 0 ==> plan.limit == 10,
        1 <= request.limit <= 50 ==> plan.limit == request.limit,
        plan.candidate_limit >= 4 * plan.limit || plan.candidate_limit == 200,
        plan.candidate_limit >= plan.limit + 32 || plan.candidate_limit == 200,
        plan.candidate_limit == 4 * plan.limit || plan.candidate_limit == plan.limit + 32
            || plan.candidate_limit == 200,
        plan.candidate_limit <= 200,
        request.space is None ==> plan.space@ == "documents"@,
        request.embedding is Some ==> plan.strategy@ == "hybrid_rrf_v0"@,
        request.embedding is None ==> plan.strategy@ == "lexical_only_v0"@,
{
}

/// The chunks of a document come in their order, from one space, by the id of one where
/// it is given, else by the path; their content is read only where it is asked for.
pub proof fn law_documents_are_read_in_order(
    request: DocumentGetRequest,
    answer: Result<DocumentGetPlan, Error>,
) -> (limit: nat)
    requires
        call_ensures(get_document, (&request,), answer),
    ensures
        answer is Ok <==> request.source_path is Some || request.source_episode_id is Some,
        limit == if request.limit == 0 {
            500
        } else if request.limit > 5_000 {
            5_000
        } else {
            request.limit as int
        },
        answer matches Ok(plan) ==> {
            &&& plan.selector_value@ == if request.source_episode_id is Some {
                request.source_episode_id->0@
            } else {
                request.source_path->0@
            }
            &&& plan.sql@
                == "SELECT id, space_name, source_type, source_path, source_uri, chunk_index, chunk_count, content_sha256, ingest_status, "@
                + (if request.include_content {
                "content"@
            } else {
                "NULL"@
            }) + " FROM source_episodes WHERE space_name = ?1 AND "@ + (
            if request.source_episode_id is Some {
                "id = ?2"@
            } else {
                "source_path = ?2"@
            }) + " ORDER BY chunk_index ASC, id ASC LIMIT "@ + decimal(limit)
        },
{
    if request.limit == 0 {
        500
    } else if request.limit > 5_000 {
        5_000
    } else {
        request.limit as nat
    }
}

/// A chunk is worth extracting where it was found at least once, and as often and by as
/// many queries as is asked for; what was extracted is left out unless it is asked for.
pub proof fn law_extraction_wants_hits(request: PromotionCandidatesRequest, plan: PromotionPlan)
    requires
        call_ensures(promotion_candidates, (&request,), plan),
    ensures
        plan.min_hits >= 1,
        1 <= request.min_hits <= i64::MAX ==> plan.min_hits == request.min_hits,
        request.min_distinct_queries <= i64::MAX ==> plan.min_distinct
            == request.min_distinct_queries,
        request.limit == 0 ==> plan.limit == 20,
        1 <= request.limit <= 200 ==> plan.limit == request.limit,
        request.limit > 200 ==> plan.limit == 200,
        !request.include_extracted ==> plan.extracted_filter@
            == "AND se.ingest_status != 'extracted'"@,
        request.include_extracted ==> plan.extracted_filter@ == ""@,
        request.space is None ==> plan.space@ == "documents"@,
{
}

proof fn lemma_pruned(ids: Seq<Seq<char>>, stored: Seq<Seq<char>>)
    ensures
        forall|id: Seq<char>| #[trigger]
            pruned(ids, stored).contains(id) <==> ids.contains(id) && stored.contains(id),
        pruned(ids, stored).no_duplicates(),
    decreases ids.len(),
{
    if ids.len() > 0 {
        let rest = ids.drop_last();
        lemma_pruned(rest, stored);
        let before = pruned(rest, stored);
        assert(ids =~= rest.push(ids.last()));
        assert forall|id: Seq<char>| #[trigger]
            pruned(ids, stored).contains(id) <==> ids.contains(id) && stored.contains(id) by {
            crate::order::lemma_push_contains(rest, ids.last(), id);
            crate::order::lemma_push_contains(before, ids.last(), id);
            assert(before.contains(id) <==> rest.contains(id) && stored.contains(id));
        }
    }
}

/// A chunk is taken away exactly where it is asked for and stored; each is named once.
pub proof fn law_prune_takes_what_is_named(
    request: DocumentPruneRequest,
    stored: Vec<String>,
    report: DocumentPruneReport,
)
    requires
        call_ensures(
            prune_documents,
            (&request, &stored),
            Ok::<DocumentPruneReport, Error>(report),
        ),
    ensures
        forall|id: Seq<char>| #[trigger]
            views(report.deleted@).contains(id) <==> views(request.source_episode_ids@).contains(id)
                && views(stored@).contains(id),
        views(report.deleted@).no_duplicates(),
        report.requested == request.source_episode_ids@.len(),
        report.dry_run == request.dry_run,
        request.space is None ==> report.space@ == "documents"@,
{
    lemma_pruned(views(request.source_episode_ids@), views(stored@));
}

/// Whether a chunk is stored and was not extracted.
pub open spec fn waits(stored: Seq<ChunkStatus>, id: Seq<char>) -> bool {
    exists|i: int|
        0 <= i < stored.len() && (#[trigger] stored[i]).id@ == id && stored[i].ingest_status@
            != "extracted"@
}

proof fn lemma_open_chunks(stored: Seq<ChunkStatus>)
    ensures
        forall|id: Seq<char>| #[trigger]
            open_chunks(statuses(stored)).contains(id) <==> waits(stored, id),
    decreases stored.len(),
{
    let list = statuses(stored);
    if stored.len() > 0 {
        let rest = stored.drop_last();
        lemma_open_chunks(rest);
        assert(list.drop_last() =~= statuses(rest));
        let before = open_chunks(statuses(rest));
        assert(list.last() == (stored.last().id@, stored.last().ingest_status@));
        assert forall|id: Seq<char>| #[trigger] open_chunks(list).contains(id) <==> waits(
            stored,
            id,
        ) by {
            crate::order::lemma_push_contains(before, stored.last().id@, id);
            assert(before.contains(id) <==> waits(rest, id));
            if waits(rest, id) {
                let i = choose|i: int|
                    0 <= i < rest.len() && (#[trigger] rest[i]).id@ == id && rest[i].ingest_status@
                        != "extracted"@;
                assert(stored[i] == rest[i]);
            }
            if waits(stored, id) {
                let i = choose|i: int|
                    0 <= i < stored.len() && (#[trigger] stored[i]).id@ == id
                        && stored[i].ingest_status@ != "extracted"@;
                if i < rest.len() {
                    assert(rest[i] == stored[i]);
                }
            }
            assert(stored[stored.len() - 1] == stored.last());
        }
    }
}

/// Marking counts the chunks that are named, stored and not extracted yet, each once.
pub proof fn law_marking_counts_what_changes(
    request: MarkExtractedRequest,
    stored: Vec<ChunkStatus>,
    report: MarkExtractedReport,
) -> (ids: Seq<Seq<char>>)
    requires
        call_ensures(
            mark_source_episodes_extracted,
            (&request, &stored),
            Ok::<MarkExtractedReport, Error>(report),
        ),
    ensures
        report.updated == ids.len(),
        ids.no_duplicates(),
        forall|id: Seq<char>| #[trigger]
            ids.contains(id) <==> views(request.source_episode_ids@).contains(id) && waits(
                stored@,
                id,
            ),
{
    let ids = pruned(views(request.source_episode_ids@), open_chunks(statuses(stored@)));
    lemma_pruned(views(request.source_episode_ids@), open_chunks(statuses(stored@)));
    lemma_open_chunks(stored@);
    assert forall|id: Seq<char>| #[trigger] ids.contains(id) <==> views(
        request.source_episode_ids@,
    ).contains(id) && waits(stored@, id) by {
        assert(open_chunks(statuses(stored@)).contains(id) <==> waits(stored@, id));
    }
    ids
}

} // verus!
