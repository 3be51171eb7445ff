//! What a search promises.

use vstd::prelude::*;

use crate::error::Error;
use crate::laws::ordering::{lemma_key_order, lemma_sorting_names_each, names_each_once};
use crate::order::text_less;
use crate::ranking::sorting;
use crate::requests::SearchReport;
use crate::search::{
    batch_search_memories, candidate_keys, lexical_candidates, search_memories, wants_fallback,
    wants_prefix, BatchSearchReport, BatchSearchRequest, PreparedSearchRequest,
    SearchCandidate, SearchReads, SearchRequest,
};

verus! {

/// Whether a candidate may stand before another in a report: it was found by a
/// stricter search; or by one as strict and has the greater score; or the same score
/// and was observed later; or at the same time and has the lesser id.
pub open spec fn may_precede(a: SearchCandidate, b: SearchCandidate) -> bool {
    if a.lexical_tier != b.lexical_tier {
        a.lexical_tier < b.lexical_tier
    } else if a.score.key != b.score.key {
        a.score.key > b.score.key
    } else if a.observed_at@ != b.observed_at@ {
        text_less(b.observed_at@, a.observed_at@)
    } else {
        a.memory_id@ == b.memory_id@ || text_less(a.memory_id@, b.memory_id@)
    }
}

/// Whether a report shows the best of what was found, `places` being the order in
/// which it stands: a page of it, with nothing left out that would stand before what
/// is shown.
pub open spec fn shows_in_order(
    found: Seq<SearchCandidate>,
    limit: usize,
    offset: usize,
    report: SearchReport,
    places: Seq<int>,
) -> bool {
    &&& names_each_once(places, found.len())
    &&& forall|i: int, j: int|
        0 <= i < j < found.len() ==> may_precede(
            found[#[trigger] places[i]],
            found[#[trigger] places[j]],
        )
    &&& report.results@.len() == if found.len() < limit {
        found.len() as int
    } else {
        limit as int
    }
    &&& report.truncated == (found.len() > limit)
    &&& forall|i: int|
        0 <= i < report.results@.len() ==> {
            let c = found[places[i]];
            let r = #[trigger] report.results@[i];
            &&& r.rank == offset + i + 1
            &&& r.memory_id@ == c.memory_id@
            &&& r.version_id@ == c.version_id@
            &&& r.score == c.score
            &&& r.scores == c.scores
            &&& r.space@ == c.space@
            &&& r.silo@ == c.silo@
            &&& r.scope@ == c.scope@
            &&& r.kind@ == c.kind@
            &&& r.status@ == c.status@
            &&& r.observed_at@ == c.observed_at@
            &&& crate::text::views(r.tags@) == crate::text::views(c.tags@)
        }
}

/// Whether a report shows the best of what was found.
pub open spec fn shows_best_of(
    found: Seq<SearchCandidate>,
    limit: usize,
    offset: usize,
    report: SearchReport,
) -> bool {
    exists|places: Seq<int>| #[trigger] shows_in_order(found, limit, offset, report, places)
}

proof fn lemma_keys_precede(found: Seq<SearchCandidate>, i: int, j: int)
    requires
        0 <= i < found.len(),
        0 <= j < found.len(),
        crate::ranking::goes_before(candidate_keys(found), i, j),
    ensures
        may_precede(found[i], found[j]),
{
    let keys = candidate_keys(found);
    let a = found[i];
    let b = found[j];
    lemma_key_order(keys, i, j);
    assert(keys[i].numbers[0] == a.lexical_tier && keys[i].numbers[1] == -a.score.key);
    assert(keys[j].numbers[0] == b.lexical_tier && keys[j].numbers[1] == -b.score.key);
    assert(keys[i].texts[0] == (a.observed_at@, true) && keys[i].texts[1] == (
        a.memory_id@,
        false,
    ));
    assert(keys[j].texts[0] == (b.observed_at@, true) && keys[j].texts[1] == (
        b.memory_id@,
        false,
    ));
}

proof fn lemma_ranked_is_best(
    p: crate::search::PreparedModel,
    found: Seq<SearchCandidate>,
    report: SearchReport,
)
    requires
        crate::search::reports_ranked(p, found, report),
    ensures
        shows_best_of(found, p.limit, p.offset, report),
{
    let keys = candidate_keys(found);
    let places = sorting(keys);
    lemma_sorting_names_each(keys);
    assert forall|i: int, j: int| 0 <= i < j < found.len() implies may_precede(
        found[#[trigger] places[i]],
        found[#[trigger] places[j]],
    ) by {
        lemma_keys_precede(found, places[i], places[j]);
    }
    assert(shows_in_order(found, p.limit, p.offset, report, places));
}

/// A search reports the best of what it found, in order: what a stricter search
/// found comes before what a looser one added, whatever the scores; among equals in
/// that the score decides, then the time of observation, then the id. It is made by
/// meaning where that is asked for, can be done and finds something, and by words
/// otherwise.
pub proof fn law_search_shows_the_best(
    request: SearchRequest,
    reads: SearchReads,
    report: SearchReport,
)
    requires
        call_ensures(search_memories, (&request, &reads), Ok::<SearchReport, Error>(report)),
    ensures
        ({
            let by_meaning = reads.semantic_built && reads.index_exists && request.embedding is Some
                && request.semantic_fallback@ != "disabled"@ && reads.semantic@.len() > 0;
            &&& by_meaning ==> shows_best_of(
                reads.semantic@,
                request.limit,
                request.offset,
                report,
            )
            &&& !by_meaning ==> shows_best_of(
                reads.lexical@,
                request.limit,
                request.offset,
                report,
            )
            &&& by_meaning ==> report.strategy@ == "semantic_primary_v0"@
            &&& by_meaning ==> report.semantic_attempted
            &&& request.semantic_fallback@ == "disabled"@ ==> report.strategy@
                == "deterministic_fts_v0"@ && !report.semantic_attempted
            &&& !by_meaning && reads.lexical@.len() > 0 ==> report.strategy@
                == "deterministic_fts_v0"@ && !report.semantic_attempted
        }),
{
    let p = crate::search::prepared_search(request@);
    let route = crate::search::search_route(p, reads);
    if route.semantic {
        lemma_ranked_is_best(p, reads.semantic@, report);
        if reads.semantic@.len() == 0 {
            assert(reads.semantic@ =~= Seq::empty());
            assert(reads.lexical@ =~= Seq::empty());
        }
    } else {
        lemma_ranked_is_best(p, reads.lexical@, report);
    }
}

/// Of two results the first was found by a search no looser than that of the
/// second, and has no lesser score where both were found by equally strict ones.
/// The candidates behind the two are given back.
pub proof fn law_stricter_searches_come_first(
    request: SearchRequest,
    reads: SearchReads,
    report: SearchReport,
    i: int,
    j: int,
) -> (behind: (SearchCandidate, SearchCandidate))
    requires
        call_ensures(search_memories, (&request, &reads), Ok::<SearchReport, Error>(report)),
        0 <= i < j < report.results@.len(),
    ensures
        reads.lexical@.contains(behind.0) && reads.lexical@.contains(behind.1)
            || reads.semantic@.contains(behind.0) && reads.semantic@.contains(behind.1),
        report.results@[i].memory_id@ == behind.0.memory_id@,
        report.results@[j].memory_id@ == behind.1.memory_id@,
        behind.0.lexical_tier <= behind.1.lexical_tier,
        behind.0.lexical_tier == behind.1.lexical_tier ==> behind.0.score.key
            >= behind.1.score.key,
        report.results@.len() <= request.limit,
{
    law_search_shows_the_best(request, reads, report);
    let by_meaning = reads.semantic_built && reads.index_exists && request.embedding is Some
        && request.semantic_fallback@ != "disabled"@ && reads.semantic@.len() > 0;
    let found = if by_meaning {
        reads.semantic@
    } else {
        reads.lexical@
    };
    let places = choose|places: Seq<int>| #[trigger]
        shows_in_order(found, request.limit, request.offset, report, places);
    assert(report.results@.len() <= found.len());
    let a = found[places[i]];
    let b = found[places[j]];
    assert(may_precede(a, b));
    (a, b)
}

/// A search is answered exactly where its numbers are within their limits, its
/// choices are known ones, its vector is sound, and its query says something that can
/// be searched for, under filters that can be met.
pub proof fn law_search_is_answered_within_limits(
    request: SearchRequest,
    reads: SearchReads,
    answer: Result<SearchReport, Error>,
)
    requires
        call_ensures(search_memories, (&request, &reads), answer),
    ensures
        answer is Ok <==> {
            &&& 1 <= request.limit <= 50
            &&& request.offset <= 1000
            &&& request.snippet_chars <= 1000
            &&& request.semantic_fallback@ == "disabled"@ || request.semantic_fallback@
                == "fallback"@
            &&& request.lexical_fallback@ == "disabled"@ || request.lexical_fallback@
                == "conservative"@
            &&& request.embedding matches Some(e) ==> 1 <= e.dims <= 8192 && e.finite
            &&& request.query@.len() <= 4096
            &&& 1 <= crate::terms::query_terms(request.query@).len() <= 64
            &&& crate::filters::prepared_filters(crate::filters::current_only(request.filters@))
                is Ok
        },
{
}

/// Whether a list holds a candidate of an id.
pub open spec fn has_id(list: Seq<SearchCandidate>, id: Seq<char>) -> bool {
    exists|i: int| 0 <= i < list.len() && (#[trigger] list[i]).memory_id@ == id
}

proof fn lemma_filled(list: Seq<SearchCandidate>, more: Seq<SearchCandidate>, tier: u8)
    ensures
        ({
            let r = crate::search::filled(list, more, tier);
            &&& r.len() >= list.len()
            &&& forall|i: int| 0 <= i < list.len() ==> r[i] == #[trigger] list[i]
            &&& forall|i: int|
                list.len() <= i < r.len() ==> (#[trigger] r[i]).lexical_tier == tier && has_id(
                    more,
                    r[i].memory_id@,
                )
            &&& forall|i: int|
                0 <= i < more.len() ==> has_id(r, (#[trigger] more[i]).memory_id@)
            &&& forall|i: int, j: int|
                0 <= i < j < r.len() && list.len() <= j ==> (#[trigger] r[i]).memory_id@
                    != (#[trigger] r[j]).memory_id@
        }),
    decreases more.len(),
{
    let r = crate::search::filled(list, more, tier);
    if more.len() > 0 {
        let rest = more.drop_last();
        let before = crate::search::filled(list, rest, tier);
        lemma_filled(list, rest, tier);
        let last = more.last();
        assert(more[more.len() - 1] == last);
        let ids = crate::search::candidate_ids(before);
        assert forall|i: int| list.len() <= i < r.len() implies (#[trigger] r[i]).lexical_tier
            == tier && has_id(more, r[i].memory_id@) by {
            if i < before.len() {
                assert(r[i] == before[i]);
                let k = choose|k: int|
                    0 <= k < rest.len() && (#[trigger] rest[k]).memory_id@ == before[i].memory_id@;
                assert(more[k] == rest[k]);
            }
        }
        assert forall|i: int| 0 <= i < more.len() implies has_id(
            r,
            (#[trigger] more[i]).memory_id@,
        ) by {
            if i < rest.len() {
                assert(rest[i] == more[i]);
                let k = choose|k: int|
                    0 <= k < before.len() && (#[trigger] before[k]).memory_id@
                        == rest[i].memory_id@;
                assert(r[k] == before[k]);
            } else if ids.contains(last.memory_id@) {
                let k = choose|k: int| 0 <= k < ids.len() && ids[k] == last.memory_id@;
                assert(r[k] == before[k]);
            } else {
                assert(r[before.len() as int].memory_id@ == last.memory_id@);
            }
        }
        assert forall|i: int, j: int| 0 <= i < j < r.len() && list.len() <= j implies (
        #[trigger] r[i]).memory_id@ != (#[trigger] r[j]).memory_id@ by {
            if j < before.len() {
                assert(r[i] == before[i] && r[j] == before[j]);
            } else {
                assert(r[i] == before[i]);
                assert(ids[i] == before[i].memory_id@);
            }
        }
    }
}

/// The searches by words are joined from the strictest on: everything that holds all
/// terms is there and stands first; a looser search only adds memories that are not
/// there yet, marked as found by it; the search for beginnings is made only where
/// the strict one found fewer than asked for, and the search for any term only where
/// nothing was found at all; neither is made where looser searches are disabled.
pub proof fn law_looser_searches_fill_up(
    p: PreparedSearchRequest,
    exact: Vec<SearchCandidate>,
    prefix: Vec<SearchCandidate>,
    fallback: Vec<SearchCandidate>,
    r: Vec<SearchCandidate>,
)
    requires
        call_ensures(lexical_candidates, (&p, exact, prefix, fallback), r),
    ensures
        r@.len() >= exact@.len(),
        forall|i: int| 0 <= i < exact@.len() ==> r@[i] == #[trigger] exact@[i],
        forall|i: int|
            exact@.len() <= i < r@.len() ==> ((#[trigger] r@[i]).lexical_tier == 1 && has_id(
                prefix@,
                r@[i].memory_id@,
            )) || (r@[i].lexical_tier == 2 && has_id(fallback@, r@[i].memory_id@)),
        forall|i: int, j: int|
            0 <= i < j < r@.len() && exact@.len() <= j ==> (#[trigger] r@[i]).memory_id@ != (
            #[trigger] r@[j]).memory_id@,
        p.lexical_fallback@ == "disabled"@ || exact@.len() >= p.limit ==> r@ == exact@
            || exact@.len() == 0 && p.lexical_fallback@ != "disabled"@,
        p.lexical_fallback@ != "disabled"@ && exact@.len() < p.limit && p.prefix_fts_query is Some
            ==> forall|i: int|
            0 <= i < prefix@.len() ==> has_id(r@, (#[trigger] prefix@[i]).memory_id@),
        p.lexical_fallback@ != "disabled"@ && exact@.len() == 0 && prefix@.len() == 0
            && p.fallback_fts_query is Some ==> forall|i: int|
            0 <= i < fallback@.len() ==> has_id(r@, (#[trigger] fallback@[i]).memory_id@),
        exact@.len() > 0 ==> forall|i: int|
            exact@.len() <= i < r@.len() ==> (#[trigger] r@[i]).lexical_tier == 1,
{
    let some = if crate::search::tries_prefix(p@, exact@.len()) {
        crate::search::filled(exact@, prefix@, 1)
    } else {
        exact@
    };
    lemma_filled(exact@, prefix@, 1);
    lemma_filled(some, fallback@, 2);
    assert forall|i: int| exact@.len() <= i < r@.len() implies ((#[trigger] r@[i]).lexical_tier == 1
        && has_id(prefix@, r@[i].memory_id@)) || (r@[i].lexical_tier == 2 && has_id(
        fallback@,
        r@[i].memory_id@,
    )) by {
        if i < some.len() {
            assert(r@[i] == some[i]);
        }
    }
    assert forall|i: int| 0 <= i < exact@.len() implies r@[i] == #[trigger] exact@[i] by {
        assert(some[i] == exact@[i]);
    }
    if prefix@.len() == 0 {
        assert(some == exact@);
    }
}

/// The looser searches are asked for exactly where too little was found.
pub proof fn law_looser_searches_are_asked_for(
    p: PreparedSearchRequest,
    found: usize,
    prefix: bool,
    fallback: bool,
)
    requires
        call_ensures(wants_prefix, (&p, found), prefix),
        call_ensures(wants_fallback, (&p, found), fallback),
    ensures
        prefix <==> p.lexical_fallback@ != "disabled"@ && found < p.limit && p.prefix_fts_query
            is Some,
        fallback <==> p.lexical_fallback@ != "disabled"@ && found == 0 && p.fallback_fts_query
            is Some,
{
}

/// A batch answers each of its queries as a search of its own, in their order, with
/// the limit of the query or that of the batch.
pub proof fn law_batch_answers_each_query(
    request: BatchSearchRequest,
    reads: Vec<SearchReads>,
    report: BatchSearchReport,
    i: int,
)
    requires
        reads@.len() == request.queries@.len(),
        call_ensures(
            batch_search_memories,
            (&request, &reads),
            Ok::<BatchSearchReport, Error>(report),
        ),
        0 <= i < request.queries@.len(),
    ensures
        1 <= request.queries@.len() <= 20,
        report.results@.len() == request.queries@.len(),
        report.results@[i].query@ == request.queries@[i].query@,
        ({
            let limit = match request.queries@[i].limit {
                Some(own) => own,
                None => request.limit,
            };
            &&& 1 <= limit <= 20
            &&& shows_best_of(
                reads@[i].lexical@,
                limit,
                request.offset,
                report.results@[i].report,
            )
        }),
{
    lemma_batch_limit(request, i, request.queries@.len());
    let p = crate::search::prepared_search(crate::search::batch_search(request, i));
    assert(crate::search::reports_query(request, reads@, i, report.results@[i]));
    let route = crate::search::search_route(p, reads@[i]);
    assert(!route.semantic);
    lemma_ranked_is_best(p, reads@[i].lexical@, report.results@[i].report);
}

proof fn lemma_batch_limit(request: BatchSearchRequest, i: int, n: nat)
    requires
        0 <= i < n,
        crate::search::batch_limits_fault(request, n) is None,
    ensures
        1 <= crate::search::batch_limit(request, i) <= 20,
    decreases n,
{
    if i < n - 1 {
        lemma_batch_limit(request, i, (n - 1) as nat);
    }
}

} // verus!
