//! What a prompt pack promises.

use vstd::prelude::*;

use crate::error::Error;
use crate::json::{text_of, text_of_string};
use crate::laws::ordering::{lemma_key_order, lemma_sorting_names_each, names_each_once};
use crate::laws::turns::{
    comes_up_before, is_place, law_interleaved_lists_take_turns, takes_turns,
};
use crate::order::text_less;
use crate::pack::{
    best_score, build_pack, first_of_each, format_pack_markdown, freshness_text, result_ids,
    result_lines, result_lists, result_scores,
};
use crate::pool::interleaved;
use crate::ranking::{sorting, Score};
use crate::requests::{PackReport, PackRequest, SearchReport, SearchResult};
use crate::rerank::{
    assemble_reranked_pack, byte_len, rerank_keys, rerank_models, reranked, RerankCandidate,
    RerankModel,
};
use crate::text::{collapsed, is_blank, joined, trimmed, views};

verus! {

/// The best of some scores is one of them, and none is greater.
pub proof fn law_best_score_is_greatest(scores: Seq<Score>)
    ensures
        scores.len() == 0 <==> best_score(scores) is None,
        best_score(scores) matches Some(best) ==> scores.contains(best) && forall|i: int|
            0 <= i < scores.len() ==> (#[trigger] scores[i]).key <= best.key,
    decreases scores.len(),
{
    if scores.len() > 0 {
        let rest = scores.drop_last();
        law_best_score_is_greatest(rest);
        assert(scores[scores.len() - 1] == scores.last());
        if best_score(rest) is Some {
            let k = choose|k: int| 0 <= k < rest.len() && rest[k] == best_score(rest)->0;
            assert(scores[k] == best_score(rest)->0);
        }
        assert forall|i: int| 0 <= i < scores.len() implies (#[trigger] scores[i]).key
            <= best_score(scores)->0.key by {
            if i < rest.len() {
                assert(rest[i] == scores[i]);
            }
        }
    }
}

/// A reranked pack whose candidates all miss the floor of scores holds nothing at
/// all; where one of them reaches it, the greatest score is reported.
pub proof fn law_reranked_pack_applies_the_floor(
    request: PackRequest,
    candidates: Vec<RerankCandidate>,
    r: PackReport,
)
    requires
        call_ensures(assemble_reranked_pack, (&request, &candidates), r),
    ensures
        (forall|i: int|
            0 <= i < candidates@.len() ==> (#[trigger] candidates@[i]).rerank_score.key
                < request.min_score.key) ==> r.content@.len() == 0 && r.memory_ids@.len() == 0
            && r.scores@.len() == 0 && r.top_score is None && !r.truncated,
        (exists|i: int|
            0 <= i < candidates@.len() && (#[trigger] candidates@[i]).rerank_score.key
                >= request.min_score.key) ==> r.top_score is Some && (exists|i: int|
            0 <= i < candidates@.len() && (#[trigger] candidates@[i]).rerank_score
                == r.top_score->0) && forall|i: int|
            0 <= i < candidates@.len() ==> (#[trigger] candidates@[i]).rerank_score.key
                <= r.top_score->0.key,
        r.title@ == request.title@,
        r.format@ == request.format@,
{
    let models = rerank_models(candidates@);
    let scores = crate::rerank::rerank_scores(models);
    law_best_score_is_greatest(scores);
    assert forall|i: int| 0 <= i < candidates@.len() implies scores[i] == (
    #[trigger] candidates@[i]).rerank_score by {}
    if scores.len() > 0 {
        let best = best_score(scores)->0;
        let k = choose|k: int| 0 <= k < scores.len() && scores[k] == best;
        assert(candidates@[k].rerank_score == best);
        if exists|i: int|
            0 <= i < candidates@.len() && (#[trigger] candidates@[i]).rerank_score.key
                >= request.min_score.key {
            let i = choose|i: int|
                0 <= i < candidates@.len() && (#[trigger] candidates@[i]).rerank_score.key
                    >= request.min_score.key;
            assert(scores[i].key <= best.key);
            assert forall|i: int| 0 <= i < candidates@.len() implies (
            #[trigger] candidates@[i]).rerank_score.key <= best.key by {
                assert(scores[i].key <= best.key);
            }
        }
    }
    assert(views(r.memory_ids@).len() == r.memory_ids@.len());
}

/// Whether a reranked candidate may stand before another: it has the greater score,
/// a zero without a minus sign being greater than one with it; or the same and both
/// retrieval and graph reached it; or as many and more activation, some being more
/// than none; or as much and the lesser id.
pub open spec fn may_outrank(a: RerankCandidate, b: RerankCandidate) -> bool {
    let below = |c: RerankCandidate| c.rerank_score.key == 0 && c.negative_zero;
    if a.rerank_score.key != b.rerank_score.key {
        a.rerank_score.key > b.rerank_score.key
    } else if below(a) != below(b) {
        below(b)
    } else if a.consensus != b.consensus {
        a.consensus
    } else if a.activation != b.activation {
        match (a.activation, b.activation) {
            (Some(x), Some(y)) => x.key > y.key,
            (Some(_), None) => true,
            _ => false,
        }
    } else {
        a.memory_id@ == b.memory_id@ || text_less(a.memory_id@, b.memory_id@)
    }
}

/// The lines of the first `n` candidates in an order: a bullet, the time of
/// observation and the content of each.
pub open spec fn lines_of(list: Seq<RerankCandidate>, places: Seq<int>, n: nat) -> Seq<char>
    decreases n,
{
    if n == 0 {
        Seq::empty()
    } else {
        let c = list[places[n - 1]];
        lines_of(list, places, (n - 1) as nat) + ("- "@ + ("[Observed at: "@ + c.observed_at@
            + "] "@ + c.content@) + "\n"@)
    }
}

proof fn lemma_outranks(candidates: Seq<RerankCandidate>, i: int, j: int)
    requires
        0 <= i < candidates.len(),
        0 <= j < candidates.len(),
        crate::ranking::goes_before(rerank_keys(rerank_models(candidates)), i, j),
    ensures
        may_outrank(candidates[i], candidates[j]),
{
    let keys = rerank_keys(rerank_models(candidates));
    let a = candidates[i];
    let b = candidates[j];
    lemma_key_order(keys, i, j);
    assert(keys[i].numbers[0] == -a.rerank_score.key && keys[j].numbers[0] == -b.rerank_score.key);
    assert(keys[i].numbers[1] == crate::ranking::zero_place(a.rerank_score, a.negative_zero));
    assert(keys[j].numbers[1] == crate::ranking::zero_place(b.rerank_score, b.negative_zero));
    assert(keys[i].numbers[2] == if a.consensus {
        0int
    } else {
        1int
    });
    assert(keys[j].numbers[2] == if b.consensus {
        0int
    } else {
        1int
    });
    assert(keys[i].numbers[3] == crate::rerank::activation_place(a.activation));
    assert(keys[j].numbers[3] == crate::rerank::activation_place(b.activation));
    assert(keys[i].texts[0] == (a.memory_id@, false) && keys[j].texts[0] == (b.memory_id@, false));
}

proof fn lemma_lines(candidates: Seq<RerankCandidate>, n: nat)
    requires
        n <= candidates.len(),
    ensures
        crate::pack::poured(
            crate::rerank::rerank_lines(reranked(rerank_models(candidates))).take(n as int),
        ) == lines_of(candidates, sorting(rerank_keys(rerank_models(candidates))), n),
    decreases n,
{
    let models = rerank_models(candidates);
    let places = sorting(rerank_keys(models));
    let lines = crate::rerank::rerank_lines(reranked(models));
    lemma_sorting_names_each(rerank_keys(models));
    if n > 0 {
        lemma_lines(candidates, (n - 1) as nat);
        assert(lines.take(n as int).drop_last() =~= lines.take(n - 1));
        let c = candidates[places[n - 1]];
        assert(reranked(models)[n - 1] == c@);
        assert(lines.take(n as int).last() == lines[n - 1]);
        assert(lines[n - 1] == "- "@ + ("[Observed at: "@ + c.observed_at@ + "] "@ + c.content@)
            + "\n"@);
    } else {
        assert(lines.take(0) =~= Seq::empty());
    }
}

proof fn lemma_next_line_has_no_room(lines: Seq<Seq<char>>, room: int, count: nat)
    requires
        room >= 0,
    ensures
        ({
            let n = crate::rerank::fitting_bytes(lines, room, count);
            &&& n <= lines.len()
            &&& n <= count
            &&& byte_len(crate::pack::poured(lines.take(n as int))) <= room
            &&& n < lines.len() && n < count ==> byte_len(
                crate::pack::poured(lines.take(n as int + 1)),
            ) > room
        }),
    decreases lines.len(),
{
    let n = crate::rerank::fitting_bytes(lines, room, count);
    assert(lines.take(0) =~= Seq::empty());
    if lines.len() == 0 || count == 0 || byte_len(lines[0]) > room {
        if lines.len() > 0 {
            lemma_poured_one(lines);
        }
    } else {
        let rest = lines.skip(1);
        lemma_next_line_has_no_room(rest, room - byte_len(lines[0]), (count - 1) as nat);
        lemma_poured_head(lines, n as int);
        if n < lines.len() {
            lemma_poured_head(lines, n as int + 1);
            crate::rerank::lemma_byte_len_concat(
                lines[0],
                crate::pack::poured(rest.take(n as int)),
            );
        }
        crate::rerank::lemma_byte_len_concat(lines[0], crate::pack::poured(rest.take(n - 1)));
    }
}

proof fn lemma_poured_one(lines: Seq<Seq<char>>)
    requires
        lines.len() > 0,
    ensures
        crate::pack::poured(lines.take(1)) == lines[0],
{
    let one = lines.take(1);
    assert(one.drop_last() =~= Seq::<Seq<char>>::empty());
    assert(one.last() == lines[0]);
    assert(crate::pack::poured(one.drop_last()) == Seq::<char>::empty());
    assert(Seq::<char>::empty() + lines[0] =~= lines[0]);
}

proof fn lemma_poured_head(lines: Seq<Seq<char>>, n: int)
    requires
        0 < n <= lines.len(),
    ensures
        crate::pack::poured(lines.take(n)) == lines[0] + crate::pack::poured(
            lines.skip(1).take(n - 1),
        ),
    decreases n,
{
    assert(lines.take(n).drop_last() =~= lines.take(n - 1));
    assert(lines.take(n).last() == lines[n - 1]);
    if n == 1 {
        lemma_poured_one(lines);
        assert(lines.skip(1).take(0) =~= Seq::<Seq<char>>::empty());
        assert(lines[0] + Seq::<char>::empty() =~= lines[0]);
    } else {
        lemma_poured_head(lines, n - 1);
        assert(lines.skip(1).take(n - 1).drop_last() =~= lines.skip(1).take(n - 2));
        assert(lines.skip(1).take(n - 1).last() == lines[n - 1]);
        assert(crate::pack::poured(lines.take(n)) =~= lines[0] + crate::pack::poured(
            lines.skip(1).take(n - 1),
        ));
    }
}

/// A reranked pack that passes the floor lists the best candidates, best first and
/// each with its score, and holds their lines: as many as the budget has room for,
/// no line more and none less. Only where the best one alone has no room, a part of
/// it is shown.
#[verifier::rlimit(40)]
pub proof fn law_reranked_pack_lists_the_best(
    request: PackRequest,
    candidates: Vec<RerankCandidate>,
    r: PackReport,
) -> (places: Seq<int>)
    requires
        call_ensures(assemble_reranked_pack, (&request, &candidates), r),
        r.top_score is Some,
    ensures
        names_each_once(places, candidates@.len()),
        forall|i: int, j: int|
            0 <= i < j < candidates@.len() ==> may_outrank(
                candidates@[#[trigger] places[i]],
                candidates@[#[trigger] places[j]],
            ),
        r.memory_ids@.len() == r.scores@.len(),
        r.memory_ids@.len() <= candidates@.len(),
        r.memory_ids@.len() <= request.max_memories,
        forall|i: int|
            0 <= i < r.memory_ids@.len() ==> (#[trigger] r.memory_ids@[i])@
                == candidates@[places[i]].memory_id@ && r.scores@[i]
                == candidates@[places[i]].rerank_score,
        byte_len(r.content@) <= request.max_chars,
        r.memory_ids@.len() < candidates@.len() ==> r.truncated,
        ({
            let n = r.memory_ids@.len();
            let whole = lines_of(candidates@, places, n);
            ||| r.content@ == whole && (n < candidates@.len() && 0 < n < request.max_memories
                ==> byte_len(lines_of(candidates@, places, n + 1)) > request.max_chars) && (n == 0
                && request.max_memories > 0 ==> byte_len(lines_of(candidates@, places, 1))
                > request.max_chars) && (n == candidates@.len() ==> !r.truncated)
            ||| n == 1 && r.truncated && byte_len(whole) > request.max_chars
        }),
{
    let models = rerank_models(candidates@);
    let keys = rerank_keys(models);
    let places = sorting(keys);
    let ordered = reranked(models);
    let lines = crate::rerank::rerank_lines(ordered);
    let n = crate::rerank::fitting_bytes(
        lines,
        request.max_chars as int,
        request.max_memories as nat,
    );
    lemma_sorting_names_each(keys);
    assert forall|i: int, j: int| 0 <= i < j < candidates@.len() implies may_outrank(
        candidates@[#[trigger] places[i]],
        candidates@[#[trigger] places[j]],
    ) by {
        lemma_outranks(candidates@, places[i], places[j]);
    }
    assert forall|i: int| 0 <= i < candidates@.len() implies #[trigger] ordered[i]
        == candidates@[places[i]]@ by {}
    lemma_next_line_has_no_room(lines, request.max_chars as int, request.max_memories as nat);
    lemma_lines(candidates@, n);
    if n < candidates@.len() {
        lemma_lines(candidates@, n + 1);
    }
    if candidates@.len() > 0 {
        lemma_lines(candidates@, 1);
    }
    lemma_lines(candidates@, 0);
    law_best_score_is_greatest(crate::rerank::rerank_scores(models));
    crate::rerank::law_reranked_pack_is_aligned(request, models);
    let shown = r.memory_ids@.len();
    assert(views(r.memory_ids@).len() == shown);
    let ids = crate::rerank::rerank_ids(ordered);
    assert forall|i: int| 0 <= i < shown implies (#[trigger] r.memory_ids@[i])@
        == candidates@[places[i]].memory_id@ && r.scores@[i]
        == candidates@[places[i]].rerank_score by {
        assert(views(r.memory_ids@)[i] == r.memory_ids@[i]@);
        assert(views(r.memory_ids@)[i] == ids[i]);
        assert(ordered[i] == candidates@[places[i]]@);
    }
    places
}

/// Where an item of a list first stands among the items that share its id, and
/// whether the chosen ones are exactly those.
pub open spec fn keeps_firsts(all: Seq<SearchResult>, kept: Seq<SearchResult>, at: Seq<int>) -> bool {
    &&& at.len() == kept.len()
    &&& forall|i: int|
        0 <= i < kept.len() ==> 0 <= #[trigger] at[i] < all.len() && kept[i] == all[at[i]]
    &&& forall|i: int, j: int| 0 <= i < j < at.len() ==> #[trigger] at[i] < #[trigger] at[j]
    &&& forall|i: int, m: int|
        0 <= i < kept.len() && 0 <= m < #[trigger] at[i] ==> (#[trigger] all[m]).memory_id@
            != kept[i].memory_id@
    &&& forall|m: int|
        0 <= m < all.len() ==> exists|i: int|
            0 <= i < kept.len() && (#[trigger] kept[i]).memory_id@ == (
            #[trigger] all[m]).memory_id@
}

proof fn lemma_firsts(all: Seq<SearchResult>) -> (at: Seq<int>)
    ensures
        keeps_firsts(all, first_of_each(all), at),
    decreases all.len(),
{
    if all.len() == 0 {
        Seq::empty()
    } else {
        let rest = all.drop_last();
        let before = first_of_each(rest);
        let at = lemma_firsts(rest);
        let last = all.last();
        let kept = first_of_each(all);
        let ids = result_ids(before);
        if ids.contains(last.memory_id@) {
            let k = choose|k: int| 0 <= k < ids.len() && ids[k] == last.memory_id@;
            assert forall|m: int| 0 <= m < all.len() implies exists|i: int|
                0 <= i < kept.len() && (#[trigger] kept[i]).memory_id@ == (
                #[trigger] all[m]).memory_id@ by {
                if m < rest.len() {
                    assert(rest[m] == all[m]);
                } else {
                    assert(kept[k].memory_id@ == all[m].memory_id@);
                }
            }
            assert forall|i: int, m: int|
                0 <= i < kept.len() && 0 <= m < #[trigger] at[i] implies (
            #[trigger] all[m]).memory_id@ != kept[i].memory_id@ by {
                assert(rest[m] == all[m]);
            }
            assert forall|i: int| 0 <= i < kept.len() implies 0 <= #[trigger] at[i] < all.len()
                && kept[i] == all[at[i]] by {
                assert(rest[at[i]] == all[at[i]]);
            }
            at
        } else {
            let more = at.push(all.len() - 1);
            assert forall|i: int| 0 <= i < kept.len() implies 0 <= #[trigger] more[i] < all.len()
                && kept[i] == all[more[i]] by {
                if i < before.len() {
                    assert(at[i] == more[i]);
                    assert(rest[at[i]] == all[at[i]]);
                }
            }
            assert forall|i: int, j: int| 0 <= i < j < more.len() implies #[trigger] more[i]
                < #[trigger] more[j] by {
                if j < at.len() {
                    assert(at[i] == more[i] && at[j] == more[j]);
                } else {
                    assert(at[i] == more[i]);
                }
            }
            assert forall|i: int, m: int|
                0 <= i < kept.len() && 0 <= m < #[trigger] more[i] implies (
            #[trigger] all[m]).memory_id@ != kept[i].memory_id@ by {
                assert(rest[m] == all[m]);
                if i < before.len() {
                    assert(at[i] == more[i]);
                    assert(kept[i] == before[i]);
                } else {
                    if rest[m].memory_id@ == last.memory_id@ {
                        let k = choose|k: int|
                            0 <= k < before.len() && (#[trigger] before[k]).memory_id@
                                == rest[m].memory_id@;
                        assert(ids[k] == last.memory_id@);
                    }
                }
            }
            assert forall|m: int| 0 <= m < all.len() implies exists|i: int|
                0 <= i < kept.len() && (#[trigger] kept[i]).memory_id@ == (
                #[trigger] all[m]).memory_id@ by {
                if m < rest.len() {
                    assert(rest[m] == all[m]);
                    let k = choose|k: int|
                        0 <= k < before.len() && (#[trigger] before[k]).memory_id@
                            == rest[m].memory_id@;
                    assert(kept[k] == before[k]);
                } else {
                    assert(kept[before.len() as int].memory_id@ == all[m].memory_id@);
                }
            }
            more
        }
    }
}

/// Whether a place in the reports, given by report and rank, holds a result.
pub open spec fn is_result(reports: Seq<SearchReport>, place: (int, int)) -> bool {
    0 <= place.0 < reports.len() && 0 <= place.1 < reports[place.0].results@.len()
}

/// The result at a place.
pub open spec fn result_at(reports: Seq<SearchReport>, place: (int, int)) -> SearchResult {
    reports[place.0].results@[place.1]
}

/// A pack lists memories as the queries found them: the queries take turns by rank,
/// each memory stands where it first comes up, with the score that it has there, and
/// none that comes up earlier is left out. There are no more than asked for.
#[verifier::rlimit(40)]
pub proof fn law_pack_lists_memories_in_turn(
    request: PackRequest,
    reports: Vec<SearchReport>,
    last_synth: Option<&str>,
    r: PackReport,
) -> (places: Seq<(int, int)>)
    requires
        call_ensures(
            build_pack,
            (&request, &reports, last_synth),
            Ok::<PackReport, Error>(r),
        ),
    ensures
        places.len() == r.memory_ids@.len(),
        r.scores@.len() == r.memory_ids@.len(),
        r.memory_ids@.len() <= request.max_memories,
        forall|i: int|
            0 <= i < places.len() ==> is_result(reports@, #[trigger] places[i])
                && r.memory_ids@[i]@ == result_at(reports@, places[i]).memory_id@ && r.scores@[i]
                == result_at(reports@, places[i]).score,
        forall|i: int, j: int|
            0 <= i < j < places.len() ==> comes_up_before(
                #[trigger] places[i],
                #[trigger] places[j],
            ) && r.memory_ids@[i]@ != r.memory_ids@[j]@,
        forall|i: int, place: (int, int)|
            0 <= i < places.len() && #[trigger] is_result(reports@, place) && comes_up_before(
                place,
                #[trigger] places[i],
            ) ==> exists|k: int|
                0 <= k < i && (#[trigger] r.memory_ids@[k])@ == result_at(
                    reports@,
                    place,
                ).memory_id@,
        r.title@ == request.title@,
        r.format@ == request.format@,
        r.content@.len() <= request.max_chars,
{
    let lists = result_lists(reports@);
    let turn = law_interleaved_lists_take_turns(lists);
    let all = interleaved(lists);
    let at = lemma_firsts(all);
    let firsts = first_of_each(all);
    let kept = if firsts.len() > request.max_memories {
        firsts.take(request.max_memories as int)
    } else {
        firsts
    };
    crate::pack::law_built_pack_is_aligned(request, reports@, crate::json::text_of(last_synth));
    let n = r.memory_ids@.len();
    assert(views(r.memory_ids@).len() == n);
    let lines = result_lines(kept, crate::json::text_of(last_synth));
    crate::pack::law_pack_keeps_budget(request.title@, lines, request.max_chars as nat);
    let places = Seq::new(n, |i: int| turn[at[i]]);
    assert forall|q: int| 0 <= q < lists.len() implies #[trigger] lists[q]
        == reports@[q].results@ by {}
    assert forall|place: (int, int)| is_place(lists, place) == #[trigger] is_result(
        reports@,
        place,
    ) by {
        if 0 <= place.0 < lists.len() {
            assert(lists[place.0] == reports@[place.0].results@);
        }
    }
    assert forall|i: int| 0 <= i < n implies is_result(reports@, #[trigger] places[i])
        && r.memory_ids@[i]@ == result_at(reports@, places[i]).memory_id@ && r.scores@[i]
        == result_at(reports@, places[i]).score && kept[i] == all[at[i]] by {
        assert(views(r.memory_ids@)[i] == result_ids(kept)[i]);
        assert(r.scores@[i] == result_scores(kept)[i]);
        assert(kept[i] == firsts[i]);
        assert(firsts[i] == all[at[i]]);
        assert(is_place(lists, turn[at[i]]));
        assert(is_result(reports@, turn[at[i]]));
    }
    assert forall|i: int, j: int| 0 <= i < j < n implies comes_up_before(
        #[trigger] places[i],
        #[trigger] places[j],
    ) && r.memory_ids@[i]@ != r.memory_ids@[j]@ by {
        assert(at[i] < at[j]);
        assert(comes_up_before(turn[at[i]], turn[at[j]]));
        assert(all[at[i]].memory_id@ != firsts[j].memory_id@);
        assert(kept[j] == firsts[j]);
        assert(places[i] == turn[at[i]] && places[j] == turn[at[j]]);
    }
    assert forall|i: int, place: (int, int)|
        0 <= i < n && #[trigger] is_result(reports@, place) && comes_up_before(
            place,
            #[trigger] places[i],
        ) implies exists|k: int|
        0 <= k < i && (#[trigger] r.memory_ids@[k])@ == result_at(reports@, place).memory_id@ by {
        assert(is_place(lists, place));
        let m = choose|m: int| 0 <= m < turn.len() && turn[m] == place;
        assert(turn[at[i]] == places[i]);
        if m >= at[i] {
            if m > at[i] {
                assert(comes_up_before(turn[at[i]], turn[m]));
            }
            assert(false);
        }
        assert(all[m] == result_at(reports@, place));
        let k = choose|k: int|
            0 <= k < firsts.len() && (#[trigger] firsts[k]).memory_id@ == all[m].memory_id@;
        if at[k] > m {
            assert(all[m].memory_id@ != firsts[k].memory_id@);
        }
        if k >= i {
            if k > i {
                assert(at[i] < at[k]);
            }
            assert(false);
        }
        assert(places[k] == turn[at[k]]);
        assert(is_result(reports@, places[k]));
        assert(r.memory_ids@[k]@ == firsts[k].memory_id@);
    }
    places
}

/// A pack injects nothing where no result reaches the floor of scores; a top score
/// that it reports reaches the floor and is that of a result; and where nothing was
/// left out, every memory that a query found is listed.
pub proof fn law_pack_applies_the_floor(
    request: PackRequest,
    reports: Vec<SearchReport>,
    last_synth: Option<&str>,
    r: PackReport,
)
    requires
        call_ensures(
            build_pack,
            (&request, &reports, last_synth),
            Ok::<PackReport, Error>(r),
        ),
    ensures
        (exists|place: (int, int)| is_result(reports@, place)) && (forall|place: (int, int)|
            #[trigger] is_result(reports@, place) ==> result_at(reports@, place).score.key
                < request.min_score.key) ==> r.content@.len() == 0 && r.memory_ids@.len() == 0
            && r.scores@.len() == 0 && r.top_score is None,
        r.top_score matches Some(top) ==> top.key >= request.min_score.key && exists|
            place: (int, int),
        |
            #[trigger] is_result(reports@, place) && result_at(reports@, place).score == top,
        r.top_score is Some && !r.truncated ==> forall|place: (int, int)|
            #[trigger] is_result(reports@, place) ==> exists|k: int|
                0 <= k < r.memory_ids@.len() && (#[trigger] r.memory_ids@[k])@ == result_at(
                    reports@,
                    place,
                ).memory_id@,
        (forall|place: (int, int)| !#[trigger] is_result(reports@, place)) ==> r.memory_ids@.len()
            == 0 && r.top_score is None,
{
    let lists = result_lists(reports@);
    let turn = law_interleaved_lists_take_turns(lists);
    let all = interleaved(lists);
    let at = lemma_firsts(all);
    let firsts = first_of_each(all);
    let kept = if firsts.len() > request.max_memories {
        firsts.take(request.max_memories as int)
    } else {
        firsts
    };
    let scores = result_scores(kept);
    law_best_score_is_greatest(scores);
    let lines = result_lines(kept, crate::json::text_of(last_synth));
    crate::pack::law_pack_keeps_budget(request.title@, lines, request.max_chars as nat);
    assert(views(r.memory_ids@).len() == r.memory_ids@.len());
    assert forall|q: int| 0 <= q < lists.len() implies #[trigger] lists[q]
        == reports@[q].results@ by {}
    assert forall|place: (int, int)| is_place(lists, place) == #[trigger] is_result(
        reports@,
        place,
    ) by {
        if 0 <= place.0 < lists.len() {
            assert(lists[place.0] == reports@[place.0].results@);
        }
    }
    assert forall|i: int| 0 <= i < kept.len() implies is_result(reports@, turn[#[trigger] at[i]])
        && kept[i] == result_at(reports@, turn[at[i]]) && scores[i] == kept[i].score by {
        assert(kept[i] == firsts[i]);
        assert(firsts[i] == all[at[i]]);
        assert(is_place(lists, turn[at[i]]));
        assert(is_result(reports@, turn[at[i]]));
    }
    if best_score(scores) is Some {
        let top = best_score(scores)->0;
        let k = choose|k: int| 0 <= k < scores.len() && scores[k] == top;
        assert(is_result(reports@, turn[at[k]]));
        assert(result_at(reports@, turn[at[k]]).score == top);
    }
    if exists|place: (int, int)| is_result(reports@, place) {
        let place = choose|place: (int, int)| is_result(reports@, place);
        assert(is_place(lists, place));
        let m = choose|m: int| 0 <= m < turn.len() && turn[m] == place;
        let k = choose|k: int|
            0 <= k < firsts.len() && (#[trigger] firsts[k]).memory_id@ == all[m].memory_id@;
        assert(firsts.len() > 0);
        assert(request.max_memories > 0);
        assert(kept.len() > 0);
    } else {
        if kept.len() > 0 {
            assert(is_result(reports@, turn[at[0]]));
        }
    }
    if r.top_score is Some && !r.truncated {
        assert(kept == firsts);
        assert(kept.len() > 0);
        assert(views(r.memory_ids@) == result_ids(kept).take(r.memory_ids@.len() as int));
        assert(r.memory_ids@.len() == kept.len());
        assert forall|place: (int, int)| #[trigger] is_result(reports@, place) implies exists|
            k: int,
        |
            0 <= k < r.memory_ids@.len() && (#[trigger] r.memory_ids@[k])@ == result_at(
                reports@,
                place,
            ).memory_id@ by {
            assert(is_place(lists, place));
            let m = choose|m: int| 0 <= m < turn.len() && turn[m] == place;
            let k = choose|k: int|
                0 <= k < firsts.len() && (#[trigger] firsts[k]).memory_id@ == all[m].memory_id@;
            assert(views(r.memory_ids@)[k] == result_ids(kept)[k]);
            assert(r.memory_ids@[k]@ == firsts[k].memory_id@);
        }
    }
}

/// A note on freshness stands beside a memory that is not durable and names what it
/// was verified against: it is confirmed where it was verified no earlier than the
/// last synthesis, and is to be verified otherwise.
pub proof fn law_freshness_follows_verification(
    silo: &str,
    verified_against: Option<&str>,
    verified_at: Option<&str>,
    last_synth: Option<&str>,
    r: String,
)
    requires
        call_ensures(freshness_text, (silo, verified_against, verified_at, last_synth), r),
    ensures
        silo@ == "durable"@ || verified_against is None ==> r@.len() == 0,
        silo@ != "durable"@ && verified_against is Some ==> match (verified_at, last_synth) {
            (Some(at), Some(synth)) => if text_less(at@, synth@) {
                r@ == " [VERIFY vs "@ + verified_against->0@ + "; last "@ + at@ + "]"@
            } else {
                r@ == " [confirmed "@ + at@ + " vs "@ + verified_against->0@ + "]"@
            },
            (Some(at), None) => r@ == " [VERIFY vs "@ + verified_against->0@ + "; last "@ + at@
                + "]"@,
            (None, _) => r@ == " [VERIFY vs "@ + verified_against->0@ + "; last "@ + "never"@
                + "]"@,
        },
{
}

/// What a pack says of a memory: when it was observed, what it is, what it says, where it
/// belongs, and whether it wants verifying.
pub open spec fn telling(result: SearchResult, last_synth: Option<Seq<char>>) -> Seq<char> {
    let text = if result.summary is Some && !is_blank(result.summary->0@) {
        collapsed(result.summary->0@)
    } else {
        collapsed(result.snippet@)
    };
    let tags = if result.tags@.len() == 0 {
        "-"@
    } else {
        joined(views(result.tags@), ","@)
    };
    "- [Observed at: "@ + result.observed_at@ + "] ["@ + result.kind@ + ":"@ + result.memory_id@
        + "] "@ + text + " (space="@ + result.space@ + ", silo="@ + result.silo@ + ", scope="@
        + result.scope@ + ", tags="@ + tags + ")"@ + crate::pack::marker(
        result.silo@,
        text_of_string(result.metadata_json),
        last_synth,
    ) + "\n"@
}

/// What a pack says of the first `n` memories, one after the other.
pub open spec fn told(
    results: Seq<&SearchResult>,
    last_synth: Option<Seq<char>>,
    n: nat,
) -> Seq<char>
    decreases n,
{
    if n == 0 {
        Seq::empty()
    } else {
        told(results, last_synth, (n - 1) as nat) + telling(*results[n - 1], last_synth)
    }
}

proof fn lemma_telling(result: SearchResult, last_synth: Option<Seq<char>>)
    ensures
        crate::pack::result_line(result, last_synth) == telling(result, last_synth),
{
    assert(is_one_text(
        crate::pack::result_line(result, last_synth),
        telling(result, last_synth),
    ));
}

/// Whether two texts are one.
spec fn is_one_text(a: Seq<char>, b: Seq<char>) -> bool {
    a == b
}

proof fn lemma_told(results: Seq<&SearchResult>, last_synth: Option<Seq<char>>, n: nat)
    requires
        n <= results.len(),
    ensures
        crate::pack::poured(
            crate::pack::result_lines(crate::pack::behind(results), last_synth).take(n as int),
        ) == told(results, last_synth, n),
    decreases n,
{
    let lines = crate::pack::result_lines(crate::pack::behind(results), last_synth);
    assert(lines.len() == results.len());
    if n > 0 {
        lemma_told(results, last_synth, (n - 1) as nat);
        assert(lines.take(n as int).drop_last() =~= lines.take(n - 1));
        assert(lines.take(n as int).last() == crate::pack::result_line(
            *results[n - 1],
            last_synth,
        ));
        lemma_telling(*results[n - 1], last_synth);
    }
}

proof fn lemma_poured_skip(lines: Seq<Seq<char>>, n: nat)
    requires
        0 < n <= lines.len(),
    ensures
        crate::pack::poured(lines.take(n as int)).len() == lines[0].len() + crate::pack::poured(
            lines.skip(1).take(n - 1),
        ).len(),
    decreases n,
{
    if n == 1 {
        assert(lines.take(1).drop_last() =~= Seq::<Seq<char>>::empty());
        assert(lines.take(1).last() == lines[0]);
        assert(lines.skip(1).take(0) =~= Seq::<Seq<char>>::empty());
        assert(crate::pack::poured(Seq::<Seq<char>>::empty()).len() == 0);
    } else {
        lemma_poured_skip(lines, (n - 1) as nat);
        assert(lines.take(n as int).drop_last() =~= lines.take(n - 1));
        assert(lines.skip(1).take(n - 1).drop_last() =~= lines.skip(1).take(n - 2));
        assert(lines.take(n as int).last() == lines[n - 1]);
        assert(lines.skip(1).take(n - 1).last() == lines[n - 1]);
    }
}

proof fn lemma_fitting(lines: Seq<Seq<char>>, room: int)
    requires
        room >= 0,
    ensures
        crate::pack::fitting(lines, room) <= lines.len(),
        crate::pack::poured(lines.take(crate::pack::fitting(lines, room) as int)).len() <= room,
        crate::pack::fitting(lines, room) < lines.len() ==> crate::pack::poured(
            lines.take(crate::pack::fitting(lines, room) as int + 1),
        ).len() > room,
    decreases lines.len(),
{
    let n = crate::pack::fitting(lines, room);
    if lines.len() == 0 || lines[0].len() > room {
        assert(lines.take(0) =~= Seq::<Seq<char>>::empty());
        if lines.len() > 0 {
            lemma_poured_skip(lines, 1);
        }
    } else {
        lemma_fitting(lines.skip(1), room - lines[0].len());
        lemma_poured_skip(lines, n);
        if n < lines.len() {
            lemma_poured_skip(lines, n + 1);
        }
    }
}

/// A pack has its title and then one line for each memory, in order, as many as there is
/// room for: another line would be too much. It names the memories that it tells of, and
/// says so where there are none. This leaves out a pack that has no room for its title or
/// for its first line.
pub proof fn law_pack_tells_what_fits(
    request: PackRequest,
    results: Vec<&SearchResult>,
    last_synth: Option<&str>,
    pack: (String, Vec<String>, Vec<Score>, bool),
)
    requires
        call_ensures(format_pack_markdown, (&request, &results, last_synth), pack),
        "## Retrieved Memory: "@.len() + trimmed(request.title@).len() + "\n"@.len()
            <= request.max_chars,
        results@.len() > 0 ==> "## Retrieved Memory: "@.len() + trimmed(request.title@).len()
            + "\n"@.len() + told(results@, text_of(last_synth), 1).len() <= request.max_chars,
    ensures
        ({
            let header = "## Retrieved Memory: "@ + trimmed(request.title@) + "\n"@;
            let n = pack.1@.len();
            &&& n <= results@.len()
            &&& results@.len() > 0 ==> n > 0 && pack.0@ == header + told(
                results@,
                text_of(last_synth),
                n,
            )
            &&& results@.len() == 0 && header.len() + "- No matching active memories.\n"@.len()
                <= request.max_chars ==> pack.0@ == header + "- No matching active memories.\n"@
                && !pack.3
            &&& pack.0@.len() <= request.max_chars
            &&& n < results@.len() ==> header.len() + told(
                results@,
                text_of(last_synth),
                n + 1,
            ).len() > request.max_chars
            &&& results@.len() > 0 ==> (pack.3 <==> n < results@.len())
            &&& pack.2@.len() == n
            &&& forall|i: int|
                0 <= i < n ==> (#[trigger] pack.1@[i])@ == results@[i].memory_id@ && pack.2@[i]
                    == results@[i].score
        }),
{
    let last = text_of(last_synth);
    let all = crate::pack::behind(results@);
    let lines = crate::pack::result_lines(all, last);
    let header = crate::pack::pack_header(request.title@);
    let room = request.max_chars - header.len();
    assert(lines.len() == results@.len() && all.len() == results@.len());
    lemma_fitting(lines, room);
    let n = crate::pack::fitting(lines, room);
    let text = crate::pack::pack_text(request.title@, lines, request.max_chars as nat);
    let ids = views(pack.1@);
    assert(ids.len() == pack.1@.len());
    if results@.len() > 0 {
        lemma_told(results@, last, 1);
        assert(lines.take(1).drop_last() =~= Seq::<Seq<char>>::empty());
        lemma_poured_skip(lines, 1);
        assert(lines.skip(1).take(0) =~= Seq::<Seq<char>>::empty());
        assert(lines[0].len() <= room);
        assert(n > 0);
        lemma_told(results@, last, n);
        if n < results@.len() {
            lemma_told(results@, last, n + 1);
        }
        assert(text.shown == n);
        assert(crate::pack::result_ids(all).len() == all.len());
        assert(ids.len() == n);
    }
    assert forall|i: int| 0 <= i < pack.1@.len() implies (#[trigger] pack.1@[i])@
        == results@[i].memory_id@ && pack.2@[i] == results@[i].score by {
        assert(ids[i] == pack.1@[i]@);
        assert(crate::pack::result_ids(all)[i] == all[i].memory_id@);
        assert(crate::pack::result_scores(all)[i] == all[i].score);
    }
}

} // verus!
