//! What a pool of candidates promises: who is in it, in which order, and where from.

use vstd::prelude::*;

use crate::admissions::lookup;
use crate::error::Error;
use crate::expansion::activation_models;
use crate::hybrid::{
    materialize_expanded_rerank_candidates, materialized, pool_candidates,
    stored_contents, RerankPoolCandidate, StoredContent,
};
use crate::laws::turns::{law_interleaved_lists_take_turns, takes_turns};
use crate::pool::{
    absorb, absorb_all, build_pack_pool, direct_lists, find_id, interleaved, items,
    lemma_find_id, longer, longest, merge_rerank_pools, merged_ranks, pool_of_hits, rank_row,
    round_robin, two_pools, AdmissionSource, ItemModel, PackPoolItem, QueryHits,
};
use crate::ranking::Score;
use crate::requests::PackRequest;

verus! {

/// Whether the kept items are the first of each memory among all items, in order, as many
/// as there is room for.
pub open spec fn keeps_first_items(
    all: Seq<ItemModel>,
    kept: Seq<ItemModel>,
    cap: nat,
    at: Seq<int>,
) -> bool {
    &&& at.len() == kept.len()
    &&& kept.len() <= cap
    &&& forall|i: int| 0 <= i < at.len() ==> 0 <= #[trigger] at[i] < all.len()
    &&& forall|i: int, j: int| 0 <= i < j < at.len() ==> #[trigger] at[i] < #[trigger] at[j]
    &&& forall|i: int|
        0 <= i < kept.len() ==> (#[trigger] kept[i]).memory_id == all[at[i]].memory_id
            && kept[i].score == all[at[i]].score
    &&& forall|i: int, k: int|
        0 <= i < kept.len() && 0 <= k < at[i] ==> (#[trigger] all[k]).memory_id != (
        #[trigger] kept[i]).memory_id
    &&& forall|k: int|
        0 <= k < all.len() ==> find_id(kept, (#[trigger] all[k]).memory_id) is Some || (kept.len()
            == cap && (at.len() > 0 ==> at.last() < k))
}

proof fn lemma_absorb_one(
    all: Seq<ItemModel>,
    kept: Seq<ItemModel>,
    cap: nat,
    at: Seq<int>,
    item: ItemModel,
) -> (after: Seq<int>)
    requires
        keeps_first_items(all, kept, cap, at),
    ensures
        keeps_first_items(all.push(item), absorb(kept, item, cap), cap, after),
{
    let more = all.push(item);
    let next = absorb(kept, item, cap);
    lemma_find_id(kept, item.memory_id);
    let after = if find_id(kept, item.memory_id) is None && kept.len() < cap {
        at.push(all.len() as int)
    } else {
        at
    };
    assert forall|i: int| 0 <= i < kept.len() implies (#[trigger] next[i]).memory_id
        == kept[i].memory_id && next[i].score == kept[i].score by {}
    assert forall|i: int| 0 <= i < next.len() implies (#[trigger] next[i]).memory_id
        == more[after[i]].memory_id && next[i].score == more[after[i]].score by {
        if i < kept.len() {
            assert(kept[i].memory_id == all[at[i]].memory_id);
            assert(after[i] == at[i]);
        }
    }
    assert forall|i: int, k: int| 0 <= i < next.len() && 0 <= k < after[i] implies (
    #[trigger] more[k]).memory_id != (#[trigger] next[i]).memory_id by {
        if i < kept.len() {
            assert(all[k].memory_id != kept[i].memory_id);
        } else {
            assert(more[k] == all[k]);
            if find_id(kept, all[k].memory_id) is Some {
                lemma_find_id(kept, all[k].memory_id);
            }
        }
    }
    assert forall|k: int| 0 <= k < more.len() implies find_id(
        next,
        (#[trigger] more[k]).memory_id,
    ) is Some || (next.len() == cap && (after.len() > 0 ==> after.last() < k)) by {
        let id = more[k].memory_id;
        lemma_find_id(next, id);
        if k < all.len() {
            assert(more[k] == all[k]);
            lemma_find_id(kept, id);
            if let Some(p) = find_id(kept, id) {
                assert(next[p].memory_id == id);
            }
        } else {
            if let Some(p) = find_id(kept, id) {
                assert(next[p].memory_id == id);
            } else if kept.len() < cap {
                assert(next[kept.len() as int].memory_id == id);
            }
        }
    }
    after
}

proof fn lemma_absorb_all(
    all: Seq<ItemModel>,
    kept: Seq<ItemModel>,
    cap: nat,
    at: Seq<int>,
    row: Seq<ItemModel>,
) -> (after: Seq<int>)
    requires
        keeps_first_items(all, kept, cap, at),
    ensures
        keeps_first_items(all + row, absorb_all(kept, row, cap), cap, after),
    decreases row.len(),
{
    if row.len() == 0 {
        assert(all + row =~= all);
        at
    } else {
        let before = lemma_absorb_all(all, kept, cap, at, row.drop_last());
        let after = lemma_absorb_one(
            all + row.drop_last(),
            absorb_all(kept, row.drop_last(), cap),
            cap,
            before,
            row.last(),
        );
        assert((all + row.drop_last()).push(row.last()) =~= all + row);
        after
    }
}

proof fn lemma_full(
    all: Seq<ItemModel>,
    kept: Seq<ItemModel>,
    cap: nat,
    at: Seq<int>,
    row: Seq<ItemModel>,
)
    requires
        keeps_first_items(all, kept, cap, at),
        kept.len() >= cap,
    ensures
        keeps_first_items(all + row, kept, cap, at),
{
    let more = all + row;
    assert forall|i: int, k: int| 0 <= i < kept.len() && 0 <= k < at[i] implies (
    #[trigger] more[k]).memory_id != (#[trigger] kept[i]).memory_id by {
        assert(more[k] == all[k]);
    }
    assert forall|k: int| 0 <= k < more.len() implies find_id(
        kept,
        (#[trigger] more[k]).memory_id,
    ) is Some || (kept.len() == cap && (at.len() > 0 ==> at.last() < k)) by {
        if k < all.len() {
            assert(more[k] == all[k]);
        }
    }
}

/// A pool of hits holds the first hit of each memory, where the queries take turns: the
/// best hit of each query comes before the second of any. It holds no more than it may,
/// and leaves a memory out only where it is full of earlier ones.
pub proof fn law_pool_takes_the_first_of_each(
    queries: Vec<QueryHits>,
    max_memories: usize,
    pool: Vec<PackPoolItem>,
) -> (r: (Seq<Seq<ItemModel>>, Seq<ItemModel>, Seq<(int, int)>, Seq<int>))
    requires
        call_ensures(pool_of_hits, (&queries, max_memories), pool),
    ensures
        r.0.len() == queries@.len(),
        forall|q: int|
            0 <= q < queries@.len() ==> (#[trigger] r.0[q]).len() == queries@[q].hits@.len(),
        forall|q: int, i: int|
            0 <= q < queries@.len() && 0 <= i < queries@[q].hits@.len() ==> (
            #[trigger] r.0[q][i]).memory_id == queries@[q].hits@[i].0@ && r.0[q][i].score
                == queries@[q].hits@[i].1 && r.0[q][i].admissions.len() == 1
                && r.0[q][i].admissions[0].source == if queries@[q].embedded {
                AdmissionSource::Ann
            } else {
                AdmissionSource::Bm25
            },
        takes_turns(r.0, r.1, r.2),
        keeps_first_items(r.1, items(pool@), max_memories as nat, r.3),
{
    let lists = direct_lists(queries@);
    let all = interleaved(lists);
    let places = law_interleaved_lists_take_turns(lists);
    let none = Seq::<ItemModel>::empty();
    let at = lemma_absorb_all(none, none, max_memories as nat, Seq::empty(), all);
    assert(none + all =~= all);
    (lists, all, places, at)
}

/// The pool of a pack is that of its hits.
pub proof fn law_pack_pool_takes_the_first_of_each(
    request: PackRequest,
    queries: Vec<QueryHits>,
    pool: Vec<PackPoolItem>,
) -> (r: (Seq<ItemModel>, Seq<(int, int)>, Seq<int>))
    requires
        call_ensures(build_pack_pool, (&request, &queries), Ok::<Vec<PackPoolItem>, Error>(pool)),
    ensures
        1 <= request.max_memories <= 50,
        1 <= request.max_chars <= 10_000,
        takes_turns(direct_lists(queries@), r.0, r.1),
        keeps_first_items(r.0, items(pool@), request.max_memories as nat, r.2),
{
    let lists = direct_lists(queries@);
    let all = interleaved(lists);
    let places = law_interleaved_lists_take_turns(lists);
    let none = Seq::<ItemModel>::empty();
    let at = lemma_absorb_all(none, none, request.max_memories as nat, Seq::empty(), all);
    assert(none + all =~= all);
    (all, places, at)
}

proof fn lemma_merged(a: Seq<ItemModel>, b: Seq<ItemModel>, cap: nat, ranks: nat) -> (at: Seq<int>)
    ensures
        keeps_first_items(
            round_robin(two_pools(a, b), ranks),
            merged_ranks(a, b, cap, ranks),
            cap,
            at,
        ),
    decreases ranks,
{
    if ranks == 0 {
        Seq::empty()
    } else {
        let before = lemma_merged(a, b, cap, (ranks - 1) as nat);
        let all = round_robin(two_pools(a, b), (ranks - 1) as nat);
        let kept = merged_ranks(a, b, cap, (ranks - 1) as nat);
        let row = rank_row(two_pools(a, b), ranks - 1);
        if ranks > 1 && kept.len() >= cap {
            lemma_full(all, kept, cap, before, row);
            before
        } else {
            lemma_absorb_all(all, kept, cap, before, row)
        }
    }
}

/// Two pools are merged in turns, the first one first: the merged pool holds the first
/// item of each memory, in that order, and no more than it may.
pub proof fn law_merged_pools_take_turns(
    first: Vec<PackPoolItem>,
    second: Vec<PackPoolItem>,
    max: usize,
    merged: Vec<PackPoolItem>,
) -> (r: (Seq<ItemModel>, Seq<(int, int)>, Seq<int>))
    requires
        call_ensures(merge_rerank_pools, (&first, &second, max), merged),
    ensures
        takes_turns(seq![items(first@), items(second@)], r.0, r.1),
        keeps_first_items(r.0, items(merged@), max as nat, r.2),
{
    let a = items(first@);
    let b = items(second@);
    let lists = two_pools(a, b);
    let places = law_interleaved_lists_take_turns(lists);
    let at = lemma_merged(a, b, max as nat, longer(a.len(), b.len()));
    assert(lists.drop_last() =~= seq![a]);
    assert(seq![a].drop_last() =~= Seq::<Seq<ItemModel>>::empty());
    assert(longest(Seq::<Seq<ItemModel>>::empty()) == 0);
    assert(longest(seq![a]) == a.len());
    assert(longest(lists) == longer(a.len(), b.len()));
    assert(lists =~= seq![items(first@), items(second@)]);
    (interleaved(lists), places, at)
}

/// Whether a memory has stored content under its id.
pub open spec fn has_content(contents: Seq<StoredContent>, id: Seq<char>) -> bool {
    lookup(stored_contents(contents), id) matches Some(stored) && stored.0.len() > 0
}

proof fn lemma_materialized(
    pool: Seq<ItemModel>,
    activations: Seq<(Seq<char>, Score)>,
    contents: Seq<(Seq<char>, (Seq<char>, Seq<char>))>,
) -> (places: Seq<int>)
    ensures
        places.len() == materialized(pool, activations, contents).len(),
        forall|i: int|
            0 <= i < places.len() ==> 0 <= #[trigger] places[i] < pool.len() && is_made_of(
                materialized(pool, activations, contents)[i],
                pool[places[i]],
                activations,
                contents,
            ),
        forall|i: int, j: int|
            0 <= i < j < places.len() ==> #[trigger] places[i] < #[trigger] places[j],
        forall|k: int|
            0 <= k < pool.len() && has_text(contents, (#[trigger] pool[k]).memory_id)
                ==> places.contains(k),
    decreases pool.len(),
{
    if pool.len() == 0 {
        Seq::empty()
    } else {
        let rest = pool.drop_last();
        let last = pool.len() - 1;
        let before = lemma_materialized(rest, activations, contents);
        let places = if has_text(contents, pool.last().memory_id) {
            before.push(last)
        } else {
            before
        };
        let made = materialized(pool, activations, contents);
        assert forall|i: int| 0 <= i < places.len() implies 0 <= #[trigger] places[i] < pool.len()
            && is_made_of(made[i], pool[places[i]], activations, contents) by {
            if i < before.len() {
                assert(places[i] == before[i]);
                assert(rest[before[i]] == pool[before[i]]);
                assert(made[i] == materialized(rest, activations, contents)[i]);
            }
        }
        assert forall|k: int| 0 <= k < pool.len() && has_text(
            contents,
            (#[trigger] pool[k]).memory_id,
        ) implies places.contains(k) by {
            if k < last {
                assert(rest[k] == pool[k]);
                assert(before.contains(k));
                let i = choose|i: int| 0 <= i < before.len() && before[i] == k;
                assert(places[i] == k);
            } else {
                assert(places[before.len() as int] == k);
            }
        }
        places
    }
}

/// Whether contents have a text under an id.
pub open spec fn has_text(
    contents: Seq<(Seq<char>, (Seq<char>, Seq<char>))>,
    id: Seq<char>,
) -> bool {
    lookup(contents, id) matches Some(stored) && stored.0.len() > 0
}

/// Whether a candidate is made of an item of a pool: with its stored content, and in
/// consensus where both the graph and a search found it.
pub open spec fn is_made_of(
    candidate: crate::hybrid::PoolCandidateModel,
    item: ItemModel,
    activations: Seq<(Seq<char>, Score)>,
    contents: Seq<(Seq<char>, (Seq<char>, Seq<char>))>,
) -> bool {
    &&& candidate.memory_id == item.memory_id
    &&& has_text(contents, item.memory_id)
    &&& candidate.content == (lookup(contents, item.memory_id)->0).0
    &&& candidate.observed_at == (lookup(contents, item.memory_id)->0).1
    &&& candidate.activation == lookup(activations, item.memory_id)
    &&& candidate.admissions == item.admissions
    &&& candidate.consensus <==> candidate.activation is Some && exists|i: int|
        0 <= i < item.admissions.len() && (#[trigger] item.admissions[i]).source
            != AdmissionSource::Graph
}

/// Every item of a pool that has stored content becomes a candidate for reranking, in the
/// order of the pool, and no other does.
pub proof fn law_candidates_are_made_of_the_pool(
    pool: Vec<PackPoolItem>,
    activations: Vec<(String, Score)>,
    contents: Vec<StoredContent>,
    made: Vec<RerankPoolCandidate>,
) -> (places: Seq<int>)
    requires
        call_ensures(
            materialize_expanded_rerank_candidates,
            (&pool, &activations, &contents),
            made,
        ),
    ensures
        places.len() == made@.len(),
        forall|i: int|
            0 <= i < places.len() ==> 0 <= #[trigger] places[i] < pool@.len() && is_made_of(
                made@[i]@,
                pool@[places[i]]@,
                activation_models(activations@),
                stored_contents(contents@),
            ),
        forall|i: int, j: int|
            0 <= i < j < places.len() ==> #[trigger] places[i] < #[trigger] places[j],
        forall|k: int|
            0 <= k < pool@.len() && has_content(contents@, (#[trigger] pool@[k]).memory_id@)
                ==> places.contains(k),
{
    let models = items(pool@);
    let acts = activation_models(activations@);
    let texts = stored_contents(contents@);
    let places = lemma_materialized(models, acts, texts);
    let out = pool_candidates(made@);
    assert(models.len() == pool@.len());
    assert(out.len() == made@.len());
    assert forall|i: int| 0 <= i < places.len() implies 0 <= #[trigger] places[i] < pool@.len()
        && is_made_of(made@[i]@, pool@[places[i]]@, acts, texts) by {
        assert(out[i] == made@[i]@);
        assert(models[places[i]] == pool@[places[i]]@);
    }
    assert forall|k: int| 0 <= k < pool@.len() && has_content(
        contents@,
        (#[trigger] pool@[k]).memory_id@,
    ) implies places.contains(k) by {
        assert(models[k].memory_id == pool@[k].memory_id@);
        assert(has_text(texts, models[k].memory_id));
    }
    places
}

} // verus!
