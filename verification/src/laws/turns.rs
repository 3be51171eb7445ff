//! Lists that take turns.

use vstd::prelude::*;

use crate::pool::{interleaved, longest, rank_row, round_robin};

verus! {

/// Whether a place in some lists, given by list and rank, comes up before another
/// when the lists take turns by rank.
pub open spec fn comes_up_before(a: (int, int), b: (int, int)) -> bool {
    a.1 < b.1 || (a.1 == b.1 && a.0 < b.0)
}

/// Whether a place, given by list and rank, is in the lists.
pub open spec fn is_place<A>(lists: Seq<Seq<A>>, place: (int, int)) -> bool {
    0 <= place.0 < lists.len() && 0 <= place.1 < lists[place.0].len()
}

/// Whether items stand in the order in which their places come up, with no place
/// left out.
pub open spec fn takes_turns<A>(
    lists: Seq<Seq<A>>,
    items: Seq<A>,
    places: Seq<(int, int)>,
) -> bool {
    &&& places.len() == items.len()
    &&& forall|i: int|
        0 <= i < items.len() ==> is_place(lists, #[trigger] places[i]) && items[i]
            == lists[places[i].0][places[i].1]
    &&& forall|i: int, j: int|
        0 <= i < j < items.len() ==> comes_up_before(#[trigger] places[i], #[trigger] places[j])
    &&& forall|place: (int, int)| #[trigger] is_place(lists, place) ==> places.contains(place)
}

proof fn lemma_longest<A>(lists: Seq<Seq<A>>, q: int)
    requires
        0 <= q < lists.len(),
    ensures
        lists[q].len() <= longest(lists),
    decreases lists.len(),
{
    if q < lists.len() - 1 {
        lemma_longest(lists.drop_last(), q);
    }
}

proof fn lemma_row<A>(lists: Seq<Seq<A>>, n: int, rank: int) -> (places: Seq<(int, int)>)
    requires
        0 <= n <= lists.len(),
        rank >= 0,
    ensures
        places.len() == rank_row(lists.take(n), rank).len(),
        forall|i: int|
            0 <= i < places.len() ==> (#[trigger] places[i]).1 == rank && is_place(lists, places[i])
                && places[i].0 < n && rank_row(lists.take(n), rank)[i]
                == lists[places[i].0][places[i].1],
        forall|i: int, j: int|
            0 <= i < j < places.len() ==> (#[trigger] places[i]).0 < (#[trigger] places[j]).0,
        forall|q: int|
            0 <= q < n && rank < (#[trigger] lists[q]).len() ==> places.contains((q, rank)),
    decreases n,
{
    if n == 0 {
        Seq::empty()
    } else {
        let before = lemma_row(lists, n - 1, rank);
        assert(lists.take(n).drop_last() =~= lists.take(n - 1));
        assert(lists.take(n).last() == lists[n - 1]);
        let row = rank_row(lists.take(n - 1), rank);
        if rank < lists[n - 1].len() {
            let places = before.push((n - 1, rank));
            assert forall|q: int|
                0 <= q < n && rank < (#[trigger] lists[q]).len() implies places.contains(
                (q, rank),
            ) by {
                if q < n - 1 {
                    let k = choose|k: int| 0 <= k < before.len() && before[k] == (q, rank);
                    assert(places[k] == (q, rank));
                } else {
                    assert(places[before.len() as int] == (q, rank));
                }
            }
            places
        } else {
            before
        }
    }
}

proof fn lemma_ranks<A>(lists: Seq<Seq<A>>, ranks: nat) -> (places: Seq<(int, int)>)
    ensures
        places.len() == round_robin(lists, ranks).len(),
        forall|i: int|
            0 <= i < places.len() ==> is_place(lists, #[trigger] places[i]) && places[i].1 < ranks
                && round_robin(lists, ranks)[i] == lists[places[i].0][places[i].1],
        forall|i: int, j: int|
            0 <= i < j < places.len() ==> comes_up_before(
                #[trigger] places[i],
                #[trigger] places[j],
            ),
        forall|place: (int, int)| #[trigger]
            is_place(lists, place) && place.1 < ranks ==> places.contains(place),
    decreases ranks,
{
    if ranks == 0 {
        Seq::empty()
    } else {
        let before = lemma_ranks(lists, (ranks - 1) as nat);
        let row = lemma_row(lists, lists.len() as int, ranks - 1);
        assert(lists.take(lists.len() as int) =~= lists);
        let places = before + row;
        assert forall|place: (int, int)| #[trigger]
            is_place(lists, place) && place.1 < ranks implies places.contains(place) by {
            if place.1 < ranks - 1 {
                let k = choose|k: int| 0 <= k < before.len() && before[k] == place;
                assert(places[k] == place);
            } else {
                assert(rank_of_row(lists, place.0, ranks - 1));
                assert(row.contains((place.0, ranks - 1)));
                let k = choose|k: int| 0 <= k < row.len() && row[k] == place;
                assert(places[before.len() + k] == place);
            }
        }
        places
    }
}

spec fn rank_of_row<A>(lists: Seq<Seq<A>>, q: int, rank: int) -> bool {
    0 <= q < lists.len() && rank < lists[q].len()
}

/// Interleaved lists take turns: the first of each, then the second of each, and so
/// on; nothing is left out.
pub proof fn law_interleaved_lists_take_turns<A>(lists: Seq<Seq<A>>) -> (places: Seq<(int, int)>)
    ensures
        takes_turns(lists, interleaved(lists), places),
{
    let places = lemma_ranks(lists, longest(lists));
    assert forall|place: (int, int)| #[trigger] is_place(lists, place) implies places.contains(
        place,
    ) by {
        lemma_longest(lists, place.0);
    }
    places
}

} // verus!
