//! Late interaction: the memories that token embeddings choose.

use vstd::prelude::*;

use crate::admissions::{activation_key, graph_ranks, rank_activations};
use crate::expansion::{activation_models, rank_models};
use crate::ranking::{sorting, Score};
use crate::search::PreparedSearchRequest;
use crate::statements::{late_selection, selection, shortlist, shortlist_width};
use crate::text::{list_contains, views};

verus! {

/// The best of scored memories: greater scores first, then by id, up to `n` of them.
pub open spec fn best_scored(scored: Seq<(Seq<char>, Score)>, n: int) -> Seq<Seq<char>> {
    let order = sorting(scored.map_values(|e: (Seq<char>, Score)| activation_key(e)));
    Seq::new(
        if n < order.len() {
            n as nat
        } else {
            order.len()
        },
        |i: int| scored[order[i]].0,
    )
}

/// Chooses memories by the scores of their token embeddings: as many as the page
/// ends at.
pub fn late_choice(p: &PreparedSearchRequest, scored: &Vec<(String, Score)>) -> (r: Vec<String>)
    ensures
        views(r@) == best_scored(activation_models(scored@), selection(p.limit, p.offset)),
{
    let ranked = rank_activations(scored);
    let ghost models = activation_models(scored@);
    let ghost wanted = best_scored(models, selection(p.limit, p.offset));
    let most = late_selection(p);
    let n: usize = if most < ranked.len() {
        most
    } else {
        ranked.len()
    };
    assert(rank_models(ranked@).len() == ranked@.len());
    let mut out: Vec<String> = Vec::new();
    assert(views(out@) =~= wanted.take(0));
    for i in 0..n
        invariant
            n <= ranked@.len(),
            n == wanted.len(),
            rank_models(ranked@) == graph_ranks(models),
            wanted == best_scored(models, selection(p.limit, p.offset)),
            views(out@) == wanted.take(i as int),
    {
        let ghost before = out@;
        out.push(ranked[i].0.clone());
        proof {
            assert(rank_models(ranked@)[i as int] == graph_ranks(models)[i as int]);
            assert(ranked@[i as int].0@ == wanted[i as int]);
            assert(views(out@) =~= views(before).push(wanted[i as int]));
            assert(wanted.take(i + 1) =~= wanted.take(i as int).push(wanted[i as int]));
        }
    }
    assert(wanted.take(n as int) =~= wanted);
    out
}

/// The texts of a list that are among others, in the order of the list.
pub open spec fn those_among(list: Seq<Seq<char>>, others: Seq<Seq<char>>) -> Seq<Seq<char>> {
    list.filter(|t: Seq<char>| others.contains(t))
}

/// The memories whose token embeddings are compared: all eligible ones, or the
/// nearest of them, as many as the shortlist holds.
pub open spec fn compared(
    eligible: Seq<Seq<char>>,
    nearest: Option<Seq<Seq<char>>>,
    shortlist: Option<int>,
) -> Seq<Seq<char>> {
    match (shortlist, nearest) {
        (Some(width), Some(near)) => {
            let kept = those_among(near, eligible);
            if width < kept.len() {
                kept.take(width)
            } else {
                kept
            }
        },
        _ => eligible,
    }
}

/// Chooses the memories whose token embeddings are compared. `nearest` lists the
/// indexed memories, nearest first, where an index for the embedding exists.
pub fn compared_memories(
    p: &PreparedSearchRequest,
    eligible: Vec<String>,
    nearest: &Option<Vec<String>>,
) -> (r: Vec<String>)
    ensures
        views(r@) == compared(
            views(eligible@),
            match *nearest {
                Some(near) => Some(views(near@)),
                None => None,
            },
            shortlist(p@, eligible@.len()),
        ),
{
    let near = match nearest {
        Some(near) => near,
        None => {
            return eligible;
        },
    };
    let width: usize = match shortlist_width(p, eligible.len()) {
        Some(width) => width,
        None => {
            return eligible;
        },
    };
    let ghost list = views(near@);
    let ghost others = views(eligible@);
    let ghost among = |t: Seq<char>| others.contains(t);
    let mut out: Vec<String> = Vec::new();
    assert(list.take(0) =~= Seq::<Seq<char>>::empty());
    proof {
        reveal(Seq::filter);
    }
    assert(views(out@) =~= list.take(0).filter(among));
    for i in 0..near.len()
        invariant
            list == views(near@),
            others == views(eligible@),
            among == (|t: Seq<char>| others.contains(t)),
            views(out@) == list.take(i as int).filter(among),
    {
        proof {
            reveal(Seq::filter);
            assert(list.take(i + 1).drop_last() =~= list.take(i as int));
            assert(list.take(i + 1).last() == near@[i as int]@);
        }
        let ghost before = out@;
        if list_contains(eligible.as_slice(), near[i].as_str()) {
            out.push(near[i].clone());
            assert(views(out@) =~= views(before).push(near@[i as int]@));
        }
    }
    assert(list.take(near@.len() as int) =~= list);
    let ghost kept = out@;
    if out.len() > width {
        out.truncate(width);
        assert(views(out@) =~= views(kept).take(width as int));
    }
    out
}

/// No memory that is chosen scores less than one that is left out.
pub proof fn law_choice_is_best(scored: Seq<(Seq<char>, Score)>, n: int)
    requires
        n >= 0,
    ensures
        ({
            let keys = scored.map_values(|e: (Seq<char>, Score)| activation_key(e));
            let order = sorting(keys);
            &&& order.len() == scored.len()
            &&& forall|i: int, j: int|
                0 <= i < best_scored(scored, n).len() <= j < scored.len()
                    ==> scored[#[trigger] order[i]].1.key >= scored[#[trigger] order[j]].1.key
        }),
{
    let keys = scored.map_values(|e: (Seq<char>, Score)| activation_key(e));
    let order = sorting(keys);
    crate::ranking::law_sorting_exists(keys);
    assert forall|i: int, j: int|
        0 <= i < best_scored(scored, n).len() <= j < scored.len() implies scored[
        #[trigger] order[i]].1.key >= scored[#[trigger] order[j]].1.key by {
        assert(crate::ranking::goes_before(keys, order[i], order[j]));
        let a = keys[order[i]];
        let b = keys[order[j]];
        assert(a.numbers[0] == -scored[order[i]].1.key);
        assert(b.numbers[0] == -scored[order[j]].1.key);
    }
}

} // verus!
