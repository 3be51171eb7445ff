//! What the search for memories that resemble a new one promises.

use vstd::prelude::*;

use crate::laws::ordering::{lemma_key_order, lemma_sorting_names_each};
use crate::ranking::sorting;
use crate::similar::{
    accumulated, detect_remember_candidates, find_memory, jaccard_similarity, overlap,
    ranked_related, related_key, related_models, reported, with_lexical_rows, with_match,
    with_rows, Accumulated, Ratio, RelatedRows, RememberCandidate, RememberCandidateRow,
};
use crate::terms::comparison_terms;
use crate::text::views;

verus! {

/// How strong a resemblance is: a duplicate is stronger than an update, and that than
/// anything else.
pub open spec fn strength(relationship: Seq<char>) -> int {
    if relationship == "duplicate"@ {
        2
    } else if relationship == "update_candidate"@ {
        1
    } else {
        0
    }
}

/// Whether a resemblance is scored as its kind asks: a duplicate fully, an update by what
/// it shares, and another one by its words, from seven twentieths on and below an update
/// of the same claim.
pub open spec fn is_scored(relationship: Seq<char>, score: Ratio) -> bool {
    ||| relationship == "duplicate"@ && score == (Ratio { part: 1, whole: 1 })
    ||| relationship == "update_candidate"@ && (score == (Ratio { part: 95, whole: 100 }) || score
        == (Ratio { part: 75, whole: 100 }))
    ||| relationship == "related_candidate"@ && score.part * 20 >= score.whole * 7 && score.part
        * 100 <= score.whole * 94
}

/// Whether a list has a memory, as strongly resembling as that or more.
pub open spec fn has_at_least(list: Seq<Accumulated>, id: Seq<char>, strong: int) -> bool {
    exists|i: int|
        0 <= i < list.len() && (#[trigger] list[i]).row.memory_id@ == id && strength(
            list[i].relationship,
        ) >= strong
}

/// Whether a list has only resemblances that are scored as their kind asks, and none that
/// is left out.
spec fn is_sane(list: Seq<Accumulated>, excluded: Seq<Seq<char>>) -> bool {
    forall|i: int|
        0 <= i < list.len() ==> is_scored((#[trigger] list[i]).relationship, list[i].score)
            && !excluded.contains(list[i].row.memory_id@)
}

proof fn lemma_find_memory(list: Seq<Accumulated>, id: Seq<char>)
    ensures
        match find_memory(list, id) {
            Some(i) => 0 <= i < list.len() && list[i].row.memory_id@ == id,
            None => true,
        },
    decreases list.len(),
{
    if list.len() > 0 {
        lemma_find_memory(list.drop_last(), id);
    }
}

proof fn lemma_with_match(
    list: Seq<Accumulated>,
    excluded: Seq<Seq<char>>,
    row: RememberCandidateRow,
    relationship: Seq<char>,
    score: Ratio,
    label: Seq<char>,
)
    requires
        is_sane(list, excluded),
        is_scored(relationship, score),
    ensures
        is_sane(with_match(list, excluded, row, relationship, score, label), excluded),
        forall|id: Seq<char>, strong: int| #[trigger]
            has_at_least(list, id, strong) ==> has_at_least(
                with_match(list, excluded, row, relationship, score, label),
                id,
                strong,
            ),
        !excluded.contains(row.memory_id@) ==> has_at_least(
            with_match(list, excluded, row, relationship, score, label),
            row.memory_id@,
            strength(relationship),
        ),
{
    lemma_strengths();
    let after = with_match(list, excluded, row, relationship, score, label);
    lemma_find_memory(list, row.memory_id@);
    if !excluded.contains(row.memory_id@) {
        match find_memory(list, row.memory_id@) {
            Some(i) => {
                assert(after[i].row.memory_id@ == row.memory_id@);
                assert(strength(after[i].relationship) >= strength(relationship));
                assert(strength(after[i].relationship) >= strength(list[i].relationship));
            },
            None => {
                assert(after[list.len() as int].row == row);
            },
        }
    }
    assert forall|id: Seq<char>, strong: int| #[trigger]
        has_at_least(list, id, strong) implies has_at_least(after, id, strong) by {
        let i = choose|i: int|
            0 <= i < list.len() && (#[trigger] list[i]).row.memory_id@ == id && strength(
                list[i].relationship,
            ) >= strong;
        assert(after[i].row.memory_id@ == id);
        assert(strength(after[i].relationship) >= strong);
    }
}

proof fn lemma_strengths()
    ensures
        strength("duplicate"@) == 2,
        strength("update_candidate"@) == 1,
        strength("related_candidate"@) == 0,
        forall|relationship: Seq<char>| #[trigger]
            strength(relationship) == 2 - crate::similar::priority(relationship),
{
    reveal_strlit("duplicate");
    reveal_strlit("update_candidate");
    reveal_strlit("related_candidate");
    assert("duplicate"@.len() == 9 && "update_candidate"@.len() == 16
        && "related_candidate"@.len() == 17);
}

proof fn lemma_with_rows(
    list: Seq<Accumulated>,
    excluded: Seq<Seq<char>>,
    rows: Seq<RememberCandidateRow>,
    relationship: Seq<char>,
    score: Ratio,
    label: Seq<char>,
)
    requires
        is_sane(list, excluded),
        is_scored(relationship, score),
    ensures
        is_sane(with_rows(list, excluded, rows, relationship, score, label), excluded),
        forall|id: Seq<char>, strong: int| #[trigger]
            has_at_least(list, id, strong) ==> has_at_least(
                with_rows(list, excluded, rows, relationship, score, label),
                id,
                strong,
            ),
        forall|k: int|
            0 <= k < rows.len() && !excluded.contains((#[trigger] rows[k]).memory_id@)
                ==> has_at_least(
                with_rows(list, excluded, rows, relationship, score, label),
                rows[k].memory_id@,
                strength(relationship),
            ),
    decreases rows.len(),
{
    if rows.len() > 0 {
        let rest = rows.drop_last();
        lemma_with_rows(list, excluded, rest, relationship, score, label);
        let before = with_rows(list, excluded, rest, relationship, score, label);
        lemma_with_match(before, excluded, rows.last(), relationship, score, label);
        let after = with_rows(list, excluded, rows, relationship, score, label);
        assert forall|k: int|
            0 <= k < rows.len() && !excluded.contains(
                (#[trigger] rows[k]).memory_id@,
            ) implies has_at_least(after, rows[k].memory_id@, strength(relationship)) by {
            if k < rest.len() {
                assert(rest[k] == rows[k]);
                assert(has_at_least(before, rest[k].memory_id@, strength(relationship)));
            }
        }
    }
}

proof fn lemma_with_lexical(
    list: Seq<Accumulated>,
    excluded: Seq<Seq<char>>,
    rows: Seq<RememberCandidateRow>,
    terms: Seq<Seq<char>>,
)
    requires
        is_sane(list, excluded),
    ensures
        is_sane(with_lexical_rows(list, excluded, rows, terms), excluded),
        forall|id: Seq<char>, strong: int| #[trigger]
            has_at_least(list, id, strong) ==> has_at_least(
                with_lexical_rows(list, excluded, rows, terms),
                id,
                strong,
            ),
    decreases rows.len(),
{
    if rows.len() > 0 {
        let rest = rows.drop_last();
        lemma_with_lexical(list, excluded, rest, terms);
        let before = with_lexical_rows(list, excluded, rest, terms);
        let likeness = crate::similar::similarity(terms, comparison_terms(rows.last().content@));
        if crate::similar::alike(likeness) {
            let score = crate::similar::capped(likeness);
            lemma_with_match(
                before,
                excluded,
                rows.last(),
                "related_candidate"@,
                score,
                "lexical_similarity"@,
            );
        }
    }
}

proof fn lemma_accumulated(
    rows: RelatedRows,
    excluded: Seq<Seq<char>>,
    has_claim: bool,
    has_entity: bool,
    terms: Seq<Seq<char>>,
)
    ensures
        ({
            let list = accumulated(rows, excluded, has_claim, has_entity, terms);
            &&& is_sane(list, excluded)
            &&& forall|k: int|
                0 <= k < rows.exact@.len() && !excluded.contains(
                    (#[trigger] rows.exact@[k]).memory_id@,
                ) ==> has_at_least(list, rows.exact@[k].memory_id@, 2)
            &&& has_claim ==> forall|k: int|
                0 <= k < rows.claim@.len() && !excluded.contains(
                    (#[trigger] rows.claim@[k]).memory_id@,
                ) ==> has_at_least(list, rows.claim@[k].memory_id@, 1)
            &&& has_entity ==> forall|k: int|
                0 <= k < rows.entity@.len() && !excluded.contains(
                    (#[trigger] rows.entity@[k]).memory_id@,
                ) ==> has_at_least(list, rows.entity@[k].memory_id@, 1)
        }),
{
    lemma_strengths();
    let none = Seq::<Accumulated>::empty();
    let one = Ratio { part: 1, whole: 1 };
    let same_claim = Ratio { part: 95, whole: 100 };
    let same_entity = Ratio { part: 75, whole: 100 };
    let exact = with_rows(none, excluded, rows.exact@, "duplicate"@, one, "content_sha256"@);
    lemma_with_rows(none, excluded, rows.exact@, "duplicate"@, one, "content_sha256"@);
    let claimed = if has_claim {
        with_rows(
            exact,
            excluded,
            rows.claim@,
            "update_candidate"@,
            same_claim,
            "claim_key"@,
        )
    } else {
        exact
    };
    if has_claim {
        lemma_with_rows(
            exact,
            excluded,
            rows.claim@,
            "update_candidate"@,
            same_claim,
            "claim_key"@,
        );
    }
    let named = if has_entity {
        with_rows(
            claimed,
            excluded,
            rows.entity@,
            "update_candidate"@,
            same_entity,
            "entity_key_kind"@,
        )
    } else {
        claimed
    };
    if has_entity {
        lemma_with_rows(
            claimed,
            excluded,
            rows.entity@,
            "update_candidate"@,
            same_entity,
            "entity_key_kind"@,
        );
    }
    lemma_with_lexical(named, excluded, rows.lexical@, terms);
    let list = accumulated(rows, excluded, has_claim, has_entity, terms);
    assert forall|k: int| 0 <= k < rows.exact@.len() && !excluded.contains(
        (#[trigger] rows.exact@[k]).memory_id@,
    ) implies has_at_least(list, rows.exact@[k].memory_id@, 2) by {
        assert(has_at_least(exact, rows.exact@[k].memory_id@, 2));
        assert(has_at_least(claimed, rows.exact@[k].memory_id@, 2));
        assert(has_at_least(named, rows.exact@[k].memory_id@, 2));
    }
    if has_claim {
        assert forall|k: int| 0 <= k < rows.claim@.len() && !excluded.contains(
            (#[trigger] rows.claim@[k]).memory_id@,
        ) implies has_at_least(list, rows.claim@[k].memory_id@, 1) by {
            assert(has_at_least(claimed, rows.claim@[k].memory_id@, 1));
            assert(has_at_least(named, rows.claim@[k].memory_id@, 1));
        }
    }
    if has_entity {
        assert forall|k: int| 0 <= k < rows.entity@.len() && !excluded.contains(
            (#[trigger] rows.entity@[k]).memory_id@,
        ) implies has_at_least(list, rows.entity@[k].memory_id@, 1) by {
            assert(has_at_least(named, rows.entity@[k].memory_id@, 1));
        }
    }
}

/// Whether what was found reports a memory, as strongly resembling as that or more.
pub open spec fn reports_at_least(
    found: Seq<RememberCandidate>,
    id: Seq<char>,
    strong: int,
) -> bool {
    exists|i: int|
        0 <= i < found.len() && (#[trigger] found[i]).memory_id@ == id && strength(
            found[i].relationship@,
        ) >= strong
}

/// The place of a score between nothing and one, in steps that are small enough.
pub open spec fn place(score: Ratio) -> int {
    if score.whole == 0 {
        0
    } else {
        (score.part * 0x100_0000_0000) / (score.whole as int)
    }
}

/// At most five memories that resemble a new one are told, the strongest first and of
/// equally strong ones that of the greater score; none that is to be left out, and each
/// is scored as its kind asks. Unless there were more, every memory with the same content
/// is told as a duplicate, and every one with the same claim, or the same entity and kind,
/// as an update at least.
pub proof fn law_resembling_memories_are_told(
    rows: RelatedRows,
    excluded: Vec<String>,
    has_claim: bool,
    has_entity: bool,
    content: &str,
    found: (Vec<RememberCandidate>, bool),
)
    requires
        call_ensures(
            detect_remember_candidates,
            (&rows, &excluded, has_claim, has_entity, content),
            found,
        ),
    ensures
        found.0@.len() <= 5,
        found.1 ==> found.0@.len() == 5,
        forall|i: int, j: int|
            0 <= i < j < found.0@.len() ==> {
                let a = (#[trigger] found.0@[i]);
                let b = (#[trigger] found.0@[j]);
                strength(a.relationship@) > strength(b.relationship@) || (strength(a.relationship@)
                    == strength(b.relationship@) && place(a.score) >= place(b.score))
            },
        forall|i: int|
            0 <= i < found.0@.len() ==> is_scored(
                (#[trigger] found.0@[i]).relationship@,
                found.0@[i].score,
            ) && !views(excluded@).contains(found.0@[i].memory_id@),
        !found.1 ==> forall|k: int|
            0 <= k < rows.exact@.len() && !views(excluded@).contains(
                (#[trigger] rows.exact@[k]).memory_id@,
            ) ==> reports_at_least(found.0@, rows.exact@[k].memory_id@, 2),
        !found.1 && has_claim ==> forall|k: int|
            0 <= k < rows.claim@.len() && !views(excluded@).contains(
                (#[trigger] rows.claim@[k]).memory_id@,
            ) ==> reports_at_least(found.0@, rows.claim@[k].memory_id@, 1),
        !found.1 && has_entity ==> forall|k: int|
            0 <= k < rows.entity@.len() && !views(excluded@).contains(
                (#[trigger] rows.entity@[k]).memory_id@,
            ) ==> reports_at_least(found.0@, rows.entity@[k].memory_id@, 1),
{
    let out = views(excluded@);
    let list = accumulated(rows, out, has_claim, has_entity, comparison_terms(content@));
    lemma_accumulated(rows, out, has_claim, has_entity, comparison_terms(content@));
    lemma_strengths();
    let keys = list.map_values(|k: Accumulated| related_key(k));
    let order = sorting(keys);
    lemma_sorting_names_each(keys);
    let all = ranked_related(list);
    let models = related_models(found.0@);
    assert(all.len() == list.len());
    assert(models.len() == found.0@.len());
    assert forall|i: int| 0 <= i < found.0@.len() implies (#[trigger] found.0@[i])@ == reported(
        list[order[i]],
    ) && 0 <= order[i] < list.len() by {
        assert(models[i] == found.0@[i]@);
        assert(models[i] == all[i]);
    }
    assert forall|i: int, j: int| 0 <= i < j < found.0@.len() implies {
        let a = (#[trigger] found.0@[i]);
        let b = (#[trigger] found.0@[j]);
        strength(a.relationship@) > strength(b.relationship@) || (strength(a.relationship@)
            == strength(b.relationship@) && place(a.score) >= place(b.score))
    } by {
        let a = order[i];
        let b = order[j];
        assert(found.0@[i]@ == reported(list[a]) && found.0@[j]@ == reported(list[b]));
        lemma_key_order(keys, a, b);
        lemma_place(list[a].score);
        lemma_place(list[b].score);
        assert(keys[a].numbers[0] == crate::similar::priority(list[a].relationship));
        assert(keys[b].numbers[0] == crate::similar::priority(list[b].relationship));
        assert(keys[a].numbers[1] == -place(list[a].score));
        assert(keys[b].numbers[1] == -place(list[b].score));
    }
    assert forall|i: int| 0 <= i < found.0@.len() implies is_scored(
        (#[trigger] found.0@[i]).relationship@,
        found.0@[i].score,
    ) && !out.contains(found.0@[i].memory_id@) by {
        assert(found.0@[i]@ == reported(list[order[i]]));
    }
    if !found.1 {
        assert forall|id: Seq<char>, strong: int| #[trigger]
            has_at_least(list, id, strong) implies reports_at_least(found.0@, id, strong) by {
            let k = choose|k: int|
                0 <= k < list.len() && (#[trigger] list[k]).row.memory_id@ == id && strength(
                    list[k].relationship,
                ) >= strong;
            assert(order.contains(k));
            let i = choose|i: int| 0 <= i < order.len() && order[i] == k;
            assert(found.0@[i]@ == reported(list[k]));
            assert(found.0@[i].memory_id@ == id);
        }
    }
}

proof fn lemma_place(score: Ratio)
    ensures
        place(score) == crate::similar::ratio_place(score),
        0 <= place(score) <= usize::MAX * 0x100_0000_0000,
{
    if score.whole > 0 {
        let part = score.part as int;
        let whole = score.whole as int;
        assert(0 <= (part * 0x100_0000_0000) / whole <= part * 0x100_0000_0000)
            by (nonlinear_arith)
            requires
                part >= 0,
                whole >= 1,
        ;
    }
}

proof fn lemma_overlap_none(a: Seq<Seq<char>>, b: Seq<Seq<char>>)
    requires
        forall|i: int| 0 <= i < a.len() ==> !b.contains(#[trigger] a[i]),
    ensures
        overlap(a, b) == 0,
    decreases a.len(),
{
    if a.len() > 0 {
        let rest = a.drop_last();
        assert forall|i: int| 0 <= i < rest.len() implies !b.contains(#[trigger] rest[i]) by {
            assert(rest[i] == a[i]);
        }
        lemma_overlap_none(rest, b);
        assert(a[a.len() - 1] == a.last());
    }
}

proof fn lemma_overlap_all(a: Seq<Seq<char>>, b: Seq<Seq<char>>)
    requires
        forall|i: int| 0 <= i < a.len() ==> b.contains(#[trigger] a[i]),
    ensures
        overlap(a, b) == a.len(),
    decreases a.len(),
{
    if a.len() > 0 {
        let rest = a.drop_last();
        assert forall|i: int| 0 <= i < rest.len() implies b.contains(#[trigger] rest[i]) by {
            assert(rest[i] == a[i]);
        }
        lemma_overlap_all(rest, b);
        assert(a[a.len() - 1] == a.last());
    }
}

/// The likeness of two lists of words is the share that they have in common of all that
/// either has: all of it where they are the same, and none where they have nothing in
/// common.
pub proof fn law_likeness_is_the_common_share(left: Vec<String>, right: Vec<String>, r: Ratio)
    requires
        left@.len() + right@.len() <= usize::MAX,
        call_ensures(jaccard_similarity, (&left, &right), r),
    ensures
        left@.len() > 0 && right@.len() > 0 ==> r.part + r.whole == left@.len() + right@.len(),
        left@.len() > 0 && views(left@) == views(right@) ==> r.part == r.whole && r.part
            == left@.len(),
        (forall|i: int|
            0 <= i < left@.len() ==> !views(right@).contains((#[trigger] left@[i])@)) ==> r.part
            == 0,
        left@.len() == 0 || right@.len() == 0 ==> r.part == 0,
{
    let a = views(left@);
    let b = views(right@);
    assert(a.len() == left@.len() && b.len() == right@.len());
    lemma_overlap_bound(a, b);
    if a == b {
        assert forall|i: int| 0 <= i < a.len() implies b.contains(#[trigger] a[i]) by {
            assert(b[i] == a[i]);
        }
        lemma_overlap_all(a, b);
    }
    if forall|i: int| 0 <= i < left@.len() ==> !views(right@).contains((#[trigger] left@[i])@) {
        assert forall|i: int| 0 <= i < a.len() implies !b.contains(#[trigger] a[i]) by {
            assert(a[i] == left@[i]@);
        }
        lemma_overlap_none(a, b);
    }
}

proof fn lemma_overlap_bound(a: Seq<Seq<char>>, b: Seq<Seq<char>>)
    ensures
        overlap(a, b) <= a.len(),
    decreases a.len(),
{
    if a.len() > 0 {
        lemma_overlap_bound(a.drop_last(), b);
    }
}

} // verus!
