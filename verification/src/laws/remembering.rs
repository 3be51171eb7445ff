//! What remembering a memory promises.

use vstd::prelude::*;

use crate::error::Error;
use crate::json::text_of_string;
use crate::order::{lemma_push_contains, text_less};
use crate::remember::RememberRequest;
use crate::supersession::{states, superseded_all, StateModel};
use crate::text::views;
use crate::writing::{
    contradicting_links, is_auto_supersede_kind, links, older_unpinned_ids, remember_memory,
    replacing_links, same_claim, unpinned_ids, MemoryLink, RememberFacts, RememberPlan,
    SameClaimCandidate,
};

verus! {

proof fn lemma_modes_differ()
    ensures
        "auto"@ != "append"@,
        "auto"@ != "supersede"@,
        "auto"@ != "suggest"@,
        "auto"@ != "conflict"@,
        "append"@ != "supersede"@,
        "append"@ != "suggest"@,
        "append"@ != "conflict"@,
        "supersede"@ != "suggest"@,
        "supersede"@ != "conflict"@,
        "suggest"@ != "conflict"@,
{
    reveal_strlit("auto");
    reveal_strlit("append");
    reveal_strlit("supersede");
    reveal_strlit("suggest");
    reveal_strlit("conflict");
    assert("auto"@.len() == 4 && "append"@.len() == 6 && "supersede"@.len() == 9 && "suggest"@.len()
        == 7 && "conflict"@.len() == 8);
}

proof fn lemma_kinds_differ()
    ensures
        "continuity"@ != "fact"@,
        "continuity"@ != "preference"@,
        "continuity"@ != "decision"@,
        "continuity"@ != "lesson"@,
{
    reveal_strlit("continuity");
    reveal_strlit("fact");
    reveal_strlit("preference");
    reveal_strlit("decision");
    reveal_strlit("lesson");
    assert("continuity"@[0] == 'c' && "preference"@[0] == 'p');
    assert("continuity"@.len() == 10 && "fact"@.len() == 4 && "decision"@.len() == 8
        && "lesson"@.len() == 6);
}

/// Whether a memory of the same claim gives way to a new one by itself: it is not
/// pinned and was observed strictly earlier.
pub open spec fn gives_way(old: SameClaimCandidate, observed_at: Seq<char>) -> bool {
    !old.pinned && text_less(old.observed_at@, observed_at)
}

/// Whether some memory of a list meets a condition and has the id.
pub open spec fn some_older(
    list: Seq<SameClaimCandidate>,
    observed_at: Seq<char>,
    id: Seq<char>,
) -> bool {
    exists|i: int|
        0 <= i < list.len() && (#[trigger] list[i]).memory_id@ == id && gives_way(
            list[i],
            observed_at,
        )
}

/// Whether some memory of a list is not pinned and has the id.
pub open spec fn some_unpinned(list: Seq<SameClaimCandidate>, id: Seq<char>) -> bool {
    exists|i: int|
        0 <= i < list.len() && (#[trigger] list[i]).memory_id@ == id && !list[i].pinned
}

proof fn lemma_older(list: Seq<SameClaimCandidate>, observed_at: Seq<char>, id: Seq<char>)
    ensures
        older_unpinned_ids(list, observed_at).contains(id) <==> some_older(list, observed_at, id),
    decreases list.len(),
{
    if list.len() > 0 {
        let rest = list.drop_last();
        lemma_older(rest, observed_at, id);
        lemma_push_contains(older_unpinned_ids(rest, observed_at), list.last().memory_id@, id);
        assert(list[list.len() - 1] == list.last());
        if some_older(rest, observed_at, id) {
            let i = choose|i: int|
                0 <= i < rest.len() && (#[trigger] rest[i]).memory_id@ == id && gives_way(
                    rest[i],
                    observed_at,
                );
            assert(list[i] == rest[i]);
        }
        if some_older(list, observed_at, id) {
            let i = choose|i: int|
                0 <= i < list.len() && (#[trigger] list[i]).memory_id@ == id && gives_way(
                    list[i],
                    observed_at,
                );
            if i < rest.len() {
                assert(rest[i] == list[i]);
            }
        }
    }
}

proof fn lemma_unpinned(list: Seq<SameClaimCandidate>, id: Seq<char>)
    ensures
        unpinned_ids(list).contains(id) <==> some_unpinned(list, id),
    decreases list.len(),
{
    if list.len() > 0 {
        let rest = list.drop_last();
        lemma_unpinned(rest, id);
        lemma_push_contains(unpinned_ids(rest), list.last().memory_id@, id);
        assert(list[list.len() - 1] == list.last());
        if some_unpinned(rest, id) {
            let i = choose|i: int|
                0 <= i < rest.len() && (#[trigger] rest[i]).memory_id@ == id && !rest[i].pinned;
            assert(list[i] == rest[i]);
        }
        if some_unpinned(list, id) {
            let i = choose|i: int|
                0 <= i < list.len() && (#[trigger] list[i]).memory_id@ == id && !list[i].pinned;
            if i < rest.len() {
                assert(rest[i] == list[i]);
            }
        }
    }
}

/// Whether a write leaves it to the store which memories of its claim it concerns: it
/// has a claim, and names no memories itself.
pub open spec fn leaves_it_open(request: RememberRequest) -> bool {
    request.supersedes@.len() == 0 && request.contradicts@.len() == 0 && request.entity_key is Some
        && request.claim_key is Some
}

/// A fact, a preference, a decision or a lesson replaces by itself every memory of
/// its claim that is not pinned and was observed strictly earlier, and no other; a
/// memory of another kind replaces none by itself, nor does one that names the
/// memories it concerns or has no claim.
pub proof fn law_automatic_replacement_is_complete(
    request: RememberRequest,
    facts: RememberFacts,
    plan: RememberPlan,
    id: Seq<char>,
)
    requires
        call_ensures(remember_memory, (&request, &facts), Ok::<RememberPlan, Error>(plan)),
        request.mode@ == "auto"@,
    ensures
        leaves_it_open(request) && (plan.kind@ == "fact"@ || plan.kind@ == "preference"@
            || plan.kind@ == "decision"@ || plan.kind@ == "lesson"@) ==> (
        views(plan.superseded@).contains(id) <==> some_older(
            facts.same_claim@,
            plan.observed_at@,
            id,
        )),
        leaves_it_open(request) && (plan.kind@ == "fact"@ || plan.kind@ == "preference"@
            || plan.kind@ == "decision"@ || plan.kind@ == "lesson"@) ==> (
        views(plan.auto_superseded@).contains(id) <==> some_older(
            facts.same_claim@,
            plan.observed_at@,
            id,
        )),
        plan.kind@ != "fact"@ && plan.kind@ != "preference"@ && plan.kind@ != "decision"@
            && plan.kind@ != "lesson"@ ==> plan.auto_superseded@.len() == 0,
        !leaves_it_open(request) ==> plan.auto_superseded@.len() == 0,
        plan.open_conflicts@.len() == 0,
        plan.supersede_suggestions@.len() == 0,
{
    lemma_modes_differ();
    lemma_kinds_differ();
    let same = same_claim(request, facts.same_claim@);
    lemma_older(same, plan.observed_at@, id);
    assert(views(plan.auto_superseded@).len() == plan.auto_superseded@.len());
    assert(views(plan.open_conflicts@).len() == plan.open_conflicts@.len());
    assert(views(plan.supersede_suggestions@).len() == plan.supersede_suggestions@.len());
    if leaves_it_open(request) {
        assert(same == facts.same_claim@);
        assert(views(request.supersedes@) =~= Seq::empty());
        assert(views(request.supersedes@) + views(plan.auto_superseded@) =~= views(
            plan.auto_superseded@,
        ));
    }
}

/// What a write does with the other memories of its claim, by its mode: a superseding
/// one replaces all that are not pinned, a suggesting one names the same and replaces
/// none, a conflicting one opens a conflict with every one of them and replaces none,
/// and an appending one does nothing to them.
pub proof fn law_mode_decides_about_the_claim(
    request: RememberRequest,
    facts: RememberFacts,
    plan: RememberPlan,
    id: Seq<char>,
)
    requires
        call_ensures(remember_memory, (&request, &facts), Ok::<RememberPlan, Error>(plan)),
        leaves_it_open(request),
    ensures
        request.mode@ == "supersede"@ ==> (views(plan.superseded@).contains(id) <==> some_unpinned(
            facts.same_claim@,
            id,
        )) && plan.supersede_suggestions@.len() == 0 && plan.open_conflicts@.len() == 0,
        request.mode@ == "suggest"@ ==> (views(plan.supersede_suggestions@).contains(id)
            <==> some_unpinned(facts.same_claim@, id)) && plan.superseded@.len() == 0
            && plan.open_conflicts@.len() == 0,
        request.mode@ == "conflict"@ ==> plan.superseded@.len() == 0
            && plan.supersede_suggestions@.len() == 0 && plan.open_conflicts@.len()
            == facts.same_claim@.len() && forall|i: int|
            0 <= i < plan.open_conflicts@.len() ==> (#[trigger] plan.open_conflicts@[i])@
                == facts.same_claim@[i].memory_id@,
        request.mode@ == "append"@ ==> plan.superseded@.len() == 0
            && plan.supersede_suggestions@.len() == 0 && plan.open_conflicts@.len() == 0,
{
    lemma_modes_differ();
    let same = facts.same_claim@;
    lemma_unpinned(same, id);
    assert(same_claim(request, same) == same);
    let none = views(request.supersedes@);
    assert(none =~= Seq::empty());
    let automatic = crate::writing::write_resolution(request, facts).0;
    assert(none + automatic =~= automatic);
    assert(views(plan.superseded@).len() == plan.superseded@.len());
    assert(views(plan.open_conflicts@).len() == plan.open_conflicts@.len());
    assert(views(plan.supersede_suggestions@).len() == plan.supersede_suggestions@.len());
    if request.mode@ == "conflict"@ {
        assert forall|i: int| 0 <= i < plan.open_conflicts@.len() implies (
        #[trigger] plan.open_conflicts@[i])@ == same[i].memory_id@ by {
            assert(views(plan.open_conflicts@)[i] == plan.open_conflicts@[i]@);
        }
    }
}

proof fn lemma_replacing_links(id: Seq<char>, replaced: Seq<Seq<char>>)
    ensures
        replacing_links(id, replaced).len() == 2 * replaced.len(),
        forall|i: int|
            0 <= i < replaced.len() ==> replacing_links(id, replaced)[2 * i] == (
                id,
                #[trigger] replaced[i],
                "supersedes"@,
            ) && replacing_links(id, replaced)[2 * i + 1] == (replaced[i], id, "superseded_by"@),
    decreases replaced.len(),
{
    if replaced.len() > 0 {
        let rest = replaced.drop_last();
        lemma_replacing_links(id, rest);
        assert forall|i: int| 0 <= i < replaced.len() implies replacing_links(id, replaced)[2 * i]
            == (id, #[trigger] replaced[i], "supersedes"@) && replacing_links(id, replaced)[2 * i
            + 1] == (replaced[i], id, "superseded_by"@) by {
            if i < rest.len() {
                assert(rest[i] == replaced[i]);
            }
        }
    }
}

proof fn lemma_contradicting_links(id: Seq<char>, named: Seq<Seq<char>>)
    ensures
        contradicting_links(id, named).len() == 2 * named.len(),
        forall|i: int|
            0 <= i < named.len() ==> contradicting_links(id, named)[2 * i] == (
                id,
                #[trigger] named[i],
                "contradicts"@,
            ) && contradicting_links(id, named)[2 * i + 1] == (named[i], id, "contradicts"@),
    decreases named.len(),
{
    if named.len() > 0 {
        let rest = named.drop_last();
        lemma_contradicting_links(id, rest);
        assert forall|i: int| 0 <= i < named.len() implies contradicting_links(id, named)[2 * i]
            == (id, #[trigger] named[i], "contradicts"@) && contradicting_links(id, named)[2 * i
            + 1] == (named[i], id, "contradicts"@) by {
            if i < rest.len() {
                assert(rest[i] == named[i]);
            }
        }
    }
}

/// Whether a link leads from one memory to another and says so much.
pub open spec fn is_link(link: MemoryLink, from: Seq<char>, to: Seq<char>, says: Seq<char>) -> bool {
    link.src_memory_id@ == from && link.dst_memory_id@ == to && link.link_type@ == says
}

/// A write replaces every memory that it names to be replaced, and is linked both
/// ways with each memory that it replaces or contradicts, and with no other.
pub proof fn law_links_go_both_ways(
    request: RememberRequest,
    facts: RememberFacts,
    plan: RememberPlan,
)
    requires
        call_ensures(remember_memory, (&request, &facts), Ok::<RememberPlan, Error>(plan)),
    ensures
        plan.superseded@.len() >= request.supersedes@.len(),
        forall|i: int|
            0 <= i < request.supersedes@.len() ==> (#[trigger] plan.superseded@[i])@
                == request.supersedes@[i]@,
        plan.links@.len() == 2 * plan.superseded@.len() + 2 * request.contradicts@.len(),
        forall|i: int|
            0 <= i < plan.superseded@.len() ==> is_link(
                plan.links@[2 * i],
                facts.memory_id@,
                (#[trigger] plan.superseded@[i])@,
                "supersedes"@,
            ) && is_link(
                plan.links@[2 * i + 1],
                plan.superseded@[i]@,
                facts.memory_id@,
                "superseded_by"@,
            ),
        forall|i: int|
            0 <= i < request.contradicts@.len() ==> is_link(
                plan.links@[2 * plan.superseded@.len() + 2 * i],
                facts.memory_id@,
                (#[trigger] request.contradicts@[i])@,
                "contradicts"@,
            ) && is_link(
                plan.links@[2 * plan.superseded@.len() + 2 * i + 1],
                request.contradicts@[i]@,
                facts.memory_id@,
                "contradicts"@,
            ),
{
    let id = facts.memory_id@;
    let replaced = views(plan.superseded@);
    let named = views(request.contradicts@);
    lemma_replacing_links(id, replaced);
    lemma_contradicting_links(id, named);
    let all = links(plan.links@);
    assert(all.len() == plan.links@.len());
    assert(replaced.len() == plan.superseded@.len());
    assert(named.len() == request.contradicts@.len());
    let first = views(request.supersedes@);
    assert forall|i: int| 0 <= i < request.supersedes@.len() implies (
    #[trigger] plan.superseded@[i])@ == request.supersedes@[i]@ by {
        assert(replaced[i] == plan.superseded@[i]@);
        assert(first[i] == request.supersedes@[i]@);
    }
    assert forall|i: int| 0 <= i < plan.superseded@.len() implies is_link(
        plan.links@[2 * i],
        facts.memory_id@,
        (#[trigger] plan.superseded@[i])@,
        "supersedes"@,
    ) && is_link(
        plan.links@[2 * i + 1],
        plan.superseded@[i]@,
        facts.memory_id@,
        "superseded_by"@,
    ) by {
        assert(replaced[i] == plan.superseded@[i]@);
        assert(all[2 * i] == replacing_links(id, replaced)[2 * i]);
        assert(all[2 * i + 1] == replacing_links(id, replaced)[2 * i + 1]);
    }
    assert forall|i: int| 0 <= i < request.contradicts@.len() implies is_link(
        plan.links@[2 * plan.superseded@.len() + 2 * i],
        facts.memory_id@,
        (#[trigger] request.contradicts@[i])@,
        "contradicts"@,
    ) && is_link(
        plan.links@[2 * plan.superseded@.len() + 2 * i + 1],
        request.contradicts@[i]@,
        facts.memory_id@,
        "contradicts"@,
    ) by {
        let n = 2 * replaced.len();
        assert(named[i] == request.contradicts@[i]@);
        assert(all[n + 2 * i] == contradicting_links(id, named)[2 * i]);
        assert(all[n + 2 * i + 1] == contradicting_links(id, named)[2 * i + 1]);
    }
}

/// The state of a memory of a space.
pub open spec fn holds_active_unpinned(
    table: Seq<StateModel>,
    space: Seq<char>,
    id: Seq<char>,
) -> bool {
    exists|i: int|
        0 <= i < table.len() && (#[trigger] table[i]).id == id && table[i].space == space
            && table[i].status == "active"@ && !table[i].pinned
}

proof fn lemma_replaced_were_active(
    table: Seq<StateModel>,
    space: Seq<char>,
    ids: Seq<Seq<char>>,
    k: int,
)
    requires
        superseded_all(table, space, ids) is Ok,
        0 <= k < ids.len(),
    ensures
        holds_active_unpinned(table, space, ids[k]),
        superseded_all(table, space, ids)->Ok_0.len() == table.len(),
        forall|i: int|
            0 <= i < table.len() ==> {
                let after = #[trigger] superseded_all(table, space, ids)->Ok_0[i];
                after.id == table[i].id && after.space == table[i].space && after.pinned
                    == table[i].pinned && (after.status == table[i].status || after.status
                    == "superseded"@)
            },
    decreases ids.len(),
{
    let rest = ids.drop_last();
    let before = superseded_all(table, space, rest)->Ok_0;
    if rest.len() > 0 {
        lemma_replaced_were_active(table, space, rest, 0);
    }
    crate::supersession::lemma_find_state(before, ids.last(), space);
    reveal_strlit("active");
    reveal_strlit("superseded");
    assert("active"@.len() != "superseded"@.len());
    if k < rest.len() {
        lemma_replaced_were_active(table, space, rest, k);
        assert(rest[k] == ids[k]);
    } else {
        let i = crate::supersession::find_state(before, ids.last(), space)->0;
        if rest.len() > 0 {
            assert(superseded_all(table, space, rest)->Ok_0[i] == before[i]);
        } else {
            assert(before == table);
        }
        assert(table[i].id == ids[k]);
        assert(holds_active_unpinned(table, space, ids[k]));
    }
    assert forall|i: int| 0 <= i < table.len() implies {
        let after = #[trigger] superseded_all(table, space, ids)->Ok_0[i];
        after.id == table[i].id && after.space == table[i].space && after.pinned
            == table[i].pinned && (after.status == table[i].status || after.status
            == "superseded"@)
    } by {
        if rest.len() > 0 {
            assert(superseded_all(table, space, rest)->Ok_0[i] == before[i]);
        } else {
            assert(before == table);
        }
    }
}

/// A write replaces only memories that are active memories of its space and not
/// pinned; a write that would replace another one is refused.
pub proof fn law_only_active_memories_are_replaced(
    request: RememberRequest,
    facts: RememberFacts,
    plan: RememberPlan,
    k: int,
)
    requires
        call_ensures(remember_memory, (&request, &facts), Ok::<RememberPlan, Error>(plan)),
        0 <= k < plan.superseded@.len(),
    ensures
        exists|i: int|
            0 <= i < facts.states@.len() && (#[trigger] facts.states@[i]).id@
                == plan.superseded@[k]@ && facts.states@[i].space@ == plan.space@
                && facts.states@[i].status@ == "active"@ && !facts.states@[i].pinned,
{
    let table = states(facts.states@);
    let ids = views(plan.superseded@);
    assert(ids[k] == plan.superseded@[k]@);
    lemma_replaced_were_active(table, plan.space@, ids, k);
    let i = choose|i: int|
        0 <= i < table.len() && (#[trigger] table[i]).id == ids[k] && table[i].space == plan.space@
            && table[i].status == "active"@ && !table[i].pinned;
    assert(facts.states@[i].id@ == plan.superseded@[k]@);
}

/// A write goes where the request says, and to the usual places where it does not: the
/// space of the workspace, the default silo of the space or the durable one, the kind
/// that its start suggests or a fact, the scope of the workspace, and the time of the
/// write. A trial says that it is one.
pub proof fn law_write_goes_where_it_is_asked_to(
    request: RememberRequest,
    facts: RememberFacts,
    plan: RememberPlan,
)
    requires
        call_ensures(remember_memory, (&request, &facts), Ok::<RememberPlan, Error>(plan)),
    ensures
        plan.space@ == match request.space {
            Some(space) => space@,
            None => "workspace-memory"@,
        },
        plan.silo@ == match (request.silo, facts.default_silo) {
            (Some(silo), _) => silo@,
            (None, Some(silo)) => silo@,
            (None, None) => "durable"@,
        },
        plan.kind@ == match (request.kind, facts.inferred_kind) {
            (Some(kind), _) => kind@,
            (None, Some(kind)) => kind@,
            (None, None) => "fact"@,
        },
        plan.scope@ == match request.scope {
            Some(scope) => scope@,
            None => "workspace"@,
        },
        request.observed_at is None ==> plan.observed_at@ == facts.now@,
        plan.processing_status@ == if request.dry_run {
            "dry_run"@
        } else {
            "indexed"@
        },
        facts.silo_exists,
        request.source_episode_id is Some ==> facts.source_episode_exists,
        request.space matches Some(space) ==> space@ != "*"@,
{
}

/// A write that opens a conflict, and a continuity note, tell of the first memories of
/// their claim, five at most, with the start of what each says; another write tells of
/// none.
pub proof fn law_conflicts_are_told(
    request: RememberRequest,
    facts: RememberFacts,
    plan: RememberPlan,
)
    requires
        call_ensures(remember_memory, (&request, &facts), Ok::<RememberPlan, Error>(plan)),
    ensures
        plan.conflict_candidates@.len() <= 5,
        plan.kind@ != "continuity"@ && request.mode@ != "conflict"@ ==> plan.conflict_candidates@
            .len() == 0,
        !leaves_it_open(request) ==> plan.conflict_candidates@.len() == 0,
        leaves_it_open(request) && (plan.kind@ == "continuity"@ || request.mode@ == "conflict"@)
            ==> plan.conflict_candidates@.len() == if facts.same_claim@.len() < 5 {
            facts.same_claim@.len() as int
        } else {
            5
        },
        forall|i: int|
            0 <= i < plan.conflict_candidates@.len() ==> {
                let told = #[trigger] plan.conflict_candidates@[i];
                let row = facts.same_claim@[i];
                &&& told.memory_id@ == row.memory_id@
                &&& told.kind@ == row.kind@
                &&& told.observed_at@ == row.observed_at@
                &&& told.snippet@.len() <= 240
                &&& told.snippet@ == row.content@.take(told.snippet@.len() as int)
                &&& row.content@.len() <= 240 ==> told.snippet@ == row.content@
            },
{
    lemma_modes_differ();
    let same = same_claim(request, facts.same_claim@);
    let told = crate::writing::conflicts(plan.conflict_candidates@);
    assert(told.len() == plan.conflict_candidates@.len());
    let open = crate::writing::write_resolution(request, facts).2;
    if !leaves_it_open(request) {
        assert(same =~= Seq::empty());
    }
    assert forall|i: int| 0 <= i < plan.conflict_candidates@.len() implies {
        let told = #[trigger] plan.conflict_candidates@[i];
        let row = facts.same_claim@[i];
        &&& told.memory_id@ == row.memory_id@
        &&& told.kind@ == row.kind@
        &&& told.observed_at@ == row.observed_at@
        &&& told.snippet@.len() <= 240
        &&& told.snippet@ == row.content@.take(told.snippet@.len() as int)
        &&& row.content@.len() <= 240 ==> told.snippet@ == row.content@
    } by {
        assert(told[i] == plan.conflict_candidates@[i]@);
        assert(told[i] == crate::writing::as_conflict(same[i]));
        let window = crate::text::char_window(same[i].content@, 0, 240);
        assert(window =~= same[i].content@.take(window.len() as int));
        if same[i].content@.len() <= 240 {
            assert(window =~= same[i].content@);
        }
    }
}

/// Only the kinds of memories that state how things are replace older ones by
/// themselves.
pub proof fn law_replacing_kinds(kind: &str, r: bool)
    requires
        call_ensures(is_auto_supersede_kind, (kind,), r),
    ensures
        r <==> (kind@ == "fact"@ || kind@ == "preference"@ || kind@ == "decision"@ || kind@
            == "lesson"@),
{
}

/// A memory is accepted only with content that says something and keeps its limits,
/// under a known mode, kind and scope, with a confidence between none and full.
pub proof fn law_memory_keeps_its_limits(
    request: RememberRequest,
    facts: RememberFacts,
    plan: RememberPlan,
)
    requires
        call_ensures(remember_memory, (&request, &facts), Ok::<RememberPlan, Error>(plan)),
    ensures
        !crate::text::is_blank(request.content@),
        request.content@.len() <= 131072,
        request.summary matches Some(summary) ==> summary@.len() <= 8192,
        request.mode@ == "auto"@ || request.mode@ == "append"@ || request.mode@ == "supersede"@
            || request.mode@ == "suggest"@ || request.mode@ == "conflict"@,
        0 <= request.confidence.key <= 0x3ff0_0000_0000_0000,
        request.supersedes@.len() <= 128,
        request.contradicts@.len() <= 128,
        request.kind matches Some(kind) ==> kind@ == "fact"@ || kind@ == "decision"@ || kind@
            == "preference"@ || kind@ == "lesson"@ || kind@ == "task"@ || kind@ == "action"@
            || kind@ == "continuity"@ || kind@ == "summary"@ || kind@ == "reference"@ || kind@
            == "entity"@,
        request.scope matches Some(scope) ==> scope@ == "global"@ || scope@ == "workspace"@
            || scope@ == "project"@ || scope@ == "session"@ || scope@ == "custom"@,
        plan.content_sha256@ == crate::digest::text_digest(request.content@),
{
    assert(views(request.supersedes@).len() == request.supersedes@.len());
    assert(views(request.contradicts@).len() == request.contradicts@.len());
    assert(text_of_string(request.summary) is Some == request.summary is Some);
}

} // verus!
