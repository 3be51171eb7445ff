//! What writing entities and relationships, and merging entities, promise.

use vstd::prelude::*;

use crate::entities::{
    alias_models, aliases_of, forms, sorted_aliases, upsert_entity, without_form, AliasModel,
    EntityFacts, EntityUpsertPlan, EntityUpsertRequest, PreparedEntityUpsertRequest,
};
use crate::error::Error;
use crate::json::text_of_string;
use crate::laws::ordering::lemma_sorting_names_each;
use crate::merging::{
    candidates, carried_names, edge_writes, fates, in_use, merge_entity, moved, relinked,
    said_elsewhere, same_claim, touches, write_model, write_models, Edge, EdgeModel,
    EntityMergePlan, EntityMergeRequest, Fate, MergeFacts, WriteModel,
};
use crate::order::lemma_push_contains;
use crate::relationships::{
    upsert_relationship, PreparedRelationshipUpsertRequest, RelationshipFacts,
    RelationshipUpsertPlan, RelationshipUpsertRequest,
};
use crate::text::{trimmed, views};
use crate::writing::alias_form;

verus! {

/// Whether some alias of a list is looked up by a form.
pub open spec fn has_form(list: Seq<AliasModel>, form: Seq<char>) -> bool {
    exists|k: int| 0 <= k < list.len() && (#[trigger] list[k]).form == form
}

proof fn lemma_carried(values: Seq<Seq<char>>, i: int)
    requires
        0 <= i < values.len(),
        alias_form(trimmed(values[i])).len() > 0,
        trimmed(values[i]).len() > 0,
    ensures
        has_form(candidates(values), alias_form(trimmed(values[i]))),
    decreases values.len(),
{
    let rest = values.drop_last();
    let before = candidates(rest);
    let after = candidates(values);
    let form = alias_form(trimmed(values[i]));
    if i < rest.len() {
        assert(rest[i] == values[i]);
        lemma_carried(rest, i);
        let k = choose|k: int| 0 <= k < before.len() && (#[trigger] before[k]).form == form;
        assert(after[k] == before[k]);
    } else if forms(before).contains(form) {
        let k = choose|k: int| 0 <= k < forms(before).len() && forms(before)[k] == form;
        assert(after[k].form == form);
    } else {
        assert(after[before.len() as int].form == form);
    }
}

proof fn lemma_carried_from(values: Seq<Seq<char>>, k: int)
    requires
        0 <= k < candidates(values).len(),
    ensures
        exists|i: int|
            0 <= i < values.len() && candidates(values)[k].alias == trimmed(#[trigger] values[i])
                && candidates(values)[k].form == alias_form(trimmed(values[i])),
        candidates(values)[k].form.len() > 0,
    decreases values.len(),
{
    let rest = values.drop_last();
    let before = candidates(rest);
    if k < before.len() {
        lemma_carried_from(rest, k);
        let i = choose|i: int|
            0 <= i < rest.len() && before[k].alias == trimmed(#[trigger] rest[i]) && before[k].form
                == alias_form(trimmed(rest[i]));
        assert(values[i] == rest[i]);
    } else {
        assert(values[values.len() - 1] == values.last());
    }
}

/// A merge loses no name: the key, the name and every alias of the merged entity that
/// says something can still be looked up, as an alias that the other entity gets; and
/// it gets no alias that the merged entity did not have.
pub proof fn law_merge_loses_no_name(
    request: EntityMergeRequest,
    facts: MergeFacts,
    plan: EntityMergePlan,
    name: Seq<char>,
)
    requires
        call_ensures(merge_entity, (&request, &facts), Ok::<EntityMergePlan, Error>(plan)),
    ensures
        facts.from is Some,
        (name == facts.from->0.entity_key@ || name == facts.from->0.canonical_name@ || (exists|
            i: int,
        |
            0 <= i < facts.from->0.aliases@.len() && (#[trigger] facts.from->0.aliases@[i])@
                == name)) && trimmed(name).len() > 0 && alias_form(trimmed(name)).len() > 0
            ==> exists|k: int|
            0 <= k < plan.aliases@.len() && (#[trigger] plan.aliases@[k]).normalized_alias@
                == alias_form(trimmed(name)),
        forall|k: int|
            0 <= k < plan.aliases@.len() ==> (#[trigger] plan.aliases@[k]).normalized_alias@
                == alias_form(plan.aliases@[k].alias@) && (plan.aliases@[k].alias@ == trimmed(
                facts.from->0.entity_key@,
            ) || plan.aliases@[k].alias@ == trimmed(facts.from->0.canonical_name@) || exists|i: int|
                0 <= i < facts.from->0.aliases@.len() && plan.aliases@[k].alias@ == trimmed(
                    (#[trigger] facts.from->0.aliases@[i])@,
                )),
{
    let from = facts.from->0;
    let names = carried_names(from);
    let models = alias_models(plan.aliases@);
    assert(models.len() == plan.aliases@.len());
    assert(names[0] == from.entity_key@);
    assert(names[1] == from.canonical_name@);
    assert forall|i: int| 0 <= i < from.aliases@.len() implies #[trigger] names[i + 2]
        == from.aliases@[i]@ by {}
    if (name == from.entity_key@ || name == from.canonical_name@ || (exists|i: int|
        0 <= i < from.aliases@.len() && (#[trigger] from.aliases@[i])@ == name)) && trimmed(
        name,
    ).len() > 0 && alias_form(trimmed(name)).len() > 0 {
        let at = if name == from.entity_key@ {
            0
        } else if name == from.canonical_name@ {
            1
        } else {
            2 + (choose|i: int|
                0 <= i < from.aliases@.len() && (#[trigger] from.aliases@[i])@ == name)
        };
        assert(names[at] == name);
        lemma_carried(names, at);
        let k = choose|k: int|
            0 <= k < models.len() && (#[trigger] models[k]).form == alias_form(trimmed(name));
        assert(plan.aliases@[k].normalized_alias@ == alias_form(trimmed(name)));
    }
    assert forall|k: int| 0 <= k < plan.aliases@.len() implies (
    #[trigger] plan.aliases@[k]).normalized_alias@ == alias_form(plan.aliases@[k].alias@) && (
    plan.aliases@[k].alias@ == trimmed(from.entity_key@) || plan.aliases@[k].alias@ == trimmed(
        from.canonical_name@,
    ) || exists|i: int|
        0 <= i < from.aliases@.len() && plan.aliases@[k].alias@ == trimmed(
            (#[trigger] from.aliases@[i])@,
        )) by {
        assert(models[k].alias == plan.aliases@[k].alias@);
        assert(models[k].form == plan.aliases@[k].normalized_alias@);
        lemma_carried_from(names, k);
        let i = choose|i: int|
            0 <= i < names.len() && models[k].alias == trimmed(#[trigger] names[i])
                && models[k].form == alias_form(trimmed(names[i]));
        if i >= 2 {
            assert(names[i] == from.aliases@[i - 2]@);
        }
    }
}

/// How many of the first `n` aliases have a form that is not among the known ones.
pub open spec fn unknown_forms(plan: EntityMergePlan, known: Seq<String>, n: nat) -> nat
    decreases n,
{
    if n == 0 {
        0
    } else {
        let fresh = forall|j: int|
            0 <= j < known.len() ==> (#[trigger] known[j])@ != plan.aliases@[n - 1].normalized_alias@;
        unknown_forms(plan, known, (n - 1) as nat) + if fresh {
            1nat
        } else {
            0nat
        }
    }
}

proof fn lemma_new_names(plan: EntityMergePlan, known: Seq<String>, n: nat)
    requires
        n <= plan.aliases@.len(),
    ensures
        crate::merging::new_names(alias_models(plan.aliases@).take(n as int), views(known))
            == unknown_forms(plan, known, n),
    decreases n,
{
    let models = alias_models(plan.aliases@);
    if n > 0 {
        lemma_new_names(plan, known, (n - 1) as nat);
        assert(models.take(n as int).drop_last() =~= models.take(n - 1));
        assert(models.take(n as int).last() == models[n - 1]);
        let form = plan.aliases@[n - 1].normalized_alias@;
        if views(known).contains(form) {
            let j = choose|j: int| 0 <= j < views(known).len() && views(known)[j] == form;
            assert(known[j]@ == form);
        } else {
            assert forall|j: int| 0 <= j < known.len() implies (#[trigger] known[j])@ != form by {
                assert(views(known)[j] == known[j]@);
            }
        }
    }
}

/// A merge reports as added the aliases that the other entity did not have.
pub proof fn law_merge_counts_new_names(
    request: EntityMergeRequest,
    facts: MergeFacts,
    plan: EntityMergePlan,
)
    requires
        call_ensures(merge_entity, (&request, &facts), Ok::<EntityMergePlan, Error>(plan)),
    ensures
        plan.aliases_added == unknown_forms(plan, facts.into_forms@, plan.aliases@.len()),
        facts.from is Some && facts.into is Some,
        plan.from_entity_id@ == facts.from->0.id@,
        plan.into_entity_id@ == facts.into->0.id@,
        plan.from_entity_key@ == facts.from->0.entity_key@,
        plan.into_entity_key@ == facts.into->0.entity_key@,
        plan.dry_run == request.dry_run,
{
    lemma_new_names(plan, facts.into_forms@, plan.aliases@.len());
    let models = alias_models(plan.aliases@);
    assert(models.take(plan.aliases@.len() as int) =~= models);
}

/// A merge is made exactly where the space is known, each of the two entities is named
/// in exactly one way and is there, they are two, and both are active.
pub proof fn law_merge_joins_two_active_entities(
    request: EntityMergeRequest,
    facts: MergeFacts,
    answer: Result<EntityMergePlan, Error>,
)
    requires
        call_ensures(merge_entity, (&request, &facts), answer),
    ensures
        answer is Ok ==> {
            &&& facts.space_exists
            &&& facts.from is Some && facts.into is Some
            &&& facts.from->0.id@ != facts.into->0.id@
            &&& facts.from->0.status@ == "active"@ && facts.into->0.status@ == "active"@
            &&& request.from_entity_id is Some != request.from_entity_key is Some
            &&& request.into_entity_id is Some != request.into_entity_key is Some
        },
        answer is Err ==> {
            ||| crate::merging::merge_request_fault(request) is Some
            ||| !facts.space_exists
            ||| facts.from is None
            ||| facts.into is None
            ||| facts.from->0.id@ == facts.into->0.id@
            ||| facts.from->0.status@ != "active"@
            ||| facts.into->0.status@ != "active"@
        },
{
}

/// A relationship with one entity in the place of another, as it should be written.
pub open spec fn repointed_as(edge: Edge, from: Seq<char>, into: Seq<char>, w: WriteModel) -> bool {
    w == WriteModel::Repoint(
        edge.id@,
        if edge.subject@ == from {
            into
        } else {
            edge.subject@
        },
        if edge.object@ == from {
            into
        } else {
            edge.object@
        },
    )
}

/// Whether a relationship has an entity at one of its ends.
pub open spec fn ends_at(edge: Edge, entity: Seq<char>) -> bool {
    edge.subject@ == entity || edge.object@ == entity
}

/// Whether a relationship would lead from an entity to itself after a merge.
pub open spec fn closes_on_itself(edge: Edge, from: Seq<char>, into: Seq<char>) -> bool {
    (edge.subject@ == from || edge.subject@ == into) && (edge.object@ == from || edge.object@
        == into)
}

proof fn lemma_table_at(edges: Seq<Edge>, from: Seq<char>, into: Seq<char>, n: nat, k: int)
    requires
        n <= k < edges.len(),
    ensures
        relinked(in_use(edges), from, into, n).len() == edges.len(),
        relinked(in_use(edges), from, into, n)[k] == Some(edges[k]@),
    decreases n,
{
    if n > 0 {
        lemma_table_at(edges, from, into, (n - 1) as nat, k);
    }
}

/// Whether a write is one for a relationship in a merge: it is moved, or taken out of
/// use; one that would lead from the entity to itself is taken out of use.
pub open spec fn writes_for(edge: Edge, from: Seq<char>, into: Seq<char>, w: WriteModel) -> bool {
    if closes_on_itself(edge, from, into) {
        w == WriteModel::Tombstone(edge.id@)
    } else {
        w == WriteModel::Tombstone(edge.id@) || repointed_as(edge, from, into, w)
    }
}

/// Whether a merge writes something for a relationship.
pub open spec fn is_seen_to(
    edge: Edge,
    from: Seq<char>,
    into: Seq<char>,
    writes: Seq<WriteModel>,
) -> bool {
    exists|m: int| 0 <= m < writes.len() && writes_for(edge, from, into, #[trigger] writes[m])
}

/// Whether a write of a merge is for one of the first `n` relationships, and that is one
/// of the merged entity.
pub open spec fn is_called_for(
    edges: Seq<Edge>,
    n: nat,
    from: Seq<char>,
    into: Seq<char>,
    w: WriteModel,
) -> bool {
    exists|k: int|
        0 <= k < n && ends_at(#[trigger] edges[k], from) && writes_for(edges[k], from, into, w)
}

proof fn lemma_writes(edges: Seq<Edge>, from: Seq<char>, into: Seq<char>, n: nat)
    requires
        n <= edges.len(),
        from != into,
    ensures
        forall|k: int|
            0 <= k < n && ends_at(#[trigger] edges[k], from) ==> is_seen_to(
                edges[k],
                from,
                into,
                edge_writes(in_use(edges), from, into, n),
            ),
        forall|m: int|
            0 <= m < edge_writes(in_use(edges), from, into, n).len() ==> is_called_for(
                edges,
                n,
                from,
                into,
                #[trigger] edge_writes(in_use(edges), from, into, n)[m],
            ),
    decreases n,
{
    let after = edge_writes(in_use(edges), from, into, n);
    if n > 0 {
        lemma_writes(edges, from, into, (n - 1) as nat);
        lemma_table_at(edges, from, into, (n - 1) as nat, n - 1);
        let before = edge_writes(in_use(edges), from, into, (n - 1) as nat);
        let edge = edges[n - 1];
        assert forall|k: int| 0 <= k < n && ends_at(#[trigger] edges[k], from) implies is_seen_to(
            edges[k],
            from,
            into,
            after,
        ) by {
            if k < n - 1 {
                assert(is_seen_to(edges[k], from, into, before));
                let m = choose|m: int|
                    0 <= m < before.len() && writes_for(
                        edges[k],
                        from,
                        into,
                        #[trigger] before[m],
                    );
                assert(after[m] == before[m]);
            } else {
                assert(touches(edge@, from));
                assert(writes_for(edge, from, into, after[before.len() as int]));
            }
        }
        assert forall|m: int| 0 <= m < after.len() implies is_called_for(
            edges,
            n,
            from,
            into,
            #[trigger] after[m],
        ) by {
            if m < before.len() {
                assert(after[m] == before[m]);
                assert(is_called_for(edges, (n - 1) as nat, from, into, before[m]));
                let k = choose|k: int|
                    0 <= k < n - 1 && ends_at(#[trigger] edges[k], from) && writes_for(
                        edges[k],
                        from,
                        into,
                        before[m],
                    );
                assert(ends_at(edges[k], from));
            } else {
                assert(ends_at(edges[n - 1], from));
                assert(writes_for(edge, from, into, after[m]));
            }
        }
    }
}

proof fn lemma_write_count(edges: Seq<Edge>, from: Seq<char>, into: Seq<char>, n: nat)
    ensures
        fates(in_use(edges), from, into, n, Fate::Moved) + fates(
            in_use(edges),
            from,
            into,
            n,
            Fate::Duplicate,
        ) + fates(in_use(edges), from, into, n, Fate::SelfLoop) == edge_writes(
            in_use(edges),
            from,
            into,
            n,
        ).len(),
    decreases n,
{
    if n > 0 {
        lemma_write_count(edges, from, into, (n - 1) as nat);
    }
}

/// A merge writes for every active relationship of the merged entity, and for no
/// other: it is moved to the other entity at the same end, or taken out of use; one
/// that would lead from the entity to itself is taken out of use.
pub proof fn law_merge_moves_every_relationship(
    request: EntityMergeRequest,
    facts: MergeFacts,
    plan: EntityMergePlan,
)
    requires
        call_ensures(merge_entity, (&request, &facts), Ok::<EntityMergePlan, Error>(plan)),
    ensures
        forall|k: int|
            0 <= k < facts.edges@.len() && ends_at(#[trigger] facts.edges@[k], plan.from_entity_id@)
                ==> is_seen_to(
                facts.edges@[k],
                plan.from_entity_id@,
                plan.into_entity_id@,
                write_models(plan.relinking.writes@),
            ),
        forall|m: int|
            0 <= m < plan.relinking.writes@.len() ==> is_called_for(
                facts.edges@,
                facts.edges@.len(),
                plan.from_entity_id@,
                plan.into_entity_id@,
                write_model(#[trigger] plan.relinking.writes@[m]),
            ),
        plan.relinking.repointed + plan.relinking.tombstoned_duplicate
            + plan.relinking.tombstoned_self_loop == plan.relinking.writes@.len(),
{
    let from = plan.from_entity_id@;
    let into = plan.into_entity_id@;
    let edges = facts.edges@;
    lemma_writes(edges, from, into, edges.len());
    lemma_write_count(edges, from, into, edges.len());
    let all = write_models(plan.relinking.writes@);
    assert(all.len() == plan.relinking.writes@.len());
    assert forall|m: int| 0 <= m < plan.relinking.writes@.len() implies is_called_for(
        edges,
        edges.len(),
        from,
        into,
        write_model(#[trigger] plan.relinking.writes@[m]),
    ) by {
        assert(all[m] == write_model(plan.relinking.writes@[m]));
    }
}

/// Whether what a relationship says is still said after a merge: by one that has
/// nothing to do with the merged entity, or by one that is moved.
pub open spec fn is_still_said(
    edges: Seq<Edge>,
    from: Seq<char>,
    into: Seq<char>,
    writes: Seq<WriteModel>,
    k: int,
) -> bool {
    exists|j: int|
        {
            &&& 0 <= j < edges.len()
            &&& (#[trigger] edges[j]).relation@ == edges[k].relation@
            &&& if ends_at(edges[j], from) {
                writes.contains(
                    WriteModel::Repoint(
                        edges[j].id@,
                        if edges[k].subject@ == from {
                            into
                        } else {
                            edges[k].subject@
                        },
                        if edges[k].object@ == from {
                            into
                        } else {
                            edges[k].object@
                        },
                    ),
                )
            } else {
                &&& edges[j].subject@ == if edges[k].subject@ == from {
                    into
                } else {
                    edges[k].subject@
                }
                &&& edges[j].object@ == if edges[k].object@ == from {
                    into
                } else {
                    edges[k].object@
                }
            }
        }
}

/// Whether a relationship in use says what another says once it is moved.
spec fn says_for(slot: Option<EdgeModel>, edge: Edge, from: Seq<char>, into: Seq<char>) -> bool {
    slot matches Some(other) && same_claim(other, moved(edge@, from, into))
}

proof fn lemma_slots(edges: Seq<Edge>, from: Seq<char>, into: Seq<char>, n: nat)
    requires
        n <= edges.len(),
        from != into,
    ensures
        relinked(in_use(edges), from, into, n).len() == edges.len(),
        forall|j: int|
            0 <= j < n && (#[trigger] relinked(in_use(edges), from, into, n)[j]) is Some ==> {
                let slot = relinked(in_use(edges), from, into, n)[j]->0;
                if ends_at(edges[j], from) {
                    slot == moved(edges[j]@, from, into) && edge_writes(
                        in_use(edges),
                        from,
                        into,
                        n,
                    ).contains(WriteModel::Repoint(slot.id, slot.subject, slot.object))
                } else {
                    slot == edges[j]@
                }
            },
        forall|k: int|
            0 <= k < n && ends_at(#[trigger] edges[k], from) && !closes_on_itself(
                edges[k],
                from,
                into,
            ) ==> exists|j: int|
                0 <= j < edges.len() && says_for(
                    #[trigger] relinked(in_use(edges), from, into, n)[j],
                    edges[k],
                    from,
                    into,
                ),
    decreases n,
{
    if n > 0 {
        let last: int = n - 1;
        lemma_slots(edges, from, into, (n - 1) as nat);
        lemma_table_at(edges, from, into, (n - 1) as nat, last);
        let before = relinked(in_use(edges), from, into, (n - 1) as nat);
        let after = relinked(in_use(edges), from, into, n);
        let told = edge_writes(in_use(edges), from, into, (n - 1) as nat);
        let writes = edge_writes(in_use(edges), from, into, n);
        assert(before[last] == Some(edges[last]@));
        assert(forall|j: int| 0 <= j < edges.len() && j != last ==> #[trigger] after[j] == before[j]);
        assert forall|w: WriteModel| told.contains(w) implies #[trigger] writes.contains(w) by {
            let at = choose|at: int| 0 <= at < told.len() && told[at] == w;
            assert(writes[at] == w);
        }
        assert forall|j: int| 0 <= j < n && (#[trigger] after[j]) is Some implies {
            let slot = after[j]->0;
            if ends_at(edges[j], from) {
                slot == moved(edges[j]@, from, into) && writes.contains(
                    WriteModel::Repoint(slot.id, slot.subject, slot.object),
                )
            } else {
                slot == edges[j]@
            }
        } by {
            if j < last {
                assert(after[j] == before[j]);
            } else if ends_at(edges[j], from) {
                assert(touches(edges[last]@, from));
                assert(writes[told.len() as int] == writes.last());
            }
        }
        assert forall|k: int|
            0 <= k < n && ends_at(#[trigger] edges[k], from) && !closes_on_itself(
                edges[k],
                from,
                into,
            ) implies exists|j: int|
            0 <= j < edges.len() && says_for(#[trigger] after[j], edges[k], from, into) by {
            let wanted = moved(edges[k]@, from, into);
            assert(!touches(wanted, from));
            if k < last {
                let j = choose|j: int|
                    0 <= j < edges.len() && says_for(#[trigger] before[j], edges[k], from, into);
                if j == last {
                    assert(!touches(edges[last]@, from));
                }
                assert(after[j] == before[j]);
                assert(says_for(after[j], edges[k], from, into));
            } else {
                assert(touches(edges[last]@, from));
                if said_elsewhere(before, last, wanted) {
                    let j = choose|j: int|
                        0 <= j < before.len() && j != last && (#[trigger] before[j] matches Some(
                            other,
                        ) && same_claim(other, wanted));
                    assert(after[j] == before[j]);
                    assert(says_for(after[j], edges[k], from, into));
                } else {
                    assert(says_for(after[last], edges[k], from, into));
                }
            }
        }
    }
}

/// A merge takes nothing back that was said of the merged entity: after it, what each
/// of its relationships said is said of the other entity, unless it would be said of
/// that entity and itself.
pub proof fn law_merge_keeps_what_is_said(
    request: EntityMergeRequest,
    facts: MergeFacts,
    plan: EntityMergePlan,
    k: int,
)
    requires
        call_ensures(merge_entity, (&request, &facts), Ok::<EntityMergePlan, Error>(plan)),
        0 <= k < facts.edges@.len(),
        ends_at(facts.edges@[k], plan.from_entity_id@),
        !closes_on_itself(facts.edges@[k], plan.from_entity_id@, plan.into_entity_id@),
    ensures
        is_still_said(
            facts.edges@,
            plan.from_entity_id@,
            plan.into_entity_id@,
            write_models(plan.relinking.writes@),
            k,
        ),
{
    let edges = facts.edges@;
    let from = plan.from_entity_id@;
    let into = plan.into_entity_id@;
    lemma_slots(edges, from, into, edges.len());
    let table = relinked(in_use(edges), from, into, edges.len());
    let j = choose|j: int|
        0 <= j < edges.len() && says_for(#[trigger] table[j], edges[k], from, into);
    assert(table[j] is Some);
    assert(edges[j].relation@ == edges[k].relation@);
}

proof fn lemma_aliases_of_len(values: Seq<Seq<char>>)
    requires
        aliases_of(values) is Ok,
    ensures
        aliases_of(values)->Ok_0.len() == values.len(),
    decreases values.len(),
{
    if values.len() > 0 {
        lemma_aliases_of_len(values.drop_last());
    }
}

proof fn lemma_aliases_of(values: Seq<Seq<char>>, i: int)
    requires
        aliases_of(values) is Ok,
        0 <= i < values.len(),
    ensures
        aliases_of(values)->Ok_0.len() == values.len(),
        aliases_of(values)->Ok_0[i] == (AliasModel {
            alias: trimmed(values[i]),
            form: alias_form(trimmed(values[i])),
        }),
    decreases values.len(),
{
    let rest = values.drop_last();
    lemma_aliases_of_len(values);
    lemma_aliases_of_len(rest);
    if i < rest.len() {
        lemma_aliases_of(rest, i);
        assert(rest[i] == values[i]);
    }
}

proof fn lemma_without_form_keeps(list: Seq<AliasModel>, form: Seq<char>, k: int)
    requires
        0 <= k < list.len(),
        list[k].form != form,
    ensures
        without_form(list, form).contains(list[k]),
    decreases list.len(),
{
    let rest = list.drop_last();
    if k < rest.len() {
        lemma_without_form_keeps(rest, form, k);
        lemma_push_contains(without_form(rest, form), list.last(), list[k]);
        assert(rest[k] == list[k]);
    } else {
        lemma_push_contains(without_form(rest, form), list.last(), list[k]);
    }
}

/// An entity that is written can be looked up by its name and by every alias that it
/// is given.
pub proof fn law_entity_keeps_its_names(
    request: EntityUpsertRequest,
    facts: EntityFacts,
    prepared: PreparedEntityUpsertRequest,
    plan: EntityUpsertPlan,
    i: int,
)
    requires
        call_ensures(
            upsert_entity,
            (&request, &facts),
            Ok::<(PreparedEntityUpsertRequest, EntityUpsertPlan), Error>((prepared, plan)),
        ),
    ensures
        exists|k: int|
            0 <= k < plan.aliases@.len() && (#[trigger] plan.aliases@[k]).alias@
                == prepared.canonical_name@ && plan.aliases@[k].normalized_alias@ == alias_form(
                prepared.canonical_name@,
            ),
        0 <= i < request.aliases@.len() ==> exists|k: int|
            0 <= k < plan.aliases@.len() && (#[trigger] plan.aliases@[k]).normalized_alias@
                == alias_form(trimmed(request.aliases@[i]@)),
        request.aliases@.len() <= 64,
{
    let written = alias_models(plan.aliases@);
    let name = prepared.canonical_name@;
    assert(written.len() == plan.aliases@.len());
    let last = written.len() - 1;
    assert(written[last].alias == name && written[last].form == alias_form(name));
    assert(plan.aliases@[last].alias@ == name);
    let values = views(request.aliases@);
    assert(values.len() == request.aliases@.len());
    if 0 <= i < values.len() {
        lemma_aliases_of(values, i);
        let list = aliases_of(values)->Ok_0;
        let sorted = sorted_aliases(list);
        let keys = crate::entities::alias_keys(list);
        lemma_sorting_names_each(keys);
        let order = crate::ranking::sorting(keys);
        assert(order.contains(i));
        let p = choose|p: int| 0 <= p < order.len() && order[p] == i;
        assert(sorted[p] == list[i]);
        let form = alias_form(trimmed(values[i]));
        assert(values[i] == request.aliases@[i]@);
        if form == alias_form(name) {
            assert(plan.aliases@[last].normalized_alias@ == form);
        } else {
            lemma_without_form_keeps(sorted, alias_form(name), p);
            let kept = without_form(sorted, alias_form(name));
            let k = choose|k: int| 0 <= k < kept.len() && kept[k] == sorted[p];
            assert(written[k] == kept[k]);
            assert(plan.aliases@[k].normalized_alias@ == form);
        }
    }
}

/// An entity is written under its key, once: it is created exactly where the space
/// has none of the key, and keeps its id otherwise. What is not given takes its usual
/// value, or stays as it was.
pub proof fn law_entity_is_written_once(
    request: EntityUpsertRequest,
    facts: EntityFacts,
    prepared: PreparedEntityUpsertRequest,
    plan: EntityUpsertPlan,
)
    requires
        call_ensures(
            upsert_entity,
            (&request, &facts),
            Ok::<(PreparedEntityUpsertRequest, EntityUpsertPlan), Error>((prepared, plan)),
        ),
    ensures
        facts.space_exists,
        plan.created <==> facts.existing_id is None,
        facts.existing_id matches Some(id) ==> plan.entity_id@ == id@,
        facts.existing_id is None ==> plan.entity_id@ == facts.new_id@,
        prepared.space@ == match request.space {
            Some(space) => space@,
            None => "workspace-memory"@,
        },
        prepared.entity_key@ == trimmed(request.entity_key@) && prepared.entity_key@.len() > 0,
        prepared.canonical_name@ == trimmed(request.canonical_name@)
            && prepared.canonical_name@.len() > 0,
        request.entity_type is None ==> prepared.entity_type@ == "Entity"@,
        request.entity_type matches Some(kind) ==> prepared.entity_type@ == trimmed(kind@),
        request.status is None ==> prepared.status@ == "active"@,
        request.status matches Some(status) ==> prepared.status@ == trimmed(status@),
        prepared.status@ == "active"@ || prepared.status@ == "merged"@ || prepared.status@
            == "tombstoned"@,
        prepared.confidence == request.confidence,
        0 <= request.confidence.key <= 0x3ff0_0000_0000_0000,
        request.metadata_json is None ==> text_of_string(plan.metadata_json) == text_of_string(
            facts.existing_metadata,
        ),
        request.metadata_json matches Some(document) ==> plan.metadata_json matches Some(text)
            && text@ == document.text@,
        request.source_episode_id is None ==> text_of_string(plan.source_episode_id)
            == text_of_string(facts.existing_source),
        request.source_episode_id matches Some(id) ==> facts.source_episode_exists && text_of_string(
            plan.source_episode_id,
        ) == Some(trimmed(id@)),
{
}

/// A relationship is written between two known entities, each named in exactly one way,
/// once: it is created exactly where there is none like it. What is not given takes its
/// usual value, or stays as it was.
pub proof fn law_relationship_is_written_once(
    request: RelationshipUpsertRequest,
    facts: RelationshipFacts,
    prepared: PreparedRelationshipUpsertRequest,
    plan: RelationshipUpsertPlan,
)
    requires
        call_ensures(
            upsert_relationship,
            (&request, &facts),
            Ok::<(PreparedRelationshipUpsertRequest, RelationshipUpsertPlan), Error>(
                (prepared, plan),
            ),
        ),
    ensures
        facts.space_exists,
        facts.subject matches Some(id) && plan.subject_entity_id@ == id@,
        facts.object matches Some(id) && plan.object_entity_id@ == id@,
        request.subject_entity_id is Some != request.subject_entity_key is Some,
        request.object_entity_id is Some != request.object_entity_key is Some,
        request.memory_id is Some ==> facts.memory_exists,
        request.source_episode_id is Some ==> facts.source_episode_exists,
        plan.created <==> facts.existing_id is None,
        facts.existing_id matches Some(id) ==> plan.relationship_id@ == id@,
        facts.existing_id is None ==> plan.relationship_id@ == facts.new_id@,
        prepared.space@ == match request.space {
            Some(space) => space@,
            None => "workspace-memory"@,
        },
        prepared.relation_type@ == trimmed(request.relation_type@)
            && prepared.relation_type@.len() > 0,
        request.status is None ==> prepared.status@ == "active"@,
        request.status matches Some(status) ==> prepared.status@ == trimmed(status@),
        prepared.status@ == "active"@ || prepared.status@ == "superseded"@ || prepared.status@
            == "conflicted"@ || prepared.status@ == "tombstoned"@,
        prepared.confidence == request.confidence,
        0 <= request.confidence.key <= 0x3ff0_0000_0000_0000,
        request.memory_id matches Some(id) ==> text_of_string(prepared.memory_id) == Some(
            trimmed(id@),
        ),
        request.observed_at matches Some(at) ==> text_of_string(plan.observed_at) == Some(at@),
        request.observed_at is None ==> text_of_string(plan.observed_at) == text_of_string(
            facts.existing_observed_at,
        ),
        request.valid_from matches Some(at) ==> text_of_string(plan.valid_from) == Some(at@),
        request.valid_from is None ==> text_of_string(plan.valid_from) == text_of_string(
            facts.existing_valid_from,
        ),
        request.valid_to matches Some(at) ==> text_of_string(plan.valid_to) == Some(at@),
        request.valid_to is None ==> text_of_string(plan.valid_to) == text_of_string(
            facts.existing_valid_to,
        ),
        request.metadata_json is None ==> text_of_string(plan.metadata_json) == text_of_string(
            facts.existing_metadata,
        ),
        request.metadata_json matches Some(document) ==> plan.metadata_json matches Some(text)
            && text@ == document.text@,
{
}

} // verus!
