//! Which memories a write replaces, and what that does to them.

use vstd::prelude::*;

use crate::error::{conflict2, not_found, verdict, Error, Fault};
use crate::text::{text_eq, views};
use crate::validate::first_of;
use crate::vocabulary::{STATUS_ACTIVE, STATUS_SUPERSEDED};

verus! {

/// What a write has to know of an existing memory.
pub struct MemoryState {
    /// Memory id.
    pub id: String,
    /// Space.
    pub space: String,
    /// Status.
    pub status: String,
    /// Whether it is protected from being superseded.
    pub pinned: bool,
}

/// The model of a memory's state.
pub struct StateModel {
    /// Memory id.
    pub id: Seq<char>,
    /// Space.
    pub space: Seq<char>,
    /// Status.
    pub status: Seq<char>,
    /// Whether it is protected.
    pub pinned: bool,
}

impl View for MemoryState {
    type V = StateModel;

    open spec fn view(&self) -> StateModel {
        StateModel {
            id: self.id@,
            space: self.space@,
            status: self.status@,
            pinned: self.pinned,
        }
    }
}

/// The models of memory states.
pub open spec fn states(list: Seq<MemoryState>) -> Seq<StateModel> {
    list.map_values(|s: MemoryState| s@)
}

/// The first position of a memory of the space.
pub open spec fn find_state(table: Seq<StateModel>, id: Seq<char>, space: Seq<char>) -> Option<int>
    decreases table.len(),
{
    if table.len() == 0 {
        None
    } else {
        match find_state(table.drop_last(), id, space) {
            Some(i) => Some(i),
            None => if table.last().id == id && table.last().space == space {
                Some(table.len() - 1)
            } else {
                None
            },
        }
    }
}

/// A found position is one of the table, and holds the memory.
pub proof fn lemma_find_state(table: Seq<StateModel>, id: Seq<char>, space: Seq<char>)
    ensures
        match find_state(table, id, space) {
            Some(i) => 0 <= i < table.len() && table[i].id == id && table[i].space == space,
            None => forall|j: int|
                0 <= j < table.len() ==> !((#[trigger] table[j]).id == id && table[j].space
                    == space),
        },
    decreases table.len(),
{
    if table.len() > 0 {
        lemma_find_state(table.drop_last(), id, space);
        assert forall|j: int| 0 <= j < table.len() - 1 implies table.drop_last()[j] == table[j] by {}
    }
}

proof fn lemma_find_state_at(table: Seq<StateModel>, id: Seq<char>, space: Seq<char>, i: int)
    requires
        0 <= i <= table.len(),
        forall|j: int|
            0 <= j < i ==> !((#[trigger] table[j]).id == id && table[j].space == space),
        i < table.len() ==> table[i].id == id && table[i].space == space,
    ensures
        find_state(table, id, space) == if i < table.len() {
            Some(i)
        } else {
            None
        },
    decreases table.len(),
{
    if table.len() > 0 {
        let rest = table.drop_last();
        assert forall|j: int| 0 <= j < rest.len() implies rest[j] == table[j] by {}
        if i < table.len() {
            lemma_find_state_at(rest, id, space, i);
        } else {
            lemma_find_state_at(rest, id, space, i - 1);
            assert(!(table[table.len() - 1].id == id && table[table.len() - 1].space == space));
        }
    }
}

/// The position of a memory of the space.
pub fn state_position(table: &Vec<MemoryState>, id: &str, space: &str) -> (r: Option<usize>)
    ensures
        match r {
            Some(i) => find_state(states(table@), id@, space@) == Some(i as int) && i
                < table@.len(),
            None => find_state(states(table@), id@, space@) is None,
        },
{
    let ghost models = states(table@);
    for i in 0..table.len()
        invariant
            models == states(table@),
            forall|j: int|
                0 <= j < i ==> !((#[trigger] models[j]).id == id@ && models[j].space == space@),
    {
        if text_eq(table[i].id.as_str(), id) && text_eq(table[i].space.as_str(), space) {
            proof {
                assert(models[i as int].id == id@);
                lemma_find_state_at(models, id@, space@, i as int);
            }
            return Some(i);
        }
        assert(!(models[i as int].id == id@ && models[i as int].space == space@));
    }
    proof {
        lemma_find_state_at(models, id@, space@, table@.len() as int);
    }
    None
}

/// The memories after one of them was superseded, or why it cannot be: it has to
/// be an active memory of the space that is not pinned.
pub open spec fn superseded_one(
    table: Seq<StateModel>,
    space: Seq<char>,
    id: Seq<char>,
) -> Result<Seq<StateModel>, Fault> {
    match find_state(table, id, space) {
        None => Err(Fault::NotFound("memory"@, id)),
        Some(i) => if table[i].status != STATUS_ACTIVE@ {
            Err(Fault::Conflict("cannot supersede non-active memory: "@ + id))
        } else if table[i].pinned {
            Err(Fault::Conflict("cannot supersede pinned memory: "@ + id))
        } else {
            Ok(
                table.update(
                    i,
                    StateModel { status: STATUS_SUPERSEDED@, ..table[i] },
                ),
            )
        },
    }
}

/// The memories after several of them were superseded in order.
pub open spec fn superseded_all(
    table: Seq<StateModel>,
    space: Seq<char>,
    ids: Seq<Seq<char>>,
) -> Result<Seq<StateModel>, Fault>
    decreases ids.len(),
{
    if ids.len() == 0 {
        Ok(table)
    } else {
        match superseded_all(table, space, ids.drop_last()) {
            Err(fault) => Err(fault),
            Ok(before) => superseded_one(before, space, ids.last()),
        }
    }
}

/// Supersedes one memory.
pub fn supersede_memory(table: &mut Vec<MemoryState>, space: &str, id: &str) -> (r: Result<
    (),
    Error,
>)
    ensures
        match r {
            Ok(_) => superseded_one(states(old(table)@), space@, id@) == Ok::<
                Seq<StateModel>,
                Fault,
            >(states(final(table)@)),
            Err(e) => superseded_one(states(old(table)@), space@, id@) == Err::<
                Seq<StateModel>,
                Fault,
            >(e@) && states(final(table)@) == states(old(table)@),
        },
{
    let ghost before = states(table@);
    match state_position(table, id, space) {
        None => Err(not_found("memory", id)),
        Some(i) => {
            if !text_eq(table[i].status.as_str(), STATUS_ACTIVE) {
                return Err(conflict2("cannot supersede non-active memory: ", id));
            }
            if table[i].pinned {
                return Err(conflict2("cannot supersede pinned memory: ", id));
            }
            let next = MemoryState {
                id: table[i].id.clone(),
                space: table[i].space.clone(),
                status: STATUS_SUPERSEDED.to_owned(),
                pinned: table[i].pinned,
            };
            let ghost model = next@;
            table.set(i, next);
            assert(states(table@) =~= before.update(i as int, model));
            Ok(())
        },
    }
}

/// Supersedes memories in order, up to the first that cannot be.
pub fn supersede_memories(table: &mut Vec<MemoryState>, space: &str, ids: &Vec<String>) -> (r:
    Result<(), Error>)
    ensures
        match r {
            Ok(_) => superseded_all(states(old(table)@), space@, views(ids@)) == Ok::<
                Seq<StateModel>,
                Fault,
            >(states(final(table)@)),
            Err(e) => superseded_all(states(old(table)@), space@, views(ids@)) == Err::<
                Seq<StateModel>,
                Fault,
            >(e@),
        },
{
    let ghost start = states(table@);
    let ghost all = views(ids@);
    assert(all.take(0) =~= Seq::empty());
    for i in 0..ids.len()
        invariant
            start == states(old(table)@),
            all == views(ids@),
            superseded_all(start, space@, all.take(i as int)) == Ok::<Seq<StateModel>, Fault>(
                states(table@),
            ),
    {
        proof {
            assert(all.take(i + 1).drop_last() =~= all.take(i as int));
            assert(all.take(i + 1).last() == ids@[i as int]@);
        }
        if let Err(e) = supersede_memory(table, space, ids[i].as_str()) {
            proof {
                lemma_superseded_fault(start, space@, all, i + 1, e@);
            }
            return Err(e);
        }
    }
    assert(all.take(ids@.len() as int) =~= all);
    Ok(())
}

proof fn lemma_superseded_fault(
    table: Seq<StateModel>,
    space: Seq<char>,
    ids: Seq<Seq<char>>,
    n: int,
    fault: Fault,
)
    requires
        0 <= n <= ids.len(),
        superseded_all(table, space, ids.take(n)) == Err::<Seq<StateModel>, Fault>(fault),
    ensures
        superseded_all(table, space, ids) == Err::<Seq<StateModel>, Fault>(fault),
    decreases ids.len() - n,
{
    if n == ids.len() {
        assert(ids.take(n) =~= ids);
    } else {
        assert(ids.take(n + 1).drop_last() =~= ids.take(n));
        lemma_superseded_fault(table, space, ids, n + 1, fault);
    }
}

/// The fault of naming a memory that the space does not have.
pub open spec fn missing_fault(
    table: Seq<StateModel>,
    space: Seq<char>,
    ids: Seq<Seq<char>>,
) -> Option<Fault>
    decreases ids.len(),
{
    if ids.len() == 0 {
        None
    } else {
        first_of(
            missing_fault(table, space, ids.drop_last()),
            if find_state(table, ids.last(), space) is None {
                Some(Fault::NotFound("memory"@, ids.last()))
            } else {
                None
            },
        )
    }
}

proof fn lemma_missing_prefix(
    table: Seq<StateModel>,
    space: Seq<char>,
    ids: Seq<Seq<char>>,
    n: int,
)
    requires
        0 <= n <= ids.len(),
        missing_fault(table, space, ids.take(n)) is Some,
    ensures
        missing_fault(table, space, ids) == missing_fault(table, space, ids.take(n)),
    decreases ids.len() - n,
{
    if n == ids.len() {
        assert(ids.take(n) =~= ids);
    } else {
        assert(ids.take(n + 1).drop_last() =~= ids.take(n));
        lemma_missing_prefix(table, space, ids, n + 1);
    }
}

/// Checks that the space has all of the memories.
pub fn ensure_memories_in_space(table: &Vec<MemoryState>, space: &str, ids: &Vec<String>) -> (r:
    Result<(), Error>)
    ensures
        verdict(r) == missing_fault(states(table@), space@, views(ids@)),
{
    let ghost models = states(table@);
    let ghost all = views(ids@);
    assert(all.take(0) =~= Seq::empty());
    for i in 0..ids.len()
        invariant
            models == states(table@),
            all == views(ids@),
            missing_fault(models, space@, all.take(i as int)) is None,
    {
        proof {
            assert(all.take(i + 1).drop_last() =~= all.take(i as int));
            assert(all.take(i + 1).last() == ids@[i as int]@);
        }
        if state_position(table, ids[i].as_str(), space).is_none() {
            proof {
                lemma_missing_prefix(models, space@, all, i + 1);
            }
            return Err(not_found("memory", ids[i].as_str()));
        }
    }
    assert(all.take(ids@.len() as int) =~= all);
    Ok(())
}

/// Superseding keeps every memory in its place, changes nothing but statuses,
/// and makes every named memory superseded; none of them was pinned.
pub proof fn law_supersession_touches_only_named(
    table: Seq<StateModel>,
    space: Seq<char>,
    ids: Seq<Seq<char>>,
)
    ensures
        superseded_all(table, space, ids) matches Ok(after) ==> {
            &&& after.len() == table.len()
            &&& forall|i: int|
                0 <= i < table.len() ==> (#[trigger] after[i]).id == table[i].id && after[i].space
                    == table[i].space && after[i].pinned == table[i].pinned && (after[i].status
                    == table[i].status || (table[i].status == STATUS_ACTIVE@ && after[i].status
                    == STATUS_SUPERSEDED@ && !table[i].pinned && ids.contains(table[i].id)))
        },
    decreases ids.len(),
{
    if ids.len() > 0 {
        let rest = ids.drop_last();
        law_supersession_touches_only_named(table, space, rest);
        if let Ok(after) = superseded_all(table, space, ids) {
            let before = superseded_all(table, space, rest)->Ok_0;
            lemma_find_state(before, ids.last(), space);
            let at = find_state(before, ids.last(), space)->0;
            assert forall|i: int| 0 <= i < table.len() implies (#[trigger] after[i]).id
                == table[i].id && after[i].space == table[i].space && after[i].pinned
                == table[i].pinned && (after[i].status == table[i].status || (table[i].status
                == STATUS_ACTIVE@ && after[i].status == STATUS_SUPERSEDED@ && !table[i].pinned
                && ids.contains(table[i].id))) by {
                assert(before[i].id == table[i].id);
                if i == at {
                    assert(ids[ids.len() - 1] == ids.last());
                    reveal_strlit("active");
                    reveal_strlit("superseded");
                    assert(STATUS_ACTIVE@.len() != STATUS_SUPERSEDED@.len());
                } else {
                    assert(after[i] == before[i]);
                    if rest.contains(table[i].id) {
                        let k = choose|k: int| 0 <= k < rest.len() && rest[k] == table[i].id;
                        assert(ids[k] == table[i].id);
                    }
                }
            }
        }
    }
}

/// No memory can be superseded twice in one write.
pub proof fn law_supersession_refuses_repeats(
    table: Seq<StateModel>,
    space: Seq<char>,
    ids: Seq<Seq<char>>,
    i: int,
    j: int,
)
    requires
        0 <= i < j < ids.len(),
        ids[i] == ids[j],
    ensures
        superseded_all(table, space, ids) is Err,
    decreases ids.len(),
{
    let rest = ids.drop_last();
    if j < rest.len() {
        law_supersession_refuses_repeats(table, space, rest, i, j);
    } else if let Ok(before) = superseded_all(table, space, rest) {
        lemma_superseded_stays(table, space, rest, i);
    }
}

/// After a supersession the memory is no longer active.
proof fn lemma_superseded_stays(
    table: Seq<StateModel>,
    space: Seq<char>,
    ids: Seq<Seq<char>>,
    i: int,
)
    requires
        0 <= i < ids.len(),
        superseded_all(table, space, ids) is Ok,
    ensures
        ({
            let after = superseded_all(table, space, ids)->Ok_0;
            let at = find_state(after, ids[i], space);
            at is Some && after[at->0].status != STATUS_ACTIVE@
        }),
    decreases ids.len(),
{
    reveal_strlit("active");
    reveal_strlit("superseded");
    assert(STATUS_ACTIVE@.len() != STATUS_SUPERSEDED@.len());
    let rest = ids.drop_last();
    let before = superseded_all(table, space, rest)->Ok_0;
    let after = superseded_all(table, space, ids)->Ok_0;
    let last = ids.last();
    lemma_find_state(before, last, space);
    let at = find_state(before, last, space)->0;
    lemma_find_update(before, ids[i], space, at, after[at]);
    if i < rest.len() {
        lemma_superseded_stays(table, space, rest, i);
        lemma_find_state(before, ids[i], space);
    }
}

proof fn lemma_find_update(
    table: Seq<StateModel>,
    id: Seq<char>,
    space: Seq<char>,
    at: int,
    state: StateModel,
)
    requires
        0 <= at < table.len(),
        state.id == table[at].id,
        state.space == table[at].space,
    ensures
        find_state(table.update(at, state), id, space) == find_state(table, id, space),
    decreases table.len(),
{
    let changed = table.update(at, state);
    if at == table.len() - 1 {
        assert(changed.drop_last() =~= table.drop_last());
    } else {
        assert(changed.drop_last() =~= table.drop_last().update(at, state));
        lemma_find_update(table.drop_last(), id, space, at, state);
    }
}

} // verus!
