//! Merging one entity of the graph into another.

use vstd::prelude::*;

use crate::entities::{alias_models, core_of, forms, AliasModel, PreparedEntityAlias};
use crate::error::{invalid, not_found, Error, Fault};
use crate::json::{as_text, text_of_string};
use crate::ranking::Score;
use crate::relationships::{
    named, named_entity_fault, normalize_named_entity, resolve_relationship_endpoint,
};
use crate::spaces::{normalize_space_name, space_name_fault};
use crate::text::{list_contains, text_eq, trim, trimmed, views};
use crate::validate::first_of;
use crate::vocabulary::DEFAULT_SPACE;
use crate::writing::{alias_form, normalized_alias, text_or, text_or_default};

verus! {

/// An entity of the graph.
pub struct EntityRecord {
    /// Id.
    pub id: String,
    /// Space.
    pub space: String,
    /// Key.
    pub entity_key: String,
    /// Type.
    pub entity_type: Option<String>,
    /// Name.
    pub canonical_name: String,
    /// Status.
    pub status: String,
    /// Confidence.
    pub confidence: Score,
    /// Aliases by form.
    pub aliases: Vec<String>,
    /// Source episode.
    pub source_episode_id: Option<String>,
    /// When it was made.
    pub created_at: String,
    /// When it was last changed.
    pub updated_at: String,
}

/// An active relationship.
pub struct Edge {
    /// Id.
    pub id: String,
    /// Entity on the one side.
    pub subject: String,
    /// Type.
    pub relation: String,
    /// Entity on the other side.
    pub object: String,
}

/// The model of a relationship.
pub struct EdgeModel {
    /// Id.
    pub id: Seq<char>,
    /// Entity on the one side.
    pub subject: Seq<char>,
    /// Type.
    pub relation: Seq<char>,
    /// Entity on the other side.
    pub object: Seq<char>,
}

impl View for Edge {
    type V = EdgeModel;

    open spec fn view(&self) -> EdgeModel {
        EdgeModel {
            id: self.id@,
            subject: self.subject@,
            relation: self.relation@,
            object: self.object@,
        }
    }
}

/// A relationship, or nothing where it was taken out of use.
pub open spec fn slot_model(slot: Option<Edge>) -> Option<EdgeModel> {
    match slot {
        Some(edge) => Some(edge@),
        None => None,
    }
}

/// The models of relationships.
pub open spec fn slot_models(list: Seq<Option<Edge>>) -> Seq<Option<EdgeModel>> {
    list.map_values(|slot: Option<Edge>| slot_model(slot))
}

/// The relationships of a space, all in use.
pub open spec fn in_use(edges: Seq<Edge>) -> Seq<Option<EdgeModel>> {
    edges.map_values(|edge: Edge| Some(edge@))
}

/// Whether a relationship has an entity at one end.
pub open spec fn touches(edge: EdgeModel, entity: Seq<char>) -> bool {
    edge.subject == entity || edge.object == entity
}

/// A relationship with one entity in the place of another.
pub open spec fn moved(edge: EdgeModel, from: Seq<char>, into: Seq<char>) -> EdgeModel {
    EdgeModel {
        id: edge.id,
        subject: if edge.subject == from {
            into
        } else {
            edge.subject
        },
        relation: edge.relation,
        object: if edge.object == from {
            into
        } else {
            edge.object
        },
    }
}

/// Whether two relationships say the same.
pub open spec fn same_claim(a: EdgeModel, b: EdgeModel) -> bool {
    a.subject == b.subject && a.relation == b.relation && a.object == b.object
}

/// Whether another relationship than the one at a place says the same.
pub open spec fn said_elsewhere(table: Seq<Option<EdgeModel>>, i: int, edge: EdgeModel) -> bool {
    exists|j: int|
        0 <= j < table.len() && j != i && (#[trigger] table[j] matches Some(other) && same_claim(
            other,
            edge,
        ))
}

/// What becomes of the relationship at a place.
#[derive(Debug, Clone, Copy, PartialEq, Eq, Structural)]
pub enum Fate {
    /// It has nothing to do with the entity.
    Kept,
    /// It would lead from an entity to itself.
    SelfLoop,
    /// Another one says the same.
    Duplicate,
    /// It is moved.
    Moved,
}

/// What becomes of the relationship at a place.
pub open spec fn fate(
    table: Seq<Option<EdgeModel>>,
    i: int,
    from: Seq<char>,
    into: Seq<char>,
) -> Fate {
    match table[i] {
        None => Fate::Kept,
        Some(edge) => if !touches(edge, from) {
            Fate::Kept
        } else if moved(edge, from, into).subject == moved(edge, from, into).object {
            Fate::SelfLoop
        } else if said_elsewhere(table, i, moved(edge, from, into)) {
            Fate::Duplicate
        } else {
            Fate::Moved
        },
    }
}

/// The relationships after the one at a place was handled.
pub open spec fn relinked_at(
    table: Seq<Option<EdgeModel>>,
    i: int,
    from: Seq<char>,
    into: Seq<char>,
) -> Seq<Option<EdgeModel>> {
    match fate(table, i, from, into) {
        Fate::Kept => table,
        Fate::SelfLoop => table.update(i, None),
        Fate::Duplicate => table.update(i, None),
        Fate::Moved => table.update(i, Some(moved(table[i]->0, from, into))),
    }
}

/// The relationships after the first `n` were handled, one after the other.
pub open spec fn relinked(
    table: Seq<Option<EdgeModel>>,
    from: Seq<char>,
    into: Seq<char>,
    n: nat,
) -> Seq<Option<EdgeModel>>
    decreases n,
{
    if n == 0 {
        table
    } else {
        relinked_at(relinked(table, from, into, (n - 1) as nat), n - 1, from, into)
    }
}

/// How many of the first `n` relationships meet a fate.
pub open spec fn fates(
    table: Seq<Option<EdgeModel>>,
    from: Seq<char>,
    into: Seq<char>,
    n: nat,
    wanted: Fate,
) -> nat
    decreases n,
{
    if n == 0 {
        0
    } else {
        let before = relinked(table, from, into, (n - 1) as nat);
        fates(table, from, into, (n - 1) as nat, wanted) + if fate(before, n - 1, from, into)
            == wanted {
            1nat
        } else {
            0nat
        }
    }
}

/// What is written for one relationship.
pub enum EdgeWrite {
    /// It is taken out of use.
    Tombstone {
        /// Id.
        id: String,
    },
    /// It gets new ends.
    Repoint {
        /// Id.
        id: String,
        /// Entity on the one side.
        subject: String,
        /// Entity on the other side.
        object: String,
    },
}

/// The model of what is written for one relationship.
pub enum WriteModel {
    /// It is taken out of use.
    Tombstone(Seq<char>),
    /// It gets new ends.
    Repoint(Seq<char>, Seq<char>, Seq<char>),
}

/// The model of what is written for one relationship.
pub open spec fn write_model(write: EdgeWrite) -> WriteModel {
    match write {
        EdgeWrite::Tombstone { id } => WriteModel::Tombstone(id@),
        EdgeWrite::Repoint { id, subject, object } => WriteModel::Repoint(id@, subject@, object@),
    }
}

/// The models of what is written.
pub open spec fn write_models(list: Seq<EdgeWrite>) -> Seq<WriteModel> {
    list.map_values(|w: EdgeWrite| write_model(w))
}

/// What is written for the first `n` relationships.
pub open spec fn edge_writes(
    table: Seq<Option<EdgeModel>>,
    from: Seq<char>,
    into: Seq<char>,
    n: nat,
) -> Seq<WriteModel>
    decreases n,
{
    if n == 0 {
        Seq::empty()
    } else {
        let before = relinked(table, from, into, (n - 1) as nat);
        let list = edge_writes(table, from, into, (n - 1) as nat);
        match fate(before, n - 1, from, into) {
            Fate::Kept => list,
            Fate::Moved => {
                let edge = moved(before[n - 1]->0, from, into);
                list.push(WriteModel::Repoint(edge.id, edge.subject, edge.object))
            },
            _ => list.push(WriteModel::Tombstone(before[n - 1]->0.id)),
        }
    }
}

/// What a relinking does.
pub struct Relinking {
    /// What is written, in order.
    pub writes: Vec<EdgeWrite>,
    /// Relationships moved.
    pub repointed: usize,
    /// Relationships taken out of use because another one says the same.
    pub tombstoned_duplicate: usize,
    /// Relationships taken out of use because they would lead to themselves.
    pub tombstoned_self_loop: usize,
}

fn is_said_elsewhere(
    table: &Vec<Option<Edge>>,
    at: usize,
    subject: &str,
    relation: &str,
    object: &str,
) -> (r: bool)
    ensures
        r == exists|j: int|
            0 <= j < table@.len() && j != at && (#[trigger] slot_models(table@)[j] matches Some(
                other,
            ) && other.subject == subject@ && other.relation == relation@ && other.object
                == object@),
{
    let ghost models = slot_models(table@);
    for j in 0..table.len()
        invariant
            models == slot_models(table@),
            forall|k: int|
                0 <= k < j && k != at ==> !(#[trigger] models[k] matches Some(other)
                    && other.subject == subject@ && other.relation == relation@ && other.object
                    == object@),
    {
        assert(models[j as int] == slot_model(table@[j as int]));
        if j != at {
            if let Some(other) = &table[j] {
                if text_eq(other.subject.as_str(), subject) && text_eq(
                    other.relation.as_str(),
                    relation,
                ) && text_eq(other.object.as_str(), object) {
                    return true;
                }
            }
        }
    }
    false
}

proof fn lemma_fates_bound(
    table: Seq<Option<EdgeModel>>,
    from: Seq<char>,
    into: Seq<char>,
    n: nat,
    wanted: Fate,
)
    ensures
        fates(table, from, into, n, wanted) <= n,
    decreases n,
{
    if n > 0 {
        lemma_fates_bound(table, from, into, (n - 1) as nat, wanted);
    }
}

fn open_slots(edges: &Vec<Edge>) -> (r: Vec<Option<Edge>>)
    ensures
        slot_models(r@) == in_use(edges@),
{
    let ghost wanted = in_use(edges@);
    let mut out: Vec<Option<Edge>> = Vec::new();
    assert(slot_models(out@) =~= wanted.take(0));
    for i in 0..edges.len()
        invariant
            wanted == in_use(edges@),
            slot_models(out@) == wanted.take(i as int),
    {
        let ghost before = out@;
        out.push(
            Some(
                Edge {
                    id: edges[i].id.clone(),
                    subject: edges[i].subject.clone(),
                    relation: edges[i].relation.clone(),
                    object: edges[i].object.clone(),
                },
            ),
        );
        assert(slot_models(out@) =~= slot_models(before).push(wanted[i as int]));
        assert(wanted.take(i + 1) =~= wanted.take(i as int).push(wanted[i as int]));
    }
    assert(wanted.take(edges@.len() as int) =~= wanted);
    out
}

/// What one step of a relinking does.
struct Step {
    fate: Fate,
    write: Option<EdgeWrite>,
}

fn relink_step(table: &mut Vec<Option<Edge>>, at: usize, from: &str, into: &str) -> (r: Step)
    requires
        at < old(table)@.len(),
    ensures
        r.fate == fate(slot_models(old(table)@), at as int, from@, into@),
        slot_models(final(table)@) == relinked_at(
            slot_models(old(table)@),
            at as int,
            from@,
            into@,
        ),
        match r.fate {
            Fate::Kept => r.write is None,
            Fate::Moved => {
                let edge = moved(slot_models(old(table)@)[at as int]->0, from@, into@);
                r.write is Some && write_model(r.write->0) == WriteModel::Repoint(
                    edge.id,
                    edge.subject,
                    edge.object,
                )
            },
            _ => r.write is Some && write_model(r.write->0) == WriteModel::Tombstone(
                slot_models(old(table)@)[at as int]->0.id,
            ),
        },
{
    let ghost models = slot_models(table@);
    assert(models[at as int] == slot_model(table@[at as int]));
    let (id, subject, relation, object): (String, String, String, String) = match &table[at] {
        None => {
            return Step { fate: Fate::Kept, write: None };
        },
        Some(edge) => (
            edge.id.clone(),
            edge.subject.clone(),
            edge.relation.clone(),
            edge.object.clone(),
        ),
    };
    let at_subject: bool = text_eq(subject.as_str(), from);
    let at_object: bool = text_eq(object.as_str(), from);
    if !at_subject && !at_object {
        return Step { fate: Fate::Kept, write: None };
    }
    let new_subject = if at_subject {
        into.to_owned()
    } else {
        subject
    };
    let new_object = if at_object {
        into.to_owned()
    } else {
        object
    };
    let ghost edge = moved(models[at as int]->0, from@, into@);
    if text_eq(new_subject.as_str(), new_object.as_str()) {
        table.set(at, None);
        assert(slot_models(table@) =~= models.update(at as int, None));
        return Step { fate: Fate::SelfLoop, write: Some(EdgeWrite::Tombstone { id }) };
    }
    let elsewhere: bool = is_said_elsewhere(
        table,
        at,
        new_subject.as_str(),
        relation.as_str(),
        new_object.as_str(),
    );
    proof {
        if said_elsewhere(models, at as int, edge) {
            let j = choose|j: int|
                0 <= j < models.len() && j != at && (#[trigger] models[j] matches Some(other)
                    && same_claim(other, edge));
            assert(models[j] is Some);
        }
        if elsewhere {
            let j = choose|j: int|
                0 <= j < table@.len() && j != at && (#[trigger] slot_models(table@)[j] matches Some(
                    other,
                ) && other.subject == new_subject@ && other.relation == relation@ && other.object
                    == new_object@);
            assert(same_claim(models[j]->0, edge));
        }
    }
    if elsewhere {
        table.set(at, None);
        assert(slot_models(table@) =~= models.update(at as int, None));
        return Step { fate: Fate::Duplicate, write: Some(EdgeWrite::Tombstone { id }) };
    }
    let write = EdgeWrite::Repoint {
        id: id.clone(),
        subject: new_subject.clone(),
        object: new_object.clone(),
    };
    table.set(at, Some(Edge { id, subject: new_subject, relation, object: new_object }));
    assert(slot_models(table@) =~= models.update(at as int, Some(edge)));
    Step { fate: Fate::Moved, write: Some(write) }
}

/// Moves the relationships of one entity to another. The active relationships of
/// the space are given in the order of their ids.
pub fn relink_active_relationships(edges: &Vec<Edge>, from: &str, into: &str) -> (r: Relinking)
    ensures
        write_models(r.writes@) == edge_writes(in_use(edges@), from@, into@, edges@.len()),
        r.repointed == fates(in_use(edges@), from@, into@, edges@.len(), Fate::Moved),
        r.tombstoned_duplicate == fates(in_use(edges@), from@, into@, edges@.len(), Fate::Duplicate),
        r.tombstoned_self_loop == fates(in_use(edges@), from@, into@, edges@.len(), Fate::SelfLoop),
{
    let ghost table = in_use(edges@);
    let mut slots = open_slots(edges);
    assert(slot_models(slots@).len() == slots@.len());
    let mut writes: Vec<EdgeWrite> = Vec::new();
    let mut repointed: usize = 0;
    let mut duplicate: usize = 0;
    let mut self_loop: usize = 0;
    assert(write_models(writes@) =~= Seq::empty());
    for i in 0..edges.len()
        invariant
            table == in_use(edges@),
            slots@.len() == edges@.len(),
            slot_models(slots@) == relinked(table, from@, into@, i as nat),
            write_models(writes@) == edge_writes(table, from@, into@, i as nat),
            repointed == fates(table, from@, into@, i as nat, Fate::Moved),
            duplicate == fates(table, from@, into@, i as nat, Fate::Duplicate),
            self_loop == fates(table, from@, into@, i as nat, Fate::SelfLoop),
    {
        proof {
            lemma_fates_bound(table, from@, into@, i as nat, Fate::Moved);
            lemma_fates_bound(table, from@, into@, i as nat, Fate::Duplicate);
            lemma_fates_bound(table, from@, into@, i as nat, Fate::SelfLoop);
        }
        let ghost before = slots@;
        let step = relink_step(&mut slots, i, from, into);
        assert(slot_models(slots@).len() == slots@.len());
        assert(slot_models(before).len() == before.len());
        match step.fate {
            Fate::Kept => {},
            Fate::SelfLoop => {
                self_loop = self_loop + 1;
            },
            Fate::Duplicate => {
                duplicate = duplicate + 1;
            },
            Fate::Moved => {
                repointed = repointed + 1;
            },
        }
        if let Some(write) = step.write {
            let ghost before_writes = writes@;
            let ghost model = write_model(write);
            writes.push(write);
            assert(write_models(writes@) =~= write_models(before_writes).push(model));
        }
    }
    Relinking {
        writes,
        repointed,
        tombstoned_duplicate: duplicate,
        tombstoned_self_loop: self_loop,
    }
}

proof fn lemma_relinked_len(
    table: Seq<Option<EdgeModel>>,
    from: Seq<char>,
    into: Seq<char>,
    n: nat,
)
    requires
        n <= table.len(),
    ensures
        relinked(table, from, into, n).len() == table.len(),
    decreases n,
{
    if n > 0 {
        lemma_relinked_len(table, from, into, (n - 1) as nat);
    }
}

proof fn lemma_relinked_frame(
    table: Seq<Option<EdgeModel>>,
    from: Seq<char>,
    into: Seq<char>,
    n: nat,
    k: int,
)
    requires
        n <= table.len(),
        from != into,
        0 <= k < table.len(),
    ensures
        k >= n ==> relinked(table, from, into, n)[k] == table[k],
        k < n ==> (relinked(table, from, into, n)[k] matches Some(edge) ==> !touches(edge, from)),
        (table[k] matches Some(edge) && !touches(edge, from)) ==> relinked(table, from, into, n)[k]
            == table[k],
        table[k] is None ==> relinked(table, from, into, n)[k] is None,
    decreases n,
{
    if n > 0 {
        lemma_relinked_frame(table, from, into, (n - 1) as nat, k);
        lemma_relinked_len(table, from, into, (n - 1) as nat);
    }
}

/// After a merge no active relationship has the merged entity at an end, and a
/// relationship that had nothing to do with it is as before.
pub proof fn law_merge_leaves_no_edge(
    table: Seq<Option<EdgeModel>>,
    from: Seq<char>,
    into: Seq<char>,
    k: int,
)
    requires
        from != into,
        0 <= k < table.len(),
    ensures
        ({
            let after = relinked(table, from, into, table.len());
            &&& after.len() == table.len()
            &&& after[k] matches Some(edge) ==> !touches(edge, from)
            &&& (table[k] matches Some(edge) && !touches(edge, from)) ==> after[k] == table[k]
        }),
{
    lemma_relinked_len(table, from, into, table.len());
    lemma_relinked_frame(table, from, into, table.len(), k);
}

/// Whether no two active relationships say the same.
pub open spec fn no_repeats(table: Seq<Option<EdgeModel>>) -> bool {
    forall|i: int, j: int|
        0 <= i < j < table.len() ==> !(#[trigger] table[i] matches Some(a) && (
        #[trigger] table[j] matches Some(b) && same_claim(a, b)))
}

/// Whether no active relationship leads from an entity to itself.
pub open spec fn no_loops(table: Seq<Option<EdgeModel>>) -> bool {
    forall|i: int|
        0 <= i < table.len() ==> (#[trigger] table[i] matches Some(edge) ==> edge.subject
            != edge.object)
}

proof fn lemma_relinked_clean(
    table: Seq<Option<EdgeModel>>,
    from: Seq<char>,
    into: Seq<char>,
    n: nat,
)
    requires
        n <= table.len(),
    ensures
        no_repeats(table) ==> no_repeats(relinked(table, from, into, n)),
        no_loops(table) ==> no_loops(relinked(table, from, into, n)),
    decreases n,
{
    if n > 0 {
        lemma_relinked_clean(table, from, into, (n - 1) as nat);
        lemma_relinked_len(table, from, into, (n - 1) as nat);
        let before = relinked(table, from, into, (n - 1) as nat);
        let after = relinked(table, from, into, n);
        let at = n - 1;
        if fate(before, at, from, into) == Fate::Moved {
            let edge = moved(before[at]->0, from, into);
            assert(!said_elsewhere(before, at, edge));
            if no_repeats(before) {
                assert forall|i: int, j: int| 0 <= i < j < after.len() implies !(
                #[trigger] after[i] matches Some(a) && (#[trigger] after[j] matches Some(b)
                    && same_claim(a, b))) by {
                    if i == at {
                        assert(after[j] == before[j]);
                        if before[j] is Some && same_claim(before[j]->0, edge) {
                            assert(said_elsewhere(before, at, edge));
                        }
                    } else if j == at {
                        assert(after[i] == before[i]);
                        if before[i] is Some && same_claim(before[i]->0, edge) {
                            assert(said_elsewhere(before, at, edge));
                        }
                    } else {
                        assert(after[i] == before[i]);
                        assert(after[j] == before[j]);
                    }
                }
            }
        } else if no_repeats(before) {
            assert forall|i: int, j: int| 0 <= i < j < after.len() implies !(
            #[trigger] after[i] matches Some(a) && (#[trigger] after[j] matches Some(b)
                && same_claim(a, b))) by {
                if i != at {
                    assert(after[i] == before[i]);
                }
                if j != at {
                    assert(after[j] == before[j]);
                }
                if fate(before, at, from, into) == Fate::Kept {
                    assert(after == before);
                }
            }
        }
    }
}

/// A merge brings in no two relationships that say the same and none that leads
/// from an entity to itself.
pub proof fn law_merge_keeps_graph_clean(
    table: Seq<Option<EdgeModel>>,
    from: Seq<char>,
    into: Seq<char>,
)
    ensures
        no_repeats(table) ==> no_repeats(relinked(table, from, into, table.len())),
        no_loops(table) ==> no_loops(relinked(table, from, into, table.len())),
{
    lemma_relinked_clean(table, from, into, table.len());
}

/// Names to carry over with one more: it has to say something new.
pub open spec fn with_candidate(list: Seq<AliasModel>, value: Seq<char>) -> Seq<AliasModel> {
    let alias = trimmed(value);
    let form = alias_form(alias);
    if alias.len() == 0 || form.len() == 0 || forms(list).contains(form) {
        list
    } else {
        list.push(AliasModel { alias, form })
    }
}

/// The names to carry over, each form once.
pub open spec fn candidates(values: Seq<Seq<char>>) -> Seq<AliasModel>
    decreases values.len(),
{
    if values.len() == 0 {
        Seq::empty()
    } else {
        with_candidate(candidates(values.drop_last()), values.last())
    }
}

fn has_form(list: &Vec<PreparedEntityAlias>, form: &str) -> (r: bool)
    ensures
        r == forms(alias_models(list@)).contains(form@),
{
    let ghost all = forms(alias_models(list@));
    for i in 0..list.len()
        invariant
            all == forms(alias_models(list@)),
            forall|k: int| 0 <= k < i ==> #[trigger] all[k] != form@,
    {
        assert(all[i as int] == list@[i as int].normalized_alias@);
        if text_eq(list[i].normalized_alias.as_str(), form) {
            return true;
        }
    }
    assert(all.len() == list@.len());
    false
}

/// The names of a merged entity to carry over to the other one.
pub fn merge_alias_candidates(values: &Vec<String>) -> (r: Vec<PreparedEntityAlias>)
    ensures
        alias_models(r@) == candidates(views(values@)),
{
    let ghost all = views(values@);
    let mut out: Vec<PreparedEntityAlias> = Vec::new();
    assert(alias_models(out@) =~= candidates(all.take(0)));
    for i in 0..values.len()
        invariant
            all == views(values@),
            alias_models(out@) == candidates(all.take(i as int)),
    {
        proof {
            assert(all.take(i + 1).drop_last() =~= all.take(i as int));
            assert(all.take(i + 1).last() == values@[i as int]@);
        }
        let alias = trim(values[i].as_str());
        let form = normalized_alias(alias);
        if !alias.is_empty() && !form.as_str().is_empty() && !has_form(&out, form.as_str()) {
            let ghost before = out@;
            let ghost model = AliasModel { alias: alias@, form: form@ };
            out.push(PreparedEntityAlias { alias: alias.to_owned(), normalized_alias: form });
            assert(alias_models(out@) =~= alias_models(before).push(model));
        }
    }
    assert(all.take(values@.len() as int) =~= all);
    out
}

/// How many names are new to an entity.
pub open spec fn new_names(list: Seq<AliasModel>, known: Seq<Seq<char>>) -> nat
    decreases list.len(),
{
    if list.len() == 0 {
        0
    } else {
        new_names(list.drop_last(), known) + if known.contains(list.last().form) {
            0nat
        } else {
            1nat
        }
    }
}

fn count_new_names(list: &Vec<PreparedEntityAlias>, known: &Vec<String>) -> (r: usize)
    ensures
        r == new_names(alias_models(list@), views(known@)),
{
    let ghost all = alias_models(list@);
    let mut count: usize = 0;
    for i in 0..list.len()
        invariant
            all == alias_models(list@),
            count == new_names(all.take(i as int), views(known@)),
            count <= i,
    {
        proof {
            assert(all.take(i + 1).drop_last() =~= all.take(i as int));
            assert(all.take(i + 1).last() == all[i as int]);
        }
        if !list_contains(known.as_slice(), list[i].normalized_alias.as_str()) {
            count = count + 1;
        }
    }
    assert(all.take(list@.len() as int) =~= all);
    count
}

/// Request to merge one entity into another.
pub struct EntityMergeRequest {
    /// Space.
    pub space: Option<String>,
    /// Merged entity by id.
    pub from_entity_id: Option<String>,
    /// Merged entity by key.
    pub from_entity_key: Option<String>,
    /// Other entity by id.
    pub into_entity_id: Option<String>,
    /// Other entity by key.
    pub into_entity_key: Option<String>,
    /// Report only.
    pub dry_run: bool,
    /// Whether the source comes back.
    pub include_source: bool,
}

/// What the store knows of the two entities.
pub struct MergeFacts {
    /// Whether the space exists.
    pub space_exists: bool,
    /// The merged entity.
    pub from: Option<EntityRecord>,
    /// The other entity.
    pub into: Option<EntityRecord>,
    /// The forms of the other entity's aliases.
    pub into_forms: Vec<String>,
    /// The active relationships of the space in the order of their ids.
    pub edges: Vec<Edge>,
}

/// What a merge writes and reports.
pub struct EntityMergePlan {
    /// The merged entity, which is taken out of use.
    pub from_entity_id: String,
    /// The other entity.
    pub into_entity_id: String,
    /// What is written for relationships.
    pub relinking: Relinking,
    /// Names that are carried over.
    pub aliases: Vec<PreparedEntityAlias>,
    /// Key of the merged entity.
    pub from_entity_key: String,
    /// Key of the other entity.
    pub into_entity_key: String,
    /// Names that are new to the other entity.
    pub aliases_added: usize,
    /// Whether nothing is kept.
    pub dry_run: bool,
}

/// The fault of a request to merge.
pub open spec fn merge_request_fault(request: EntityMergeRequest) -> Option<Fault> {
    first_of(
        named_entity_fault(
            "from_entity_id"@,
            text_of_string(request.from_entity_id),
            "from_entity_key"@,
            text_of_string(request.from_entity_key),
        ),
        first_of(
            named_entity_fault(
                "into_entity_id"@,
                text_of_string(request.into_entity_id),
                "into_entity_key"@,
                text_of_string(request.into_entity_key),
            ),
            space_name_fault(text_of_string(request.space)),
        ),
    )
}

/// The fault of a merge against what the store knows.
pub open spec fn merge_facts_fault(request: EntityMergeRequest, facts: MergeFacts) -> Option<Fault> {
    if !facts.space_exists {
        Some(
            Fault::NotFound("space"@, text_or(text_of_string(request.space), DEFAULT_SPACE@)),
        )
    } else if facts.from is None {
        Some(
            Fault::NotFound(
                "from_entity"@,
                named(
                    core_of(text_of_string(request.from_entity_id)),
                    core_of(text_of_string(request.from_entity_key)),
                ),
            ),
        )
    } else if facts.into is None {
        Some(
            Fault::NotFound(
                "into_entity"@,
                named(
                    core_of(text_of_string(request.into_entity_id)),
                    core_of(text_of_string(request.into_entity_key)),
                ),
            ),
        )
    } else if facts.from->0.id@ == facts.into->0.id@ {
        Some(Fault::InvalidRequest("from and into resolve to the same entity"@))
    } else if facts.from->0.status@ != "active"@ || facts.into->0.status@ != "active"@ {
        Some(Fault::Conflict("both from and into entities must be active to merge"@))
    } else {
        None
    }
}

/// The names of the merged entity: its key, its name and its aliases.
pub open spec fn carried_names(from: EntityRecord) -> Seq<Seq<char>> {
    seq![from.entity_key@, from.canonical_name@] + views(from.aliases@)
}

/// Whether a plan merges the two entities.
pub open spec fn plans_merge(
    request: EntityMergeRequest,
    facts: MergeFacts,
    plan: EntityMergePlan,
) -> bool {
    let from = facts.from->0;
    let into = facts.into->0;
    let table = in_use(facts.edges@);
    let n = facts.edges@.len();
    &&& plan.from_entity_id@ == from.id@
    &&& plan.into_entity_id@ == into.id@
    &&& write_models(plan.relinking.writes@) == edge_writes(table, from.id@, into.id@, n)
    &&& plan.relinking.repointed == fates(table, from.id@, into.id@, n, Fate::Moved)
    &&& plan.relinking.tombstoned_duplicate == fates(table, from.id@, into.id@, n, Fate::Duplicate)
    &&& plan.relinking.tombstoned_self_loop == fates(table, from.id@, into.id@, n, Fate::SelfLoop)
    &&& alias_models(plan.aliases@) == candidates(carried_names(from))
    &&& plan.aliases_added == new_names(candidates(carried_names(from)), views(facts.into_forms@))
    &&& plan.from_entity_key@ == from.entity_key@
    &&& plan.into_entity_key@ == into.entity_key@
    &&& plan.dry_run == request.dry_run
}

fn check_merge_request(request: &EntityMergeRequest) -> (r: Result<
    (String, (Option<String>, Option<String>), (Option<String>, Option<String>)),
    Error,
>)
    ensures
        match r {
            Ok((space, from, into)) => {
                &&& merge_request_fault(*request) is None
                &&& space@ == text_or(text_of_string(request.space), DEFAULT_SPACE@)
                &&& text_of_string(from.0) == core_of(text_of_string(request.from_entity_id))
                &&& text_of_string(from.1) == core_of(text_of_string(request.from_entity_key))
                &&& text_of_string(into.0) == core_of(text_of_string(request.into_entity_id))
                &&& text_of_string(into.1) == core_of(text_of_string(request.into_entity_key))
            },
            Err(e) => merge_request_fault(*request) == Some(e@),
        },
{
    let from = match normalize_named_entity(
        "from_entity_id",
        as_text(&request.from_entity_id),
        "from_entity_key",
        as_text(&request.from_entity_key),
    ) {
        Ok(pair) => pair,
        Err(e) => {
            return Err(e);
        },
    };
    let into = match normalize_named_entity(
        "into_entity_id",
        as_text(&request.into_entity_id),
        "into_entity_key",
        as_text(&request.into_entity_key),
    ) {
        Ok(pair) => pair,
        Err(e) => {
            return Err(e);
        },
    };
    let space = match normalize_space_name(as_text(&request.space)) {
        Ok(space) => text_or_default(&space, DEFAULT_SPACE),
        Err(e) => {
            return Err(e);
        },
    };
    Ok((space, from, into))
}

fn names_to_carry(from: &EntityRecord) -> (r: Vec<String>)
    ensures
        views(r@) == carried_names(*from),
{
    let ghost wanted = carried_names(*from);
    let mut out: Vec<String> = Vec::new();
    out.push(from.entity_key.clone());
    out.push(from.canonical_name.clone());
    assert(views(out@) =~= wanted.take(2));
    for i in 0..from.aliases.len()
        invariant
            wanted == carried_names(*from),
            views(out@) == wanted.take(i + 2),
    {
        let ghost before = out@;
        out.push(from.aliases[i].clone());
        assert(views(out@) =~= views(before).push(wanted[i + 2]));
        assert(wanted.take(i + 3) =~= wanted.take(i + 2).push(wanted[i + 2]));
    }
    assert(wanted.take(from.aliases@.len() as int + 2) =~= wanted);
    out
}

/// Merges one entity into another: relationships are moved, names are carried
/// over, and the merged entity is taken out of use.
pub fn merge_entity(request: &EntityMergeRequest, facts: &MergeFacts) -> (r: Result<
    EntityMergePlan,
    Error,
>)
    ensures
        match r {
            Ok(plan) => {
                &&& merge_request_fault(*request) is None
                &&& merge_facts_fault(*request, *facts) is None
                &&& plans_merge(*request, *facts, plan)
            },
            Err(e) => first_of(
                merge_request_fault(*request),
                merge_facts_fault(*request, *facts),
            ) == Some(e@),
        },
{
    let (space, from_name, into_name) = match check_merge_request(request) {
        Ok(found) => found,
        Err(e) => {
            return Err(e);
        },
    };
    if !facts.space_exists {
        return Err(not_found("space", space.as_str()));
    }
    let from = match &facts.from {
        Some(entity) => entity,
        None => {
            return Err(
                missing_entity("from_entity", as_text(&from_name.0), as_text(&from_name.1)),
            );
        },
    };
    let into = match &facts.into {
        Some(entity) => entity,
        None => {
            return Err(
                missing_entity("into_entity", as_text(&into_name.0), as_text(&into_name.1)),
            );
        },
    };
    if text_eq(from.id.as_str(), into.id.as_str()) {
        return Err(invalid("from and into resolve to the same entity"));
    }
    if !text_eq(from.status.as_str(), "active") || !text_eq(into.status.as_str(), "active") {
        return Err(
            Error::Conflict {
                message: "both from and into entities must be active to merge".to_owned(),
            },
        );
    }
    let relinking = relink_active_relationships(&facts.edges, from.id.as_str(), into.id.as_str());
    let names = names_to_carry(from);
    let aliases = merge_alias_candidates(&names);
    let aliases_added: usize = count_new_names(&aliases, &facts.into_forms);
    Ok(
        EntityMergePlan {
            from_entity_id: from.id.clone(),
            into_entity_id: into.id.clone(),
            relinking,
            aliases,
            from_entity_key: from.entity_key.clone(),
            into_entity_key: into.entity_key.clone(),
            aliases_added,
            dry_run: request.dry_run,
        },
    )
}

fn missing_entity(label: &'static str, id: Option<&str>, key: Option<&str>) -> (r: Error)
    ensures
        r@ == Fault::NotFound(
            label@,
            named(crate::json::text_of(id), crate::json::text_of(key)),
        ),
{
    match resolve_relationship_endpoint(&None, id, key, label) {
        Err(e) => e,
        Ok(text) => not_found(label, text.as_str()),
    }
}

} // verus!
