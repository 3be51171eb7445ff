//! Consolidation runs over a store.

use vstd::prelude::*;

use crate::error::{concat3, invalid, invalid2, not_found, verdict, Error, Fault};
use crate::json::{as_text, text_of_string};
use crate::pool::clone_texts;
use crate::ranking::Score;
use crate::spaces::{normalize_space_name, space_name_fault};
use crate::sql::{
    clause_models, clause_values, collect_values, conjunction, join_clauses, on_text, one_of_clause,
    one_of_texts, plain, plain_clause, text_clause, value_models, Clause, ClauseModel, SqlModel,
    SqlValue, Statement,
};
use crate::text::{decimal, decimal_of, list_contains, text_eq, trim, trimmed, views};
use crate::validate::{
    first_of, limit_i64, metadata_fault, refuse_if, refused_if, reject_all_spaces_sentinel,
    sentinel_fault, validate_optional_metadata_value,
};
use crate::vocabulary::{MAX_DREAM_DUPLICATE_IDS, MAX_DREAM_MAX_MEMORIES, SHORT_TERM_SILO};
use crate::writing::{ensure_silo_exists, silo_fault};

verus! {

/// Moves short-term memories that are recalled often to the durable silo.
pub const DREAM_TASK_PROMOTE: &'static str = "promote";

/// Expires memories whose time has come.
pub const DREAM_TASK_EXPIRE: &'static str = "expire";

/// Rebuilds the full-text indexes.
pub const DREAM_TASK_REINDEX: &'static str = "reindex";

/// Proposes exact duplicates.
pub const DREAM_TASK_DEDUPE: &'static str = "dedupe";

/// Repairs the graph and projects links onto it.
pub const DREAM_TASK_GRAPH: &'static str = "graph";

/// Links memories that share topic tags.
pub const DREAM_TASK_LINK: &'static str = "link";

/// Every task.
pub const DREAM_TASK_ALL: &'static str = "all";

/// A tag on more active memories than this is not discriminative: linking every
/// pair that shares it would flood the graph.
pub const DREAM_LINK_MAX_TAG_MEMORIES: usize = 25;

/// The shared topic tags that an automatic link needs.
pub const DREAM_LINK_MIN_SHARED_TAGS: usize = 2;

/// Recall events that promote a short-term memory, by default.
pub const DEFAULT_PROMOTE_THRESHOLD: usize = 3;

/// The last rank at which a recall event counts toward promotion, by default.
pub const DEFAULT_PROMOTE_RANK_CAP: usize = 3;

/// The greatest floor of a promotion score: the key of two.
pub const MAX_PROMOTE_SCORE_KEY: i64 = 0x4000_0000_0000_0000;

/// Request for a consolidation run.
pub struct DreamRequest {
    /// Space; all spaces where none is named.
    pub space: Option<String>,
    /// Silos of the space; all where none is named.
    pub silos: Vec<String>,
    /// Tasks; all where none is named.
    pub tasks: Vec<String>,
    /// Memories that each task handles at most.
    pub max_memories: usize,
    /// Report only.
    pub dry_run: bool,
    /// Whether pinned memories expire too.
    pub include_pinned: bool,
    /// Sessions that have to have recalled a memory.
    pub promote_threshold: usize,
    /// Score from which a recall event counts.
    pub promote_score_floor: Score,
    /// Rank up to which a recall event counts.
    pub promote_rank_cap: usize,
}

/// The tasks in the order in which they run. Links are written before the graph
/// task projects them.
pub open spec fn task_order() -> Seq<Seq<char>> {
    seq![
        DREAM_TASK_PROMOTE@,
        DREAM_TASK_EXPIRE@,
        DREAM_TASK_REINDEX@,
        DREAM_TASK_DEDUPE@,
        DREAM_TASK_LINK@,
        DREAM_TASK_GRAPH@,
    ]
}

/// The fault of one requested task.
pub open spec fn task_fault(task: Seq<char>) -> Option<Fault> {
    let name = trimmed(task);
    if name.len() == 0 {
        Some(Fault::InvalidRequest("dream tasks must be non-empty"@))
    } else if name == DREAM_TASK_ALL@ || task_order().contains(name) {
        None
    } else {
        Some(Fault::InvalidRequest("unsupported dream task: "@ + name))
    }
}

/// The fault of the first faulty task.
pub open spec fn tasks_fault(tasks: Seq<Seq<char>>) -> Option<Fault>
    decreases tasks.len(),
{
    if tasks.len() == 0 {
        None
    } else {
        first_of(tasks_fault(tasks.drop_last()), task_fault(tasks.last()))
    }
}

/// Whether a task is requested by name.
pub open spec fn requested(tasks: Seq<Seq<char>>, name: Seq<char>) -> bool {
    exists|i: int| 0 <= i < tasks.len() && trimmed(#[trigger] tasks[i]) == name
}

/// A list with one more text, where a condition holds.
pub open spec fn push_if(list: Seq<Seq<char>>, condition: bool, text: Seq<char>) -> Seq<Seq<char>> {
    if condition {
        list.push(text)
    } else {
        list
    }
}

/// The requested tasks in the order in which they run, each once.
pub open spec fn chosen_tasks(tasks: Seq<Seq<char>>) -> Seq<Seq<char>> {
    let a = push_if(
        Seq::empty(),
        requested(tasks, DREAM_TASK_PROMOTE@),
        DREAM_TASK_PROMOTE@,
    );
    let b = push_if(a, requested(tasks, DREAM_TASK_EXPIRE@), DREAM_TASK_EXPIRE@);
    let c = push_if(b, requested(tasks, DREAM_TASK_REINDEX@), DREAM_TASK_REINDEX@);
    let d = push_if(c, requested(tasks, DREAM_TASK_DEDUPE@), DREAM_TASK_DEDUPE@);
    let e = push_if(d, requested(tasks, DREAM_TASK_LINK@), DREAM_TASK_LINK@);
    push_if(e, requested(tasks, DREAM_TASK_GRAPH@), DREAM_TASK_GRAPH@)
}

/// The tasks of a run: all of them where none is named or all are asked for.
pub open spec fn normal_tasks(tasks: Seq<Seq<char>>) -> Seq<Seq<char>> {
    if tasks.len() == 0 || requested(tasks, DREAM_TASK_ALL@) {
        task_order()
    } else {
        chosen_tasks(tasks)
    }
}

fn is_task(name: &str) -> (r: bool)
    ensures
        r == task_order().contains(name@),
{
    let ghost order = task_order();
    proof {
        assert(order[0] == DREAM_TASK_PROMOTE@);
        assert(order[1] == DREAM_TASK_EXPIRE@);
        assert(order[2] == DREAM_TASK_REINDEX@);
        assert(order[3] == DREAM_TASK_DEDUPE@);
        assert(order[4] == DREAM_TASK_LINK@);
        assert(order[5] == DREAM_TASK_GRAPH@);
    }
    text_eq(name, DREAM_TASK_PROMOTE) || text_eq(name, DREAM_TASK_EXPIRE) || text_eq(
        name,
        DREAM_TASK_REINDEX,
    ) || text_eq(name, DREAM_TASK_DEDUPE) || text_eq(name, DREAM_TASK_LINK) || text_eq(
        name,
        DREAM_TASK_GRAPH,
    )
}

fn check_tasks(tasks: &Vec<String>) -> (r: Result<(), Error>)
    ensures
        verdict(r) == tasks_fault(views(tasks@)),
{
    let ghost all = views(tasks@);
    for i in 0..tasks.len()
        invariant
            all == views(tasks@),
            tasks_fault(all.take(i as int)) is None,
    {
        proof {
            assert(all.take(i + 1).drop_last() =~= all.take(i as int));
            assert(all.take(i + 1).last() == tasks@[i as int]@);
        }
        let name = trim(tasks[i].as_str());
        if name.unicode_len() == 0 {
            proof {
                lemma_tasks_prefix(all, i + 1);
            }
            return Err(invalid("dream tasks must be non-empty"));
        }
        if !text_eq(name, DREAM_TASK_ALL) && !is_task(name) {
            proof {
                lemma_tasks_prefix(all, i + 1);
            }
            return Err(invalid2("unsupported dream task: ", name));
        }
    }
    assert(all.take(tasks@.len() as int) =~= all);
    Ok(())
}

proof fn lemma_tasks_prefix(tasks: Seq<Seq<char>>, n: int)
    requires
        0 <= n <= tasks.len(),
        tasks_fault(tasks.take(n)) is Some,
    ensures
        tasks_fault(tasks) == tasks_fault(tasks.take(n)),
    decreases tasks.len() - n,
{
    if n < tasks.len() {
        assert(tasks.take(n + 1).drop_last() =~= tasks.take(n));
        lemma_tasks_prefix(tasks, n + 1);
    } else {
        assert(tasks.take(n) =~= tasks);
    }
}

fn is_requested(tasks: &Vec<String>, name: &str) -> (r: bool)
    ensures
        r == requested(views(tasks@), name@),
{
    for i in 0..tasks.len()
        invariant
            forall|k: int| 0 <= k < i ==> trimmed(#[trigger] views(tasks@)[k]) != name@,
    {
        assert(views(tasks@)[i as int] == tasks@[i as int]@);
        if text_eq(trim(tasks[i].as_str()), name) {
            return true;
        }
    }
    false
}

fn push_task(list: &mut Vec<String>, condition: bool, name: &str)
    ensures
        views(final(list)@) == push_if(views(old(list)@), condition, name@),
{
    if condition {
        let ghost before = list@;
        list.push(name.to_owned());
        assert(views(list@) =~= views(before).push(name@));
    }
}

/// Brings requested tasks into the order in which they run, each once.
pub fn normalize_dream_tasks(tasks: &Vec<String>) -> (r: Result<Vec<String>, Error>)
    ensures
        match r {
            Ok(list) => tasks_fault(views(tasks@)) is None && views(list@) == normal_tasks(
                views(tasks@),
            ),
            Err(e) => tasks_fault(views(tasks@)) == Some(e@),
        },
{
    if let Err(e) = check_tasks(tasks) {
        return Err(e);
    }
    let all: bool = tasks.len() == 0 || is_requested(tasks, DREAM_TASK_ALL);
    let mut list: Vec<String> = Vec::new();
    assert(views(list@) =~= Seq::empty());
    push_task(&mut list, all || is_requested(tasks, DREAM_TASK_PROMOTE), DREAM_TASK_PROMOTE);
    push_task(&mut list, all || is_requested(tasks, DREAM_TASK_EXPIRE), DREAM_TASK_EXPIRE);
    push_task(&mut list, all || is_requested(tasks, DREAM_TASK_REINDEX), DREAM_TASK_REINDEX);
    push_task(&mut list, all || is_requested(tasks, DREAM_TASK_DEDUPE), DREAM_TASK_DEDUPE);
    push_task(&mut list, all || is_requested(tasks, DREAM_TASK_LINK), DREAM_TASK_LINK);
    push_task(&mut list, all || is_requested(tasks, DREAM_TASK_GRAPH), DREAM_TASK_GRAPH);
    proof {
        if all {
            assert(views(list@) =~= task_order());
        }
    }
    Ok(list)
}

proof fn lemma_trimmed_word(s: Seq<char>)
    requires
        s.len() > 0,
        !crate::text::is_space(s[0]),
        !crate::text::is_space(s.last()),
    ensures
        trimmed(s) == s,
{
    crate::text::lemma_trimmed_fixed(s);
}

proof fn lemma_task_names()
    ensures
        forall|i: int| 0 <= i < 6 ==> trimmed(#[trigger] task_order()[i]) == task_order()[i],
        forall|i: int| 0 <= i < 6 ==> #[trigger] task_order()[i] != DREAM_TASK_ALL@,
        forall|i: int, j: int|
            0 <= i < j < 6 ==> #[trigger] task_order()[i] != #[trigger] task_order()[j],
{
    reveal_strlit("promote");
    reveal_strlit("expire");
    reveal_strlit("reindex");
    reveal_strlit("dedupe");
    reveal_strlit("link");
    reveal_strlit("graph");
    reveal_strlit("all");
    let order = task_order();
    assert forall|i: int| 0 <= i < 6 implies trimmed(#[trigger] order[i]) == order[i] by {
        lemma_trimmed_word(order[i]);
    }
    assert(order[0].len() == 7 && order[1].len() == 6 && order[2].len() == 7 && order[3].len()
        == 6 && order[4].len() == 4 && order[5].len() == 5 && DREAM_TASK_ALL@.len() == 3);
    assert(order[0][0] == 'p' && order[2][0] == 'r' && order[1][0] == 'e' && order[3][0] == 'd');
}

proof fn lemma_push_requested(list: Seq<Seq<char>>, text: Seq<char>, name: Seq<char>)
    ensures
        requested(list.push(text), name) == (requested(list, name) || trimmed(text) == name),
{
    let more = list.push(text);
    assert(more[list.len() as int] == text);
    if requested(list, name) {
        let i = choose|i: int| 0 <= i < list.len() && trimmed(#[trigger] list[i]) == name;
        assert(more[i] == list[i]);
    }
    if requested(more, name) {
        let i = choose|i: int| 0 <= i < more.len() && trimmed(#[trigger] more[i]) == name;
        if i < list.len() {
            assert(list[i] == more[i]);
        }
    }
}

proof fn lemma_push_if_requested(
    list: Seq<Seq<char>>,
    condition: bool,
    text: Seq<char>,
    name: Seq<char>,
)
    requires
        trimmed(text) == text,
    ensures
        requested(push_if(list, condition, text), name) == (requested(list, name) || (condition
            && text == name)),
{
    lemma_push_requested(list, text, name);
}

proof fn lemma_chosen(tasks: Seq<Seq<char>>, name: Seq<char>)
    ensures
        requested(chosen_tasks(tasks), name) == (task_order().contains(name) && requested(
            tasks,
            name,
        )),
{
    lemma_task_names();
    let order = task_order();
    assert forall|i: int| 0 <= i < 6 implies trimmed(#[trigger] order[i]) == order[i] by {}
    assert(order[0] == DREAM_TASK_PROMOTE@ && order[1] == DREAM_TASK_EXPIRE@ && order[2]
        == DREAM_TASK_REINDEX@ && order[3] == DREAM_TASK_DEDUPE@ && order[4] == DREAM_TASK_LINK@
        && order[5] == DREAM_TASK_GRAPH@);
    let z = Seq::<Seq<char>>::empty();
    let a = push_if(z, requested(tasks, DREAM_TASK_PROMOTE@), DREAM_TASK_PROMOTE@);
    let b = push_if(a, requested(tasks, DREAM_TASK_EXPIRE@), DREAM_TASK_EXPIRE@);
    let c = push_if(b, requested(tasks, DREAM_TASK_REINDEX@), DREAM_TASK_REINDEX@);
    let d = push_if(c, requested(tasks, DREAM_TASK_DEDUPE@), DREAM_TASK_DEDUPE@);
    let e = push_if(d, requested(tasks, DREAM_TASK_LINK@), DREAM_TASK_LINK@);
    lemma_push_if_requested(z, requested(tasks, DREAM_TASK_PROMOTE@), DREAM_TASK_PROMOTE@, name);
    lemma_push_if_requested(a, requested(tasks, DREAM_TASK_EXPIRE@), DREAM_TASK_EXPIRE@, name);
    lemma_push_if_requested(b, requested(tasks, DREAM_TASK_REINDEX@), DREAM_TASK_REINDEX@, name);
    lemma_push_if_requested(c, requested(tasks, DREAM_TASK_DEDUPE@), DREAM_TASK_DEDUPE@, name);
    lemma_push_if_requested(d, requested(tasks, DREAM_TASK_LINK@), DREAM_TASK_LINK@, name);
    lemma_push_if_requested(e, requested(tasks, DREAM_TASK_GRAPH@), DREAM_TASK_GRAPH@, name);
    assert(!requested(z, name));
}

proof fn lemma_faultless_task(tasks: Seq<Seq<char>>, i: int)
    requires
        tasks_fault(tasks) is None,
        0 <= i < tasks.len(),
    ensures
        task_fault(tasks[i]) is None,
    decreases tasks.len(),
{
    if i < tasks.len() - 1 {
        lemma_faultless_task(tasks.drop_last(), i);
    }
}

/// Tasks that are in order stay as they are, and none is lost or added: a task
/// runs exactly where it is named, or where all tasks are asked for.
pub proof fn law_dream_tasks_are_canonical(tasks: Seq<Seq<char>>)
    requires
        tasks_fault(tasks) is None,
    ensures
        normal_tasks(tasks).len() > 0,
        normal_tasks(normal_tasks(tasks)) == normal_tasks(tasks),
        forall|name: Seq<char>| #[trigger]
            requested(normal_tasks(tasks), name) <==> task_order().contains(name) && (tasks.len()
                == 0 || requested(tasks, DREAM_TASK_ALL@) || requested(tasks, name)),
{
    lemma_task_names();
    let order = task_order();
    let normal = normal_tasks(tasks);
    assert forall|name: Seq<char>| #[trigger]
        requested(order, name) <==> order.contains(name) by {
        if order.contains(name) {
            let i = choose|i: int| 0 <= i < order.len() && order[i] == name;
            assert(trimmed(order[i]) == name);
        }
        if requested(order, name) {
            let i = choose|i: int| 0 <= i < order.len() && trimmed(#[trigger] order[i]) == name;
            assert(order[i] == name);
        }
    }
    assert(order[0] == DREAM_TASK_PROMOTE@ && order[1] == DREAM_TASK_EXPIRE@ && order[2]
        == DREAM_TASK_REINDEX@ && order[3] == DREAM_TASK_DEDUPE@ && order[4] == DREAM_TASK_LINK@
        && order[5] == DREAM_TASK_GRAPH@);
    assert forall|name: Seq<char>| #[trigger]
        requested(normal, name) <==> order.contains(name) && (tasks.len() == 0 || requested(
            tasks,
            DREAM_TASK_ALL@,
        ) || requested(tasks, name)) by {
        lemma_chosen(tasks, name);
    }
    if tasks.len() == 0 || requested(tasks, DREAM_TASK_ALL@) {
        assert(!order.contains(DREAM_TASK_ALL@));
        assert(!requested(order, DREAM_TASK_ALL@));
        assert(requested(order, DREAM_TASK_PROMOTE@) && requested(order, DREAM_TASK_EXPIRE@)
            && requested(order, DREAM_TASK_REINDEX@) && requested(order, DREAM_TASK_DEDUPE@)
            && requested(order, DREAM_TASK_LINK@) && requested(order, DREAM_TASK_GRAPH@));
        assert(chosen_tasks(order) =~= order);
    } else {
        lemma_faultless_task(tasks, 0);
        let first = trimmed(tasks[0]);
        assert(requested(tasks, first));
        assert(requested(normal, first));
        assert(!order.contains(DREAM_TASK_ALL@));
        assert(!requested(normal, DREAM_TASK_ALL@));
        assert(requested(normal, DREAM_TASK_PROMOTE@) == requested(tasks, DREAM_TASK_PROMOTE@));
        assert(requested(normal, DREAM_TASK_EXPIRE@) == requested(tasks, DREAM_TASK_EXPIRE@));
        assert(requested(normal, DREAM_TASK_REINDEX@) == requested(tasks, DREAM_TASK_REINDEX@));
        assert(requested(normal, DREAM_TASK_DEDUPE@) == requested(tasks, DREAM_TASK_DEDUPE@));
        assert(requested(normal, DREAM_TASK_LINK@) == requested(tasks, DREAM_TASK_LINK@));
        assert(requested(normal, DREAM_TASK_GRAPH@) == requested(tasks, DREAM_TASK_GRAPH@));
        assert(chosen_tasks(normal) =~= chosen_tasks(tasks));
    }
}

/// The fault of the first faulty silo name.
pub open spec fn silo_names_fault(silos: Seq<Seq<char>>) -> Option<Fault>
    decreases silos.len(),
{
    if silos.len() == 0 {
        None
    } else {
        first_of(
            silo_names_fault(silos.drop_last()),
            metadata_fault("silo"@, Some(silos.last())),
        )
    }
}

/// Whether a floor of promotion scores is between zero and two.
pub open spec fn valid_floor(score: Score) -> bool {
    0 <= score.key <= MAX_PROMOTE_SCORE_KEY
}

/// The fault of a request for a run.
pub open spec fn dream_request_fault(request: DreamRequest) -> Option<Fault> {
    first_of(
        metadata_fault("space"@, text_of_string(request.space)),
        first_of(
            sentinel_fault(text_of_string(request.space)),
            first_of(
                silo_names_fault(views(request.silos@)),
                first_of(
                    refused_if(
                        request.silos@.len() > 0 && request.space is None,
                        "dream silo filters require a space in v0.1"@,
                    ),
                    first_of(
                        refused_if(
                            request.max_memories == 0 || request.max_memories
                                > MAX_DREAM_MAX_MEMORIES,
                            "dream max_memories must be between 1 and "@ + decimal(
                                MAX_DREAM_MAX_MEMORIES as nat,
                            ),
                        ),
                        first_of(
                            tasks_fault(views(request.tasks@)),
                            first_of(
                                refused_if(
                                    request.promote_threshold == 0,
                                    "dream promote_threshold must be at least 1"@,
                                ),
                                first_of(
                                    refused_if(
                                        request.promote_rank_cap == 0,
                                        "dream promote_rank_cap must be at least 1"@,
                                    ),
                                    refused_if(
                                        !valid_floor(request.promote_score_floor),
                                        "dream promote_score_floor must be between 0.0 and 2.0"@,
                                    ),
                                ),
                            ),
                        ),
                    ),
                ),
            ),
        ),
    )
}

proof fn lemma_silo_names_prefix(silos: Seq<Seq<char>>, n: int)
    requires
        0 <= n <= silos.len(),
        silo_names_fault(silos.take(n)) is Some,
    ensures
        silo_names_fault(silos) == silo_names_fault(silos.take(n)),
    decreases silos.len() - n,
{
    if n < silos.len() {
        assert(silos.take(n + 1).drop_last() =~= silos.take(n));
        lemma_silo_names_prefix(silos, n + 1);
    } else {
        assert(silos.take(n) =~= silos);
    }
}

fn check_silo_names(silos: &Vec<String>) -> (r: Result<(), Error>)
    ensures
        verdict(r) == silo_names_fault(views(silos@)),
{
    let ghost all = views(silos@);
    for i in 0..silos.len()
        invariant
            all == views(silos@),
            silo_names_fault(all.take(i as int)) is None,
    {
        proof {
            assert(all.take(i + 1).drop_last() =~= all.take(i as int));
            assert(all.take(i + 1).last() == silos@[i as int]@);
        }
        if let Err(e) = validate_optional_metadata_value("silo", Some(silos[i].as_str())) {
            proof {
                lemma_silo_names_prefix(all, i + 1);
            }
            return Err(e);
        }
    }
    assert(all.take(silos@.len() as int) =~= all);
    Ok(())
}

/// Checks a request for a run.
pub fn validate_dream_request(request: &DreamRequest) -> (r: Result<(), Error>)
    ensures
        verdict(r) == dream_request_fault(*request),
{
    if let Err(e) = validate_optional_metadata_value("space", as_text(&request.space)) {
        return Err(e);
    }
    if let Err(e) = reject_all_spaces_sentinel(as_text(&request.space)) {
        return Err(e);
    }
    if let Err(e) = check_silo_names(&request.silos) {
        return Err(e);
    }
    if request.silos.len() > 0 && request.space.is_none() {
        return Err(invalid("dream silo filters require a space in v0.1"));
    }
    if request.max_memories == 0 || request.max_memories > MAX_DREAM_MAX_MEMORIES {
        let number = decimal_of(MAX_DREAM_MAX_MEMORIES as u64);
        return Err(invalid2("dream max_memories must be between 1 and ", number.as_str()));
    }
    if let Err(e) = check_tasks(&request.tasks) {
        return Err(e);
    }
    if request.promote_threshold == 0 {
        return Err(invalid("dream promote_threshold must be at least 1"));
    }
    if request.promote_rank_cap == 0 {
        return Err(invalid("dream promote_rank_cap must be at least 1"));
    }
    refuse_if(
        request.promote_score_floor.key < 0 || request.promote_score_floor.key
            > MAX_PROMOTE_SCORE_KEY,
        "dream promote_score_floor must be between 0.0 and 2.0",
    )
}

/// What the store knows of the named space.
pub struct DreamFacts {
    /// Whether the space exists.
    pub space_exists: bool,
    /// The silos that it has.
    pub silos: Vec<String>,
}

/// A request that was checked.
pub struct PreparedDreamRequest {
    /// Space; all spaces where none is named.
    pub space: Option<String>,
    /// Silos of the space.
    pub silos: Vec<String>,
    /// Tasks in the order in which they run.
    pub tasks: Vec<String>,
    /// Memories that each task handles at most.
    pub max_memories: usize,
    /// Report only.
    pub dry_run: bool,
    /// Whether pinned memories expire too.
    pub include_pinned: bool,
    /// Sessions that have to have recalled a memory.
    pub promote_threshold: usize,
    /// Score from which a recall event counts.
    pub promote_score_floor: Score,
    /// Rank up to which a recall event counts.
    pub promote_rank_cap: usize,
}

/// The fault of the first silo that the space does not have.
pub open spec fn missing_silo_fault(
    space: Seq<char>,
    silos: Seq<Seq<char>>,
    known: Seq<Seq<char>>,
) -> Option<Fault>
    decreases silos.len(),
{
    if silos.len() == 0 {
        None
    } else {
        first_of(
            missing_silo_fault(space, silos.drop_last(), known),
            silo_fault(true, known.contains(silos.last()), space, silos.last()),
        )
    }
}

/// The fault of a request against what the store knows.
pub open spec fn dream_scope_fault(request: DreamRequest, facts: DreamFacts) -> Option<Fault> {
    first_of(
        space_name_fault(text_of_string(request.space)),
        match text_of_string(request.space) {
            Some(space) => if facts.space_exists {
                missing_silo_fault(space, views(request.silos@), views(facts.silos@))
            } else {
                Some(Fault::NotFound("space"@, space))
            },
            None => None,
        },
    )
}

/// Whether a prepared request is what a request asks for.
pub open spec fn prepares(request: DreamRequest, prepared: PreparedDreamRequest) -> bool {
    &&& text_of_string(prepared.space) == text_of_string(request.space)
    &&& views(prepared.silos@) == views(request.silos@)
    &&& views(prepared.tasks@) == normal_tasks(views(request.tasks@))
    &&& prepared.max_memories == request.max_memories
    &&& prepared.dry_run == request.dry_run
    &&& prepared.include_pinned == request.include_pinned
    &&& prepared.promote_threshold == request.promote_threshold
    &&& prepared.promote_score_floor == request.promote_score_floor
    &&& prepared.promote_rank_cap == request.promote_rank_cap
}

proof fn lemma_missing_silo_prefix(
    space: Seq<char>,
    silos: Seq<Seq<char>>,
    known: Seq<Seq<char>>,
    n: int,
)
    requires
        0 <= n <= silos.len(),
        missing_silo_fault(space, silos.take(n), known) is Some,
    ensures
        missing_silo_fault(space, silos, known) == missing_silo_fault(space, silos.take(n), known),
    decreases silos.len() - n,
{
    if n < silos.len() {
        assert(silos.take(n + 1).drop_last() =~= silos.take(n));
        lemma_missing_silo_prefix(space, silos, known, n + 1);
    } else {
        assert(silos.take(n) =~= silos);
    }
}

fn check_silos(space: &str, silos: &Vec<String>, known: &Vec<String>) -> (r: Result<(), Error>)
    ensures
        verdict(r) == missing_silo_fault(space@, views(silos@), views(known@)),
{
    let ghost all = views(silos@);
    for i in 0..silos.len()
        invariant
            all == views(silos@),
            missing_silo_fault(space@, all.take(i as int), views(known@)) is None,
    {
        proof {
            assert(all.take(i + 1).drop_last() =~= all.take(i as int));
            assert(all.take(i + 1).last() == silos@[i as int]@);
        }
        let exists_here: bool = list_contains(known.as_slice(), silos[i].as_str());
        if let Err(e) = ensure_silo_exists(true, exists_here, space, silos[i].as_str()) {
            proof {
                lemma_missing_silo_prefix(space@, all, views(known@), i + 1);
            }
            return Err(e);
        }
    }
    assert(all.take(silos@.len() as int) =~= all);
    Ok(())
}

/// Checks a request and resolves it against what the store knows.
pub fn prepare_dream_request(request: &DreamRequest, facts: &DreamFacts) -> (r: Result<
    PreparedDreamRequest,
    Error,
>)
    ensures
        match r {
            Ok(prepared) => {
                &&& dream_request_fault(*request) is None
                &&& dream_scope_fault(*request, *facts) is None
                &&& prepares(*request, prepared)
            },
            Err(e) => first_of(dream_request_fault(*request), dream_scope_fault(*request, *facts))
                == Some(e@),
        },
{
    if let Err(e) = validate_dream_request(request) {
        return Err(e);
    }
    let space = match normalize_space_name(as_text(&request.space)) {
        Ok(space) => space,
        Err(e) => {
            return Err(e);
        },
    };
    if let Some(name) = &space {
        if !facts.space_exists {
            return Err(not_found("space", name.as_str()));
        }
        if let Err(e) = check_silos(name.as_str(), &request.silos, &facts.silos) {
            return Err(e);
        }
    }
    let tasks = match normalize_dream_tasks(&request.tasks) {
        Ok(tasks) => tasks,
        Err(e) => {
            return Err(e);
        },
    };
    Ok(
        PreparedDreamRequest {
            space,
            silos: clone_texts(&request.silos),
            tasks,
            max_memories: request.max_memories,
            dry_run: request.dry_run,
            include_pinned: request.include_pinned,
            promote_threshold: request.promote_threshold,
            promote_score_floor: request.promote_score_floor,
            promote_rank_cap: request.promote_rank_cap,
        },
    )
}

/// Whether a run does a task.
pub open spec fn has_task(prepared: PreparedDreamRequest, task: Seq<char>) -> bool {
    views(prepared.tasks@).contains(task)
}

/// Whether a run does a task.
pub fn dream_has_task(prepared: &PreparedDreamRequest, task: &str) -> (r: bool)
    ensures
        r == has_task(*prepared, task@),
{
    list_contains(prepared.tasks.as_slice(), task)
}

/// The conditions on the silos of a run.
pub open spec fn silo_filters(prepared: PreparedDreamRequest) -> Seq<ClauseModel> {
    if prepared.silos@.len() == 0 {
        Seq::empty()
    } else {
        seq![one_of_texts("m.silo_name"@, views(prepared.silos@))]
    }
}

/// The conditions on the memories of a run.
pub open spec fn memory_filters(prepared: PreparedDreamRequest) -> Seq<ClauseModel> {
    match text_of_string(prepared.space) {
        Some(space) => seq![on_text("m.space_name = ?"@, space)] + silo_filters(prepared),
        None => silo_filters(prepared),
    }
}

/// Adds the conditions on the silos of a run.
pub fn append_dream_silo_filters(clauses: &mut Vec<Clause>, prepared: &PreparedDreamRequest)
    ensures
        clause_models(final(clauses)@) == clause_models(old(clauses)@) + silo_filters(*prepared),
{
    let ghost before = clauses@;
    if prepared.silos.len() > 0 {
        clauses.push(one_of_clause("m.silo_name", &prepared.silos));
    }
    assert(clause_models(clauses@) =~= clause_models(before) + silo_filters(*prepared));
}

/// Adds the conditions on the memories of a run.
pub fn append_dream_memory_filters(clauses: &mut Vec<Clause>, prepared: &PreparedDreamRequest)
    ensures
        clause_models(final(clauses)@) == clause_models(old(clauses)@) + memory_filters(*prepared),
{
    let ghost before = clauses@;
    if let Some(space) = &prepared.space {
        clauses.push(text_clause("m.space_name = ?", space.as_str()));
        assert(clause_models(clauses@) =~= clause_models(before).push(
            on_text("m.space_name = ?"@, space@),
        ));
    }
    append_dream_silo_filters(clauses, prepared);
    assert(clause_models(clauses@) =~= clause_models(before) + memory_filters(*prepared));
}

/// One more than a limit, to see whether there is more.
pub open spec fn scan_limit(max: usize) -> int {
    if max == usize::MAX {
        max as int
    } else {
        max + 1
    }
}

fn limit_of_scan(max: usize) -> (r: usize)
    ensures
        r == scan_limit(max),
{
    if max == usize::MAX {
        max
    } else {
        max + 1
    }
}

/// Whether a statement scans for rows under all conditions, up to a limit.
pub open spec fn scans(
    statement: Statement,
    head: Seq<char>,
    clauses: Seq<ClauseModel>,
    tail: Seq<char>,
    limit: int,
) -> bool {
    &&& statement.sql@ == head + conjunction(clauses) + tail
    &&& value_models(statement.values@) == clause_values(clauses).push(SqlModel::Integer(limit))
}

fn scan_statement(head: &str, clauses: &Vec<Clause>, tail: &str, limit: i64) -> (r: Statement)
    ensures
        scans(r, head@, clause_models(clauses@), tail@, limit as int),
{
    let conditions = join_clauses(clauses);
    let sql = concat3(head, conditions.as_str(), tail);
    let mut values = collect_values(clauses);
    let ghost before = values@;
    values.push(SqlValue::Integer(limit));
    assert(value_models(values@) =~= value_models(before).push(SqlModel::Integer(limit as int)));
    Statement { sql, values }
}

/// The condition that enough sessions recalled a memory well.
pub const RECALLED_OFTEN: &'static str = "(SELECT COUNT(DISTINCT r.session_id) FROM recall_events r WHERE r.memory_id = m.id AND r.kind = 'retrieved' AND r.session_id IS NOT NULL AND r.score >= ? AND r.rank <= ?) >= ?";

/// The conditions on memories to promote.
pub open spec fn promote_clauses(prepared: PreparedDreamRequest) -> Seq<ClauseModel> {
    seq![
        plain("m.status = 'active'"@),
        on_text("m.silo_name = ?"@, SHORT_TERM_SILO@),
        ClauseModel {
            text: RECALLED_OFTEN@,
            values: seq![
                SqlModel::Real(prepared.promote_score_floor),
                SqlModel::Integer(prepared.promote_rank_cap as int),
                SqlModel::Integer(prepared.promote_threshold as int),
            ],
        },
    ] + memory_filters(prepared)
}

/// The fault of a promotion whose bounds no database integer holds.
pub open spec fn promote_fault(prepared: PreparedDreamRequest) -> Option<Fault> {
    refused_if(
        prepared.promote_rank_cap > i64::MAX || prepared.promote_threshold > i64::MAX
            || scan_limit(prepared.max_memories) > i64::MAX,
        "limit overflowed i64"@,
    )
}

/// The statement that finds memories to promote.
pub fn promote_query(prepared: &PreparedDreamRequest) -> (r: Result<Statement, Error>)
    ensures
        match r {
            Ok(statement) => promote_fault(*prepared) is None && scans(
                statement,
                "SELECT m.id FROM memories m WHERE "@,
                promote_clauses(*prepared),
                " ORDER BY m.id ASC LIMIT ?"@,
                scan_limit(prepared.max_memories),
            ),
            Err(e) => promote_fault(*prepared) == Some(e@),
        },
{
    let rank_cap: i64 = match limit_i64(prepared.promote_rank_cap) {
        Ok(n) => n,
        Err(e) => {
            return Err(e);
        },
    };
    let threshold: i64 = match limit_i64(prepared.promote_threshold) {
        Ok(n) => n,
        Err(e) => {
            return Err(e);
        },
    };
    let limit: i64 = match limit_i64(limit_of_scan(prepared.max_memories)) {
        Ok(n) => n,
        Err(e) => {
            return Err(e);
        },
    };
    let mut bounds: Vec<SqlValue> = Vec::new();
    bounds.push(SqlValue::Real(prepared.promote_score_floor));
    bounds.push(SqlValue::Integer(rank_cap));
    bounds.push(SqlValue::Integer(threshold));
    assert(value_models(bounds@) =~= seq![
        SqlModel::Real(prepared.promote_score_floor),
        SqlModel::Integer(prepared.promote_rank_cap as int),
        SqlModel::Integer(prepared.promote_threshold as int),
    ]);
    let mut clauses: Vec<Clause> = Vec::new();
    clauses.push(plain_clause("m.status = 'active'"));
    clauses.push(text_clause("m.silo_name = ?", SHORT_TERM_SILO));
    clauses.push(Clause { text: RECALLED_OFTEN.to_owned(), values: bounds });
    let ghost before = clauses@;
    append_dream_memory_filters(&mut clauses, prepared);
    assert(clause_models(clauses@) =~= promote_clauses(*prepared));
    Ok(
        scan_statement(
            "SELECT m.id FROM memories m WHERE ",
            &clauses,
            " ORDER BY m.id ASC LIMIT ?",
            limit,
        ),
    )
}

/// The conditions on memories to expire.
pub open spec fn expire_clauses(prepared: PreparedDreamRequest, now: Seq<char>) -> Seq<ClauseModel> {
    seq![
        plain("m.status = 'active'"@),
        plain("m.expires_at IS NOT NULL"@),
        on_text("julianday(m.expires_at) <= julianday(?)"@, now),
    ] + memory_filters(prepared)
}

/// The statement that finds memories to expire.
pub fn expire_query(prepared: &PreparedDreamRequest, now: &str) -> (r: Result<Statement, Error>)
    ensures
        match r {
            Ok(statement) => scans(
                statement,
                "SELECT m.id, m.pinned FROM memories m WHERE "@,
                expire_clauses(*prepared, now@),
                " ORDER BY m.expires_at ASC, m.id ASC LIMIT ?"@,
                scan_limit(prepared.max_memories),
            ),
            Err(e) => scan_limit(prepared.max_memories) > i64::MAX && e@ == Fault::InvalidRequest(
                "limit overflowed i64"@,
            ),
        },
{
    let limit: i64 = match limit_i64(limit_of_scan(prepared.max_memories)) {
        Ok(n) => n,
        Err(e) => {
            return Err(e);
        },
    };
    let mut clauses: Vec<Clause> = Vec::new();
    clauses.push(plain_clause("m.status = 'active'"));
    clauses.push(plain_clause("m.expires_at IS NOT NULL"));
    clauses.push(text_clause("julianday(m.expires_at) <= julianday(?)", now));
    append_dream_memory_filters(&mut clauses, prepared);
    assert(clause_models(clauses@) =~= expire_clauses(*prepared, now@));
    Ok(
        scan_statement(
            "SELECT m.id, m.pinned FROM memories m WHERE ",
            &clauses,
            " ORDER BY m.expires_at ASC, m.id ASC LIMIT ?",
            limit,
        ),
    )
}

/// What comes before the conditions in the search for duplicate groups.
pub const DUPLICATES_HEAD: &'static str = "SELECT m.space_name, v.content_sha256, COUNT(*), COALESCE(SUM(m.pinned), 0) FROM memories m JOIN memory_versions v ON v.id = m.active_version_id WHERE ";

/// What comes after the conditions in the search for duplicate groups.
pub const DUPLICATES_TAIL: &'static str = " GROUP BY m.space_name, v.content_sha256 HAVING COUNT(*) > 1 ORDER BY m.space_name ASC, v.content_sha256 ASC LIMIT ?";

/// The statement that finds groups of memories with equal content.
pub fn duplicates_query(prepared: &PreparedDreamRequest) -> (r: Result<Statement, Error>)
    ensures
        match r {
            Ok(statement) => scans(
                statement,
                DUPLICATES_HEAD@,
                seq![plain("m.status = 'active'"@)] + memory_filters(*prepared),
                DUPLICATES_TAIL@,
                scan_limit(prepared.max_memories),
            ),
            Err(e) => scan_limit(prepared.max_memories) > i64::MAX && e@ == Fault::InvalidRequest(
                "limit overflowed i64"@,
            ),
        },
{
    let limit: i64 = match limit_i64(limit_of_scan(prepared.max_memories)) {
        Ok(n) => n,
        Err(e) => {
            return Err(e);
        },
    };
    let mut clauses: Vec<Clause> = Vec::new();
    clauses.push(plain_clause("m.status = 'active'"));
    append_dream_memory_filters(&mut clauses, prepared);
    assert(clause_models(clauses@) =~= seq![plain("m.status = 'active'"@)] + memory_filters(
        *prepared,
    ));
    Ok(scan_statement(DUPLICATES_HEAD, &clauses, DUPLICATES_TAIL, limit))
}

/// What comes before the conditions in the search for the members of a group.
pub const MEMBERS_HEAD: &'static str = "SELECT m.id FROM memories m JOIN memory_versions v ON v.id = m.active_version_id WHERE ";

/// The statement that finds the members of a group: pinned ones first.
pub fn duplicate_members_query(
    prepared: &PreparedDreamRequest,
    space: &str,
    content_sha256: &str,
) -> (r: Statement)
    ensures
        scans(
            r,
            MEMBERS_HEAD@,
            seq![
                plain("m.status = 'active'"@),
                on_text("m.space_name = ?"@, space@),
                on_text("v.content_sha256 = ?"@, content_sha256@),
            ] + silo_filters(*prepared),
            " ORDER BY m.pinned DESC, m.id ASC LIMIT ?"@,
            MAX_DREAM_DUPLICATE_IDS + 2,
        ),
{
    let mut clauses: Vec<Clause> = Vec::new();
    clauses.push(plain_clause("m.status = 'active'"));
    clauses.push(text_clause("m.space_name = ?", space));
    clauses.push(text_clause("v.content_sha256 = ?", content_sha256));
    append_dream_silo_filters(&mut clauses, prepared);
    assert(clause_models(clauses@) =~= seq![
        plain("m.status = 'active'"@),
        on_text("m.space_name = ?"@, space@),
        on_text("v.content_sha256 = ?"@, content_sha256@),
    ] + silo_filters(*prepared));
    scan_statement(
        MEMBERS_HEAD,
        &clauses,
        " ORDER BY m.pinned DESC, m.id ASC LIMIT ?",
        MAX_DREAM_DUPLICATE_IDS as i64 + 2,
    )
}

/// The conditions on the tags that link memories: topic tags of active memories
/// with an entity. Tags of sessions, of proposals and of bookkeeping say how a
/// memory came about, not what it means.
pub open spec fn link_scope(prepared: PreparedDreamRequest) -> Seq<ClauseModel> {
    seq![
        plain("m.status = 'active'"@),
        plain("m.entity_key IS NOT NULL AND TRIM(m.entity_key) <> ''"@),
        plain("mt.tag NOT LIKE 'session:%'"@),
        plain("mt.tag NOT LIKE 'proposal-kind-%'"@),
        plain(BOOKKEEPING_TAGS@),
    ] + memory_filters(prepared)
}

/// The condition that a tag is none of bookkeeping.
pub const BOOKKEEPING_TAGS: &'static str = "LOWER(mt.tag) NOT IN ('action', 'decision', 'summary', 'reference', 'fact', 'lesson', 'continuity', 'preference', 'task', 'status', 'done', 'resolved', 'review', 'commit', 'synthesis', 'synthesis-derived', 'built', 'implemented')";

/// What comes before the conditions in the search for pairs to link.
pub const LINK_HEAD: &'static str = "WITH scoped AS (
    SELECT mt.memory_id AS mid, mt.tag AS tag, m.entity_key AS ek, m.space_name AS sp
      FROM memory_tags mt
      JOIN memories m ON m.id = mt.memory_id
     WHERE ";

/// What comes between the conditions and the greatest number of memories of a tag.
pub const LINK_COMMON: &'static str = "
),
disc AS (
    SELECT sp, tag FROM scoped GROUP BY sp, tag HAVING COUNT(*) <= ";

/// What comes between the greatest number of memories of a tag and the least
/// number of shared tags. A pair that is linked already is left out.
pub const LINK_PAIRS: &'static str = "
),
tagged AS (
    SELECT scoped.mid, scoped.tag, scoped.ek, scoped.sp
      FROM scoped
      JOIN disc ON disc.sp = scoped.sp AND disc.tag = scoped.tag
)
SELECT t1.mid, t2.mid, COUNT(*), json_group_array(t1.tag)
  FROM tagged t1
  JOIN tagged t2 ON t1.tag = t2.tag AND t1.mid < t2.mid
 WHERE t1.ek <> t2.ek
   AND t1.sp = t2.sp
   AND NOT EXISTS (
       SELECT 1 FROM memory_links existing
        WHERE existing.link_type = 'related_to'
          AND ((existing.src_memory_id = t1.mid AND existing.dst_memory_id = t2.mid)
            OR (existing.src_memory_id = t2.mid AND existing.dst_memory_id = t1.mid))
   )
 GROUP BY t1.mid, t2.mid
HAVING COUNT(*) >= ";

/// What comes between the least number of shared tags and the limit.
pub const LINK_TAIL: &'static str = "
 ORDER BY COUNT(*) DESC, t1.mid ASC, t2.mid ASC
 LIMIT ";

/// The statement that finds pairs to link.
pub fn tag_link_query(prepared: &PreparedDreamRequest) -> (r: Statement)
    ensures
        r.sql@ == LINK_HEAD@ + conjunction(link_scope(*prepared)) + LINK_COMMON@ + decimal(
            DREAM_LINK_MAX_TAG_MEMORIES as nat,
        ) + LINK_PAIRS@ + decimal(DREAM_LINK_MIN_SHARED_TAGS as nat) + LINK_TAIL@ + decimal(
            scan_limit(prepared.max_memories) as nat,
        ),
        value_models(r.values@) == clause_values(link_scope(*prepared)),
{
    let mut clauses: Vec<Clause> = Vec::new();
    clauses.push(plain_clause("m.status = 'active'"));
    clauses.push(plain_clause("m.entity_key IS NOT NULL AND TRIM(m.entity_key) <> ''"));
    clauses.push(plain_clause("mt.tag NOT LIKE 'session:%'"));
    clauses.push(plain_clause("mt.tag NOT LIKE 'proposal-kind-%'"));
    clauses.push(plain_clause(BOOKKEEPING_TAGS));
    append_dream_memory_filters(&mut clauses, prepared);
    assert(clause_models(clauses@) =~= link_scope(*prepared));
    let conditions = join_clauses(&clauses);
    let max_tag = decimal_of(DREAM_LINK_MAX_TAG_MEMORIES as u64);
    let min_shared = decimal_of(DREAM_LINK_MIN_SHARED_TAGS as u64);
    let limit = decimal_of(limit_of_scan(prepared.max_memories) as u64);
    let mut sql = concat3(LINK_HEAD, conditions.as_str(), LINK_COMMON);
    sql.append(max_tag.as_str());
    sql.append(LINK_PAIRS);
    sql.append(min_shared.as_str());
    sql.append(LINK_TAIL);
    sql.append(limit.as_str());
    Statement { sql, values: collect_values(&clauses) }
}

/// The condition on the space of a graph row: none where the run is over all
/// spaces.
pub open spec fn space_clause(column: Seq<char>, space: Option<Seq<char>>) -> ClauseModel {
    match space {
        Some(name) => on_text(column + " = ?1"@, name),
        None => plain("1=1"@),
    }
}

/// The condition on the space of a graph row.
pub fn optional_space_predicate(column: &str, space: Option<&str>) -> (r: Clause)
    ensures
        r@ == space_clause(column@, crate::json::text_of(space)),
{
    match space {
        Some(name) => {
            let text = crate::error::concat(column, " = ?1");
            text_clause(text.as_str(), name)
        },
        None => plain_clause("1=1"),
    }
}

/// What a search of the graph task looks for.
#[derive(Debug, Clone, Copy, PartialEq, Eq, Structural)]
pub enum GraphScan {
    /// Entities without an active memory and without an active relationship.
    Orphans,
    /// Relationships without an active entity at one end.
    Dangling,
    /// Relationships whose memory is gone or inactive.
    InactiveEvidence,
    /// Relationships that links between memories suggest, once for each pair of
    /// entities and type of link.
    Proposals,
}

/// The column of the space, and what comes before and after its condition.
pub open spec fn graph_scan_texts(scan: GraphScan) -> (Seq<char>, Seq<char>, Seq<char>) {
    match scan {
        GraphScan::Orphans => ("e.space_name"@, ORPHANS_HEAD@, ORPHANS_TAIL@),
        GraphScan::Dangling => ("r.space_name"@, DANGLING_HEAD@, DANGLING_TAIL@),
        GraphScan::InactiveEvidence => ("r.space_name"@, INACTIVE_HEAD@, INACTIVE_TAIL@),
        GraphScan::Proposals => ("src.space_name"@, PROPOSALS_HEAD@, PROPOSALS_TAIL@),
    }
}

/// What comes before the condition in the search for orphans.
pub const ORPHANS_HEAD: &'static str = "SELECT e.id FROM entities e WHERE ";

/// What comes after the condition in the search for orphans.
pub const ORPHANS_TAIL: &'static str = "
  AND e.status = 'active'
  AND NOT EXISTS (
    SELECT 1 FROM memories m
     WHERE m.space_name = e.space_name AND m.entity_key = e.entity_key AND m.status = 'active'
  )
  AND NOT EXISTS (
    SELECT 1 FROM relationships r
     WHERE r.space_name = e.space_name
       AND (r.subject_entity_id = e.id OR r.object_entity_id = e.id)
       AND r.status = 'active'
  )
ORDER BY e.space_name ASC, e.entity_key ASC, e.id ASC
LIMIT ";

/// What comes before the condition in the search for dangling relationships.
pub const DANGLING_HEAD: &'static str = "SELECT r.id
  FROM relationships r
  LEFT JOIN entities subject
    ON subject.id = r.subject_entity_id AND subject.space_name = r.space_name
  LEFT JOIN entities object
    ON object.id = r.object_entity_id AND object.space_name = r.space_name
 WHERE ";

/// What comes after the condition in the search for dangling relationships.
pub const DANGLING_TAIL: &'static str = "
  AND (
    subject.id IS NULL OR object.id IS NULL
    OR subject.status != 'active' OR object.status != 'active'
  )
  AND r.status = 'active'
ORDER BY r.space_name ASC, r.id ASC
LIMIT ";

/// What comes before the condition in the search for relationships without
/// active evidence.
pub const INACTIVE_HEAD: &'static str = "SELECT r.id
  FROM relationships r
  LEFT JOIN memories m
    ON m.id = r.memory_id AND m.space_name = r.space_name
 WHERE ";

/// What comes after the condition in the search for relationships without active
/// evidence.
pub const INACTIVE_TAIL: &'static str = "
  AND r.memory_id IS NOT NULL
  AND (m.id IS NULL OR m.status != 'active')
  AND r.status = 'active'
ORDER BY r.space_name ASC, r.id ASC
LIMIT ";

/// What comes before the condition in the search for suggested relationships.
pub const PROPOSALS_HEAD: &'static str = "SELECT src.space_name, MIN(l.src_memory_id), MIN(l.dst_memory_id), l.link_type,
       src.entity_key, l.link_type, dst.entity_key, COUNT(*)
  FROM memory_links l
  JOIN memories src ON src.id = l.src_memory_id
  JOIN memories dst ON dst.id = l.dst_memory_id
  JOIN entities subject ON subject.space_name = src.space_name
       AND subject.entity_key = src.entity_key
       AND subject.status = 'active'
  JOIN entities object ON object.space_name = dst.space_name
       AND object.entity_key = dst.entity_key
       AND object.status = 'active'
  LEFT JOIN relationships existing ON existing.space_name = src.space_name
       AND existing.subject_entity_id = subject.id
       AND existing.relation_type = l.link_type
       AND existing.object_entity_id = object.id
       AND existing.status = 'active'
 WHERE l.status = 'active'
   AND src.status = 'active'
   AND dst.status = 'active'
   AND src.space_name = dst.space_name
   AND src.entity_key IS NOT NULL
   AND TRIM(src.entity_key) <> ''
   AND dst.entity_key IS NOT NULL
   AND TRIM(dst.entity_key) <> ''
   AND src.entity_key <> dst.entity_key
   AND existing.id IS NULL
   AND ";

/// What comes after the condition in the search for suggested relationships.
pub const PROPOSALS_TAIL: &'static str = "
 GROUP BY src.space_name, src.entity_key, l.link_type, dst.entity_key
 ORDER BY src.space_name ASC, l.link_type ASC, src.entity_key ASC, dst.entity_key ASC
 LIMIT ";

/// The statement of a search of the graph task.
pub fn graph_scan_query(prepared: &PreparedDreamRequest, scan: GraphScan) -> (r: Statement)
    ensures
        ({
            let texts = graph_scan_texts(scan);
            let clause = space_clause(texts.0, text_of_string(prepared.space));
            &&& r.sql@ == texts.1 + clause.text + texts.2 + decimal(
                scan_limit(prepared.max_memories) as nat,
            )
            &&& value_models(r.values@) == clause.values
        }),
{
    let (column, head, tail): (&'static str, &'static str, &'static str) = match scan {
        GraphScan::Orphans => ("e.space_name", ORPHANS_HEAD, ORPHANS_TAIL),
        GraphScan::Dangling => ("r.space_name", DANGLING_HEAD, DANGLING_TAIL),
        GraphScan::InactiveEvidence => ("r.space_name", INACTIVE_HEAD, INACTIVE_TAIL),
        GraphScan::Proposals => ("src.space_name", PROPOSALS_HEAD, PROPOSALS_TAIL),
    };
    let clause = optional_space_predicate(column, as_text(&prepared.space));
    let limit = decimal_of(limit_of_scan(prepared.max_memories) as u64);
    let mut sql = concat3(head, clause.text.as_str(), tail);
    sql.append(limit.as_str());
    Statement { sql, values: clause.values }
}

/// The condition that no entity has the key that a memory names.
pub const UNPROJECTED: &'static str = "NOT EXISTS (SELECT 1 FROM entities e WHERE e.space_name = m.space_name AND e.entity_key = m.entity_key)";

/// What comes before the conditions in the search for missing entities.
pub const MISSING_HEAD: &'static str = "SELECT DISTINCT m.space_name, m.entity_key FROM memories m WHERE ";

/// What comes after the conditions in the search for missing entities.
pub const MISSING_TAIL: &'static str = " ORDER BY m.space_name ASC, m.entity_key ASC LIMIT ";

/// The conditions on memories that name a missing entity.
pub open spec fn missing_clauses(prepared: PreparedDreamRequest) -> Seq<ClauseModel> {
    seq![
        plain("m.status = 'active'"@),
        plain("m.entity_key IS NOT NULL"@),
        plain("TRIM(m.entity_key) <> ''"@),
        plain(UNPROJECTED@),
    ] + memory_filters(prepared)
}

/// The statement that finds missing entities.
pub fn missing_entities_query(prepared: &PreparedDreamRequest) -> (r: Statement)
    ensures
        r.sql@ == MISSING_HEAD@ + conjunction(missing_clauses(*prepared)) + MISSING_TAIL@ + decimal(
            scan_limit(prepared.max_memories) as nat,
        ),
        value_models(r.values@) == clause_values(missing_clauses(*prepared)),
{
    let mut clauses: Vec<Clause> = Vec::new();
    clauses.push(plain_clause("m.status = 'active'"));
    clauses.push(plain_clause("m.entity_key IS NOT NULL"));
    clauses.push(plain_clause("TRIM(m.entity_key) <> ''"));
    clauses.push(plain_clause(UNPROJECTED));
    append_dream_memory_filters(&mut clauses, prepared);
    assert(clause_models(clauses@) =~= missing_clauses(*prepared));
    let conditions = join_clauses(&clauses);
    let limit = decimal_of(limit_of_scan(prepared.max_memories) as u64);
    let mut sql = concat3(MISSING_HEAD, conditions.as_str(), MISSING_TAIL);
    sql.append(limit.as_str());
    Statement { sql, values: collect_values(&clauses) }
}

} // verus!
