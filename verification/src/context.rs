//! Reading the graph as a whole: prompt packs around an entity, and the
//! projection of everything that is connected.

use vstd::prelude::*;

use crate::error::{concat, verdict, Error, Fault};
use crate::json::{text_of, text_of_string};
use crate::merging::EntityRecord;
use crate::neighbors::{
    check_range, graph_neighbors, neighbors_fault, range_fault, reports_walk, walk_fault,
    GraphEntityRecord, GraphNeighborsReport, GraphNeighborsRequest, GraphRelationshipRecord,
};
use crate::pack::{behind, format_pack_markdown, pack_text, result_ids, result_lines, result_scores};
use crate::pool::clone_text;
use crate::ranking::Score;
use crate::requests::{PackModel, PackReport, PackRequest, SearchFilters, SearchResult};
use crate::text::{list_contains, text_eq, views};
use crate::validate::first_of;
use crate::vocabulary::{MAX_PACK_CHARS, MAX_PACK_MEMORIES};

verus! {

/// Request for a prompt pack around an entity.
pub struct GraphContextRequest {
    /// The walk from the entity.
    pub walk: GraphNeighborsRequest,
    /// Memories in the pack at most.
    pub max_memories: usize,
    /// Characters in the pack at most.
    pub max_chars: usize,
}

/// The fault of a request for a pack.
pub open spec fn context_fault(request: GraphContextRequest) -> Option<Fault> {
    first_of(
        neighbors_fault(request.walk),
        first_of(
            range_fault("max_memories"@, request.max_memories as nat, MAX_PACK_MEMORIES as nat),
            range_fault("max_chars"@, request.max_chars as nat, MAX_PACK_CHARS as nat),
        ),
    )
}

/// Checks a request for a pack.
pub fn validate_graph_context_request(request: &GraphContextRequest) -> (r: Result<(), Error>)
    ensures
        verdict(r) == context_fault(*request),
{
    if let Err(e) = crate::neighbors::prepare_graph_neighbors_request(&request.walk) {
        return Err(e);
    }
    if let Err(e) = check_range("max_memories", request.max_memories, MAX_PACK_MEMORIES) {
        return Err(e);
    }
    check_range("max_chars", request.max_chars, MAX_PACK_CHARS)
}

/// A list with a text at its end, where the list does not hold it.
pub open spec fn with_new(list: Seq<Seq<char>>, text: Seq<char>) -> Seq<Seq<char>> {
    if list.contains(text) {
        list
    } else {
        list.push(text)
    }
}

fn push_new(list: &mut Vec<String>, text: &str)
    ensures
        views(final(list)@) == with_new(views(old(list)@), text@),
{
    let ghost before = list@;
    if !list_contains(list.as_slice(), text) {
        list.push(text.to_owned());
        assert(views(list@) =~= views(before).push(text@));
    }
}

/// The memories that support relationships, each once, in order.
pub open spec fn evidence_ids(rows: Seq<GraphRelationshipRecord>) -> Seq<Seq<char>>
    decreases rows.len(),
{
    if rows.len() == 0 {
        Seq::empty()
    } else {
        let before = evidence_ids(rows.drop_last());
        match rows.last().relationship.memory_id {
            Some(id) => with_new(before, id@),
            None => before,
        }
    }
}

/// The memories that support the relationships of a walk.
pub fn graph_context_evidence_memory_ids(graph: &GraphNeighborsReport) -> (r: Vec<String>)
    ensures
        views(r@) == evidence_ids(graph.relationships@),
{
    let ghost all = graph.relationships@;
    let mut ids: Vec<String> = Vec::new();
    assert(views(ids@) =~= evidence_ids(all.take(0)));
    for i in 0..graph.relationships.len()
        invariant
            all == graph.relationships@,
            views(ids@) == evidence_ids(all.take(i as int)),
    {
        assert(all.take(i + 1).drop_last() =~= all.take(i as int));
        assert(all.take(i + 1).last() == all[i as int]);
        if let Some(id) = &graph.relationships[i].relationship.memory_id {
            push_new(&mut ids, id.as_str());
        }
    }
    assert(all.take(all.len() as int) =~= all);
    ids
}

/// A list with the new ones of other texts at its end, up to a length.
pub open spec fn with_all(list: Seq<Seq<char>>, texts: Seq<Seq<char>>, cap: int) -> Seq<Seq<char>>
    decreases texts.len(),
{
    if texts.len() == 0 {
        list
    } else {
        let before = with_all(list, texts.drop_last(), cap);
        if before.len() >= cap {
            before
        } else {
            with_new(before, texts.last())
        }
    }
}

fn push_all(list: &mut Vec<String>, texts: &Vec<String>, cap: usize)
    ensures
        views(final(list)@) == with_all(views(old(list)@), views(texts@), cap as int),
{
    let ghost start = views(list@);
    let ghost all = views(texts@);
    assert(with_all(start, all.take(0), cap as int) =~= start);
    for i in 0..texts.len()
        invariant
            all == views(texts@),
            views(list@) == with_all(start, all.take(i as int), cap as int),
    {
        assert(all.take(i + 1).drop_last() =~= all.take(i as int));
        assert(all.take(i + 1).last() == texts@[i as int]@);
        assert(views(list@).len() == list@.len());
        if list.len() < cap {
            push_new(list, texts[i].as_str());
        }
    }
    assert(all.take(texts@.len() as int) =~= all);
}

/// Whether one of the first `n` entities has a key.
pub open spec fn key_before(entities: Seq<GraphEntityRecord>, n: int, key: Seq<char>) -> bool {
    exists|i: int| 0 <= i < n && (#[trigger] entities[i]).entity.entity_key@ == key
}

/// The memories read for an entity.
pub open spec fn read_for(found: Seq<Vec<String>>, i: int) -> Seq<Seq<char>> {
    if i < found.len() {
        views(found[i]@)
    } else {
        Seq::empty()
    }
}

/// The memories of the first `n` entities, each once, in order, up to a number.
/// Entities with one key count once.
pub open spec fn entity_ids(
    entities: Seq<GraphEntityRecord>,
    found: Seq<Vec<String>>,
    cap: int,
    n: nat,
) -> Seq<Seq<char>>
    decreases n,
{
    if n == 0 {
        Seq::empty()
    } else {
        let before = entity_ids(entities, found, cap, (n - 1) as nat);
        if key_before(entities, n - 1, entities[n - 1].entity.entity_key@) {
            before
        } else {
            with_all(before, read_for(found, n - 1), cap)
        }
    }
}

fn has_key_before(entities: &Vec<GraphEntityRecord>, n: usize, key: &str) -> (r: bool)
    requires
        n <= entities@.len(),
    ensures
        r == key_before(entities@, n as int, key@),
{
    for i in 0..n
        invariant
            n <= entities@.len(),
            !key_before(entities@, i as int, key@),
    {
        if text_eq(entities[i].entity.entity_key.as_str(), key) {
            assert(entities@[i as int].entity.entity_key@ == key@);
            return true;
        }
    }
    false
}

/// How many memories of entities are taken at most.
pub open spec fn entity_cap(max_memories: usize, relationships: nat) -> int {
    if max_memories + relationships > usize::MAX {
        usize::MAX as int
    } else {
        max_memories + relationships
    }
}

/// The memories of the entities of a walk, given the ones read for each of them.
pub fn graph_context_entity_memory_ids(
    graph: &GraphNeighborsReport,
    found: &Vec<Vec<String>>,
    max_memories: usize,
) -> (r: Vec<String>)
    ensures
        views(r@) == entity_ids(
            graph.entities@,
            found@,
            entity_cap(max_memories, graph.relationships@.len()),
            graph.entities@.len(),
        ),
{
    let edges: usize = graph.relationships.len();
    let cap: usize = if edges > usize::MAX - max_memories {
        usize::MAX
    } else {
        max_memories + edges
    };
    let mut ids: Vec<String> = Vec::new();
    assert(views(ids@) =~= Seq::empty());
    for i in 0..graph.entities.len()
        invariant
            views(ids@) == entity_ids(graph.entities@, found@, cap as int, i as nat),
    {
        if !has_key_before(&graph.entities, i, graph.entities[i].entity.entity_key.as_str()) {
            if i < found.len() {
                push_all(&mut ids, &found[i], cap);
            }
        }
    }
    ids
}

/// The memories of two lists, each once, in order.
pub open spec fn united(a: Seq<Seq<char>>, b: Seq<Seq<char>>) -> Seq<Seq<char>> {
    let cap = (a.len() + b.len()) as int;
    with_all(with_all(Seq::empty(), a, cap), b, cap)
}

/// The memories of a pack: those that support relationships, then those of
/// entities, each once.
pub fn graph_context_memory_ids(evidence: &Vec<String>, entity: &Vec<String>) -> (r: Vec<String>)
    requires
        evidence@.len() + entity@.len() <= usize::MAX,
    ensures
        views(r@) == united(views(evidence@), views(entity@)),
{
    let cap: usize = evidence.len() + entity.len();
    let mut ids: Vec<String> = Vec::new();
    assert(views(ids@) =~= Seq::empty());
    assert(views(evidence@).len() == evidence@.len());
    assert(views(entity@).len() == entity@.len());
    push_all(&mut ids, evidence, cap);
    push_all(&mut ids, entity, cap);
    ids
}

/// The memories that are there, in order.
pub open spec fn present(found: Seq<Option<SearchResult>>) -> Seq<SearchResult>
    decreases found.len(),
{
    if found.len() == 0 {
        Seq::empty()
    } else {
        let before = present(found.drop_last());
        match found.last() {
            Some(result) => before.push(result),
            None => before,
        }
    }
}

/// Results, each with its rank from one.
pub open spec fn ranked(results: Seq<SearchResult>) -> Seq<SearchResult> {
    results.map(|i: int, result: SearchResult| SearchResult { rank: (i + 1) as usize, ..result })
}

/// The results of a pack, ranked, without the memories that are not there.
pub fn graph_context_memory_results(found: Vec<Option<SearchResult>>) -> (r: Vec<SearchResult>)
    requires
        found@.len() < usize::MAX,
    ensures
        r@ == ranked(present(found@)),
{
    let ghost all = found@;
    let n: usize = found.len();
    let mut rest = found;
    let mut results: Vec<SearchResult> = Vec::new();
    let mut i: usize = 0;
    assert(results@ =~= ranked(present(all.take(0))));
    while i < n
        invariant
            i <= n,
            n == all.len(),
            n < usize::MAX,
            rest@ == all.skip(i as int),
            results@ == ranked(present(all.take(i as int))),
            results@.len() <= i,
        decreases n - i,
    {
        let item = rest.remove(0);
        proof {
            assert(item == all[i as int]);
            assert(rest@ =~= all.skip(i + 1));
            assert(all.take(i + 1).drop_last() =~= all.take(i as int));
            assert(all.take(i + 1).last() == item);
        }
        if let Some(result) = item {
            let ghost given = result;
            let ghost before = results@;
            let mut placed = result;
            placed.rank = results.len() + 1;
            results.push(placed);
            assert(results@ =~= ranked(present(all.take(i as int)).push(given)));
        }
        i = i + 1;
    }
    assert(all.take(n as int) =~= all);
    results
}

/// Report of a prompt pack around an entity.
pub struct GraphContextReport {
    /// How it was made.
    pub strategy: &'static str,
    /// The walk.
    pub graph: GraphNeighborsReport,
    /// The pack.
    pub pack: PackReport,
    /// The memories that support relationships.
    pub evidence_memory_ids: Vec<String>,
    /// The memories of entities.
    pub entity_memory_ids: Vec<String>,
}

/// How many results a pack takes.
pub open spec fn taken(results: Seq<SearchResult>, max_memories: usize) -> Seq<SearchResult> {
    if results.len() > max_memories {
        results.take(max_memories as int)
    } else {
        results
    }
}

/// The pack around an entity.
pub open spec fn context_pack(
    key: Seq<char>,
    results: Seq<SearchResult>,
    max_memories: usize,
    max_chars: usize,
    last_synth: Option<Seq<char>>,
) -> PackModel {
    let title = "graph context: "@ + key;
    let selected = taken(results, max_memories);
    let text = pack_text(title, result_lines(selected, last_synth), max_chars as nat);
    PackModel {
        title,
        format: "markdown"@,
        content: text.content,
        memory_ids: result_ids(selected).take(text.shown as int),
        scores: result_scores(selected).take(text.shown as int),
        truncated: text.truncated || results.len() > max_memories,
        top_score: None,
    }
}

fn no_filters() -> (r: SearchFilters) {
    SearchFilters {
        spaces: Vec::new(),
        silos: Vec::new(),
        scopes: Vec::new(),
        projects: Vec::new(),
        kinds: Vec::new(),
        statuses: Vec::new(),
        entity_keys: Vec::new(),
        claim_keys: Vec::new(),
        tags: Vec::new(),
        hide_expired: false,
    }
}

fn build_context_pack(
    key: &str,
    results: &Vec<SearchResult>,
    max_memories: usize,
    max_chars: usize,
    last_synth: Option<&str>,
) -> (r: PackReport)
    ensures
        r@ == context_pack(key@, results@, max_memories, max_chars, text_of(last_synth)),
{
    let n: usize = if results.len() > max_memories {
        max_memories
    } else {
        results.len()
    };
    let ghost selected = taken(results@, max_memories);
    let mut shown: Vec<&SearchResult> = Vec::new();
    assert(behind(shown@) =~= selected.take(0));
    for i in 0..n
        invariant
            n <= results@.len(),
            n == selected.len(),
            selected == taken(results@, max_memories),
            behind(shown@) == selected.take(i as int),
    {
        let ghost before = shown@;
        shown.push(&results[i]);
        assert(behind(shown@) =~= behind(before).push(selected[i as int]));
        assert(selected.take(i + 1) =~= selected.take(i as int).push(selected[i as int]));
    }
    assert(selected.take(n as int) =~= selected);
    let mut queries: Vec<String> = Vec::new();
    queries.push(key.to_owned());
    let pack_request = PackRequest {
        title: concat("graph context: ", key),
        queries,
        filters: no_filters(),
        max_memories,
        max_chars,
        format: "markdown".to_owned(),
        min_score: Score { key: 0 },
        rerank_candidates: 0,
        query_embeddings: None,
        query_token_embeddings: None,
        token_model_id: None,
    };
    let (content, memory_ids, scores, text_truncated) = format_pack_markdown(
        &pack_request,
        &shown,
        last_synth,
    );
    PackReport {
        title: pack_request.title,
        format: pack_request.format,
        content,
        memory_ids,
        scores,
        truncated: text_truncated || results.len() > max_memories,
        top_score: None,
    }
}

/// What was read for a pack.
pub struct ContextFacts {
    /// The memories of each entity of the walk, in the order of its report.
    pub entity_memories: Vec<Vec<String>>,
    /// The memories of the pack, in the order of [`graph_context_memory_ids`].
    pub memories: Vec<Option<SearchResult>>,
    /// When the last consolidation that succeeded began.
    pub last_synth: Option<String>,
}

/// Whether a report shows a pack.
pub open spec fn reports_context(
    request: GraphContextRequest,
    facts: ContextFacts,
    r: GraphContextReport,
) -> bool {
    &&& r.strategy@ == "deterministic_graph_context_v0"@
    &&& views(r.evidence_memory_ids@) == evidence_ids(r.graph.relationships@)
    &&& views(r.entity_memory_ids@) == entity_ids(
        r.graph.entities@,
        facts.entity_memories@,
        entity_cap(request.max_memories, r.graph.relationships@.len()),
        r.graph.entities@.len(),
    )
    &&& r.pack@ == context_pack(
        r.graph.seed.entity_key@,
        ranked(present(facts.memories@)),
        request.max_memories,
        request.max_chars,
        text_of_string(facts.last_synth),
    )
}

/// Builds a prompt pack around an entity: checks the request, walks from the
/// entity, and renders the memories that were read.
pub fn graph_context(
    request: &GraphContextRequest,
    space_exists: bool,
    seed: Option<EntityRecord>,
    rows: Vec<GraphRelationshipRecord>,
    entities: &Vec<EntityRecord>,
    facts: ContextFacts,
) -> (r: Result<GraphContextReport, Error>)
    requires
        facts.memories@.len() < usize::MAX,
    ensures
        match r {
            Ok(report) => {
                &&& context_fault(*request) is None
                &&& walk_fault(request.walk, space_exists, seed, rows@, entities@) is None
                &&& reports_walk(
                    request.walk.depth,
                    request.walk.max_edges,
                    seed->0,
                    rows@,
                    entities@,
                    report.graph,
                )
                &&& reports_context(*request, facts, report)
            },
            Err(e) => first_of(
                context_fault(*request),
                walk_fault(request.walk, space_exists, seed, rows@, entities@),
            ) == Some(e@),
        },
{
    if let Err(e) = validate_graph_context_request(request) {
        return Err(e);
    }
    let graph = match graph_neighbors(&request.walk, space_exists, seed, rows, entities) {
        Ok(graph) => graph,
        Err(e) => {
            return Err(e);
        },
    };
    let evidence_memory_ids = graph_context_evidence_memory_ids(&graph);
    let entity_memory_ids = graph_context_entity_memory_ids(
        &graph,
        &facts.entity_memories,
        request.max_memories,
    );
    let results = graph_context_memory_results(facts.memories);
    let pack = build_context_pack(
        graph.seed.entity_key.as_str(),
        &results,
        request.max_memories,
        request.max_chars,
        crate::json::as_text(&facts.last_synth),
    );
    Ok(
        GraphContextReport {
            strategy: "deterministic_graph_context_v0",
            graph,
            pack,
            evidence_memory_ids,
            entity_memory_ids,
        },
    )
}

/// Whether no text occurs twice.
pub open spec fn all_distinct(list: Seq<Seq<char>>) -> bool {
    forall|i: int, j: int| 0 <= i < j < list.len() ==> #[trigger] list[i] != #[trigger] list[j]
}

proof fn lemma_with_all(list: Seq<Seq<char>>, texts: Seq<Seq<char>>, cap: int)
    requires
        all_distinct(list),
        list.len() <= cap,
    ensures
        all_distinct(with_all(list, texts, cap)),
        with_all(list, texts, cap).len() <= cap,
        with_all(list, texts, cap).len() <= list.len() + texts.len(),
        forall|t: Seq<char>|
            list.contains(t) ==> #[trigger] with_all(list, texts, cap).contains(t),
        forall|t: Seq<char>| #[trigger]
            with_all(list, texts, cap).contains(t) ==> list.contains(t) || texts.contains(t),
        list.len() + texts.len() <= cap ==> forall|t: Seq<char>|
            texts.contains(t) ==> #[trigger] with_all(list, texts, cap).contains(t),
    decreases texts.len(),
{
    if texts.len() > 0 {
        let rest = texts.drop_last();
        let last = texts.last();
        lemma_with_all(list, rest, cap);
        let before = with_all(list, rest, cap);
        let after = with_all(list, texts, cap);
        assert(texts =~= rest.push(last));
        assert forall|t: Seq<char>| before.contains(t) implies #[trigger] after.contains(t) by {
            let i = choose|i: int| 0 <= i < before.len() && before[i] == t;
            assert(after[i] == t);
        }
        assert forall|t: Seq<char>| #[trigger] after.contains(t) implies list.contains(t)
            || texts.contains(t) by {
            let i = choose|i: int| 0 <= i < after.len() && after[i] == t;
            if i < before.len() {
                assert(before[i] == t);
                assert(before.contains(t));
                if rest.contains(t) {
                    let k = choose|k: int| 0 <= k < rest.len() && rest[k] == t;
                    assert(texts[k] == t);
                }
            } else {
                assert(texts[texts.len() - 1] == t);
            }
        }
        if list.len() + texts.len() <= cap {
            assert(before.len() < cap);
            assert(after.contains(last)) by {
                if !before.contains(last) {
                    assert(after[after.len() - 1] == last);
                }
            }
            assert forall|t: Seq<char>| texts.contains(t) implies #[trigger] after.contains(t) by {
                let k = choose|k: int| 0 <= k < texts.len() && texts[k] == t;
                if k < rest.len() {
                    assert(rest[k] == t);
                    assert(rest.contains(t));
                    assert(before.contains(t));
                }
            }
        }
    }
}

/// The memories of a pack are those of its two lists, and none comes twice.
pub proof fn law_context_memories_are_distinct(a: Seq<Seq<char>>, b: Seq<Seq<char>>)
    ensures
        all_distinct(united(a, b)),
        forall|t: Seq<char>| #[trigger]
            united(a, b).contains(t) <==> a.contains(t) || b.contains(t),
{
    let cap = a.len() + b.len();
    let none = Seq::<Seq<char>>::empty();
    lemma_with_all(none, a, cap as int);
    lemma_with_all(with_all(none, a, cap as int), b, cap as int);
    assert forall|t: Seq<char>| #[trigger] united(a, b).contains(t) <==> a.contains(t)
        || b.contains(t) by {
        assert(!none.contains(t));
        if a.contains(t) {
            assert(with_all(none, a, cap as int).contains(t));
        }
    }
}

/// The memories of entities stay within their number, and none comes twice.
pub proof fn law_entity_memories_keep_cap(
    entities: Seq<GraphEntityRecord>,
    found: Seq<Vec<String>>,
    cap: nat,
    n: nat,
)
    ensures
        all_distinct(entity_ids(entities, found, cap as int, n)),
        entity_ids(entities, found, cap as int, n).len() <= cap,
    decreases n,
{
    if n > 0 {
        law_entity_memories_keep_cap(entities, found, cap, (n - 1) as nat);
        let before = entity_ids(entities, found, cap as int, (n - 1) as nat);
        lemma_with_all(before, read_for(found, n - 1), cap as int);
    }
}

/// A connected entity in the full-graph projection.
#[derive(Debug, Clone, PartialEq, Eq)]
pub struct GraphFullNode {
    /// Key.
    pub entity_key: String,
    /// Name.
    pub canonical_name: String,
    /// Type.
    pub entity_type: Option<String>,
    /// How many relationships it has.
    pub degree: i64,
}

/// A weighted edge in the full-graph projection.
#[derive(Debug, Clone, PartialEq, Eq)]
pub struct GraphFullLink {
    /// Key on the one side.
    pub source: String,
    /// Key on the other side.
    pub target: String,
    /// How many relationships it stands for.
    pub weight: i64,
}

/// The full-graph projection.
#[derive(Debug, Clone, PartialEq, Eq)]
pub struct GraphFullReport {
    /// The connected entities.
    pub nodes: Vec<GraphFullNode>,
    /// The edges.
    pub links: Vec<GraphFullLink>,
}

/// An active entity.
pub struct ActiveEntity {
    /// Id.
    pub id: String,
    /// Key, which other spaces may use too.
    pub entity_key: String,
    /// Name.
    pub canonical_name: String,
    /// Type.
    pub entity_type: Option<String>,
}

/// How many active relationships lead from one entity to another.
pub struct EntityEdge {
    /// Id of the subject.
    pub subject_id: String,
    /// Id of the object.
    pub object_id: String,
    /// How many relationships there are.
    pub weight: i64,
}

/// The model of an edge between entities.
pub struct EntityEdgeModel {
    /// Id of the subject.
    pub subject: Seq<char>,
    /// Id of the object.
    pub object: Seq<char>,
    /// How many relationships there are.
    pub weight: int,
}

impl View for EntityEdge {
    type V = EntityEdgeModel;

    open spec fn view(&self) -> EntityEdgeModel {
        EntityEdgeModel {
            subject: self.subject_id@,
            object: self.object_id@,
            weight: self.weight as int,
        }
    }
}

/// The models of edges between entities.
pub open spec fn edge_models(list: Seq<EntityEdge>) -> Seq<EntityEdgeModel> {
    list.map_values(|e: EntityEdge| e@)
}

/// The model of a link.
pub struct LinkModel {
    /// Key on the one side.
    pub source: Seq<char>,
    /// Key on the other side.
    pub target: Seq<char>,
    /// How many relationships it stands for.
    pub weight: int,
}

impl View for GraphFullLink {
    type V = LinkModel;

    open spec fn view(&self) -> LinkModel {
        LinkModel { source: self.source@, target: self.target@, weight: self.weight as int }
    }
}

/// The models of links.
pub open spec fn link_models(list: Seq<GraphFullLink>) -> Seq<LinkModel> {
    list.map_values(|l: GraphFullLink| l@)
}

/// The key of the active entity with an id.
pub open spec fn key_of(entities: Seq<ActiveEntity>, id: Seq<char>) -> Option<Seq<char>>
    decreases entities.len(),
{
    if entities.len() == 0 {
        None
    } else if entities.last().id@ == id {
        Some(entities.last().entity_key@)
    } else {
        key_of(entities.drop_last(), id)
    }
}

/// Whether both ends of an edge are active entities.
pub open spec fn both_active(entities: Seq<ActiveEntity>, edge: EntityEdgeModel) -> bool {
    key_of(entities, edge.subject) is Some && key_of(entities, edge.object) is Some
}

/// The edges between active entities, in order.
pub open spec fn live_edges(
    entities: Seq<ActiveEntity>,
    edges: Seq<EntityEdgeModel>,
) -> Seq<EntityEdgeModel>
    decreases edges.len(),
{
    if edges.len() == 0 {
        Seq::empty()
    } else if both_active(entities, edges.last()) {
        live_edges(entities, edges.drop_last()).push(edges.last())
    } else {
        live_edges(entities, edges.drop_last())
    }
}

/// Whether an edge ends at an entity.
pub open spec fn ends_at(edge: EntityEdgeModel, id: Seq<char>) -> bool {
    edge.subject == id || edge.object == id
}

/// Whether an entity is connected.
pub open spec fn connected(edges: Seq<EntityEdgeModel>, id: Seq<char>) -> bool {
    exists|i: int| 0 <= i < edges.len() && ends_at(#[trigger] edges[i], id)
}

/// The weight that an edge adds to the degree of an entity.
pub open spec fn edge_degree(edge: EntityEdgeModel, id: Seq<char>) -> int {
    (if edge.subject == id {
        edge.weight
    } else {
        0
    }) + (if edge.object == id {
        edge.weight
    } else {
        0
    })
}

/// The weight of the edges at an entity; an edge from it to itself counts twice.
pub open spec fn degree_of(edges: Seq<EntityEdgeModel>, id: Seq<char>) -> int
    decreases edges.len(),
{
    if edges.len() == 0 {
        0
    } else {
        degree_of(edges.drop_last(), id) + edge_degree(edges.last(), id)
    }
}

/// The weight of all edges.
pub open spec fn total_weight(edges: Seq<EntityEdgeModel>) -> int
    decreases edges.len(),
{
    if edges.len() == 0 {
        0
    } else {
        total_weight(edges.drop_last()) + edges.last().weight
    }
}

/// Whether the weights of edges count relationships, and no degree gets too large.
pub open spec fn countable(edges: Seq<EntityEdgeModel>) -> bool {
    &&& forall|i: int| 0 <= i < edges.len() ==> (#[trigger] edges[i]).weight >= 0
    &&& 2 * total_weight(edges) <= i64::MAX
}

/// Links with `weight` more relationships between two keys: the link of that pair
/// grows, or a new one follows.
pub open spec fn with_link(
    links: Seq<LinkModel>,
    source: Seq<char>,
    target: Seq<char>,
    weight: int,
) -> Seq<LinkModel>
    decreases links.len(),
{
    if links.len() == 0 {
        seq![LinkModel { source, target, weight }]
    } else if links[0].source == source && links[0].target == target {
        seq![LinkModel { source, target, weight: links[0].weight + weight }] + links.skip(1)
    } else {
        seq![links[0]] + with_link(links.skip(1), source, target, weight)
    }
}

/// The links of edges between active entities: one for each pair of keys, in the
/// order in which the pairs first come.
pub open spec fn collapsed(
    entities: Seq<ActiveEntity>,
    edges: Seq<EntityEdgeModel>,
) -> Seq<LinkModel>
    decreases edges.len(),
{
    if edges.len() == 0 {
        Seq::empty()
    } else {
        with_link(
            collapsed(entities, edges.drop_last()),
            key_of(entities, edges.last().subject)->0,
            key_of(entities, edges.last().object)->0,
            edges.last().weight,
        )
    }
}

proof fn lemma_degree_bound(edges: Seq<EntityEdgeModel>, id: Seq<char>, n: int)
    requires
        0 <= n <= edges.len(),
        forall|i: int| 0 <= i < edges.len() ==> (#[trigger] edges[i]).weight >= 0,
    ensures
        0 <= degree_of(edges.take(n), id) <= 2 * total_weight(edges.take(n)),
        total_weight(edges.take(n)) <= total_weight(edges),
    decreases edges.len(), n,
{
    if n < edges.len() {
        let rest = edges.drop_last();
        assert(edges.take(n) =~= rest.take(n));
        assert forall|i: int| 0 <= i < rest.len() implies (#[trigger] rest[i]).weight >= 0 by {
            assert(rest[i] == edges[i]);
        }
        lemma_degree_bound(rest, id, n);
        assert(edges[edges.len() - 1].weight >= 0);
    } else {
        assert(edges.take(n) =~= edges);
        if n > 0 {
            lemma_degree_bound(edges, id, n - 1);
            assert(edges.take(n - 1) =~= edges.drop_last());
            assert(edges[n - 1].weight >= 0);
        }
    }
}

proof fn lemma_live_countable(entities: Seq<ActiveEntity>, edges: Seq<EntityEdgeModel>)
    requires
        forall|i: int| 0 <= i < edges.len() ==> (#[trigger] edges[i]).weight >= 0,
    ensures
        ({
            let live = live_edges(entities, edges);
            &&& forall|i: int| 0 <= i < live.len() ==> (#[trigger] live[i]).weight >= 0
            &&& forall|i: int|
                0 <= i < live.len() ==> both_active(entities, #[trigger] live[i])
            &&& total_weight(live) <= total_weight(edges)
        }),
    decreases edges.len(),
{
    if edges.len() > 0 {
        let rest = edges.drop_last();
        assert forall|i: int| 0 <= i < rest.len() implies (#[trigger] rest[i]).weight >= 0 by {
            assert(rest[i] == edges[i]);
        }
        lemma_live_countable(entities, rest);
        assert(edges[edges.len() - 1].weight >= 0);
        let before = live_edges(entities, rest);
        assert(before.push(edges.last()).drop_last() =~= before);
    }
}

proof fn lemma_with_link_at(
    links: Seq<LinkModel>,
    source: Seq<char>,
    target: Seq<char>,
    weight: int,
    at: int,
)
    requires
        0 <= at <= links.len(),
        forall|k: int|
            0 <= k < at ==> !((#[trigger] links[k]).source == source && links[k].target == target),
        at < links.len() ==> links[at].source == source && links[at].target == target,
    ensures
        with_link(links, source, target, weight) == if at < links.len() {
            links.update(at, LinkModel { source, target, weight: links[at].weight + weight })
        } else {
            links.push(LinkModel { source, target, weight })
        },
    decreases at,
{
    let after = if at < links.len() {
        links.update(at, LinkModel { source, target, weight: links[at].weight + weight })
    } else {
        links.push(LinkModel { source, target, weight })
    };
    if at > 0 {
        let rest = links.skip(1);
        assert forall|k: int| 0 <= k < at - 1 implies !((#[trigger] rest[k]).source == source
            && rest[k].target == target) by {
            assert(rest[k] == links[k + 1]);
        }
        lemma_with_link_at(rest, source, target, weight, at - 1);
        assert(!(links[0].source == source && links[0].target == target));
        assert(with_link(links, source, target, weight) =~= after);
    } else {
        assert(with_link(links, source, target, weight) =~= after);
    }
}

fn entity_at(entities: &Vec<ActiveEntity>, id: &str) -> (r: Option<usize>)
    ensures
        match r {
            Some(i) => i < entities@.len() && key_of(entities@, id@) == Some(
                entities@[i as int].entity_key@,
            ),
            None => key_of(entities@, id@) is None,
        },
{
    let ghost all = entities@;
    let mut found: Option<usize> = None;
    for i in 0..entities.len()
        invariant
            all == entities@,
            match found {
                Some(k) => k < i && key_of(all.take(i as int), id@) == Some(
                    all[k as int].entity_key@,
                ),
                None => key_of(all.take(i as int), id@) is None,
            },
    {
        assert(all.take(i + 1).drop_last() =~= all.take(i as int));
        assert(all.take(i + 1).last() == all[i as int]);
        if text_eq(entities[i].id.as_str(), id) {
            found = Some(i);
        }
    }
    assert(all.take(entities@.len() as int) =~= all);
    found
}

fn keep_live(entities: &Vec<ActiveEntity>, edges: &Vec<EntityEdge>) -> (r: Vec<EntityEdge>)
    ensures
        edge_models(r@) == live_edges(entities@, edge_models(edges@)),
{
    let ghost all = edge_models(edges@);
    let mut out: Vec<EntityEdge> = Vec::new();
    assert(edge_models(out@) =~= live_edges(entities@, all.take(0)));
    for i in 0..edges.len()
        invariant
            all == edge_models(edges@),
            edge_models(out@) == live_edges(entities@, all.take(i as int)),
    {
        assert(all.take(i + 1).drop_last() =~= all.take(i as int));
        assert(all.take(i + 1).last() == all[i as int]);
        let edge = &edges[i];
        if entity_at(entities, edge.subject_id.as_str()).is_some() && entity_at(
            entities,
            edge.object_id.as_str(),
        ).is_some() {
            let ghost before = out@;
            let kept = EntityEdge {
                subject_id: edge.subject_id.clone(),
                object_id: edge.object_id.clone(),
                weight: edge.weight,
            };
            assert(kept@ == all[i as int]);
            out.push(kept);
            assert(edge_models(out@) =~= edge_models(before).push(all[i as int]));
        }
    }
    assert(all.take(edges@.len() as int) =~= all);
    out
}

fn add_link(links: &mut Vec<GraphFullLink>, source: &str, target: &str, weight: i64)
    requires
        forall|k: int|
            0 <= k < old(links)@.len() ==> i64::MIN <= (#[trigger] link_models(
                old(links)@,
            )[k]).weight + weight <= i64::MAX,
    ensures
        link_models(final(links)@) == with_link(
            link_models(old(links)@),
            source@,
            target@,
            weight as int,
        ),
{
    let ghost before = link_models(links@);
    let mut at: usize = 0;
    while at < links.len() && !(text_eq(links[at].source.as_str(), source) && text_eq(
        links[at].target.as_str(),
        target,
    ))
        invariant
            at <= links@.len(),
            before == link_models(links@),
            forall|k: int|
                0 <= k < at ==> !((#[trigger] before[k]).source == source@ && before[k].target
                    == target@),
        decreases links@.len() - at,
    {
        at = at + 1;
    }
    proof {
        lemma_with_link_at(before, source@, target@, weight as int, at as int);
    }
    if at < links.len() {
        assert(before[at as int].weight == links@[at as int].weight);
        let grown = GraphFullLink {
            source: source.to_owned(),
            target: target.to_owned(),
            weight: links[at].weight + weight,
        };
        let ghost model = grown@;
        links.set(at, grown);
        assert(link_models(links@) =~= before.update(at as int, model));
    } else {
        let link = GraphFullLink { source: source.to_owned(), target: target.to_owned(), weight };
        let ghost model = link@;
        links.push(link);
        assert(link_models(links@) =~= before.push(model));
    }
}

proof fn lemma_with_link_weights(
    links: Seq<LinkModel>,
    source: Seq<char>,
    target: Seq<char>,
    weight: int,
    most: int,
)
    requires
        weight >= 0,
        most >= 0,
        forall|k: int| 0 <= k < links.len() ==> 0 <= (#[trigger] links[k]).weight <= most,
    ensures
        ({
            let after = with_link(links, source, target, weight);
            forall|k: int|
                0 <= k < after.len() ==> 0 <= (#[trigger] after[k]).weight <= most + weight
        }),
    decreases links.len(),
{
    if links.len() > 0 {
        let rest = links.skip(1);
        assert forall|k: int| 0 <= k < rest.len() implies 0 <= (#[trigger] rest[k]).weight
            <= most by {
            assert(rest[k] == links[k + 1]);
        }
        lemma_with_link_weights(rest, source, target, weight, most);
        let after = with_link(links, source, target, weight);
        assert forall|k: int| 0 <= k < after.len() implies 0 <= (#[trigger] after[k]).weight <= most
            + weight by {
            assert(0 <= links[0].weight <= most);
            if k > 0 {
                if links[0].source == source && links[0].target == target {
                    assert(after[k] == rest[k - 1]);
                } else {
                    assert(after[k] == with_link(rest, source, target, weight)[k - 1]);
                }
            }
        }
    }
}

fn collapse(entities: &Vec<ActiveEntity>, edges: &Vec<EntityEdge>) -> (r: Vec<GraphFullLink>)
    requires
        countable(edge_models(edges@)),
        forall|i: int|
            0 <= i < edges@.len() ==> both_active(entities@, #[trigger] edge_models(edges@)[i]),
    ensures
        link_models(r@) == collapsed(entities@, edge_models(edges@)),
{
    let ghost all = edge_models(edges@);
    let mut links: Vec<GraphFullLink> = Vec::new();
    assert(link_models(links@) =~= collapsed(entities@, all.take(0)));
    for i in 0..edges.len()
        invariant
            all == edge_models(edges@),
            countable(all),
            forall|k: int| 0 <= k < all.len() ==> both_active(entities@, #[trigger] all[k]),
            link_models(links@) == collapsed(entities@, all.take(i as int)),
            0 <= total_weight(all.take(i as int)),
            forall|k: int|
                0 <= k < links@.len() ==> 0 <= (#[trigger] link_models(links@)[k]).weight
                    <= total_weight(all.take(i as int)),
    {
        let edge = &edges[i];
        proof {
            assert(all.take(i + 1).drop_last() =~= all.take(i as int));
            assert(all.take(i + 1).last() == all[i as int]);
            assert(all[i as int] == edge@);
            assert(both_active(entities@, all[i as int]));
            lemma_degree_bound(all, Seq::empty(), i + 1);
            assert(all[i as int].weight >= 0);
        }
        if let Some(s) = entity_at(entities, edge.subject_id.as_str()) {
            if let Some(o) = entity_at(entities, edge.object_id.as_str()) {
                proof {
                    lemma_with_link_weights(
                        link_models(links@),
                        entities@[s as int].entity_key@,
                        entities@[o as int].entity_key@,
                        edge.weight as int,
                        total_weight(all.take(i as int)),
                    );
                }
                add_link(
                    &mut links,
                    entities[s].entity_key.as_str(),
                    entities[o].entity_key.as_str(),
                    edge.weight,
                );
            }
        }
    }
    assert(all.take(edges@.len() as int) =~= all);
    links
}

fn degree_at(edges: &Vec<EntityEdge>, id: &str) -> (r: Option<i64>)
    requires
        countable(edge_models(edges@)),
    ensures
        r == if connected(edge_models(edges@), id@) {
            Some(degree_of(edge_models(edges@), id@) as i64)
        } else {
            None
        },
        0 <= degree_of(edge_models(edges@), id@) <= i64::MAX,
{
    let ghost all = edge_models(edges@);
    let mut degree: i64 = 0;
    let mut found: bool = false;
    proof {
        lemma_degree_bound(all, id@, all.len() as int);
        assert(all.take(all.len() as int) =~= all);
    }
    for i in 0..edges.len()
        invariant
            all == edge_models(edges@),
            countable(all),
            degree == degree_of(all.take(i as int), id@),
            found == connected(all.take(i as int), id@),
    {
        proof {
            assert(all.take(i + 1).drop_last() =~= all.take(i as int));
            assert(all.take(i + 1).last() == all[i as int]);
            lemma_degree_bound(all, id@, i as int);
            lemma_degree_bound(all, id@, i + 1);
            let next = all.take(i + 1);
            if ends_at(all[i as int], id@) {
                assert(ends_at(next[i as int], id@));
            }
            if connected(all.take(i as int), id@) {
                let k = choose|k: int|
                    0 <= k < i && ends_at(#[trigger] all.take(i as int)[k], id@);
                assert(ends_at(next[k], id@));
            }
            if connected(next, id@) && !ends_at(all[i as int], id@) {
                let k = choose|k: int| 0 <= k < next.len() && ends_at(#[trigger] next[k], id@);
                assert(ends_at(all.take(i as int)[k], id@));
            }
            assert(all[i as int].weight >= 0);
            assert(all[i as int] == edges@[i as int]@);
        }
        let edge = &edges[i];
        if text_eq(edge.subject_id.as_str(), id) {
            degree = degree + edge.weight;
            found = true;
        }
        if text_eq(edge.object_id.as_str(), id) {
            degree = degree + edge.weight;
            found = true;
        }
    }
    if found {
        Some(degree)
    } else {
        None
    }
}

/// Whether the weights of edges count relationships, and no degree gets too large.
pub fn edges_are_countable(edges: &Vec<EntityEdge>) -> (r: bool)
    ensures
        r == countable(edge_models(edges@)),
{
    let ghost all = edge_models(edges@);
    let mut total: i64 = 0;
    for i in 0..edges.len()
        invariant
            all == edge_models(edges@),
            total == total_weight(all.take(i as int)),
            0 <= total,
            2 * total <= i64::MAX,
            forall|k: int| 0 <= k < i ==> (#[trigger] all[k]).weight >= 0,
    {
        proof {
            assert(all.take(i + 1).drop_last() =~= all.take(i as int));
            assert(all.take(i + 1).last() == all[i as int]);
            assert(all[i as int] == edges@[i as int]@);
        }
        if edges[i].weight < 0 {
            return false;
        }
        if edges[i].weight > i64::MAX / 2 - total {
            proof {
                if countable(all) {
                    lemma_degree_bound(all, Seq::empty(), i + 1);
                }
            }
            return false;
        }
        total = total + edges[i].weight;
    }
    assert(all.take(edges@.len() as int) =~= all);
    true
}

/// The model of a node.
pub struct NodeModel {
    /// Key.
    pub entity_key: Seq<char>,
    /// Name.
    pub canonical_name: Seq<char>,
    /// Type.
    pub entity_type: Option<Seq<char>>,
    /// How many relationships it has.
    pub degree: int,
}

impl View for GraphFullNode {
    type V = NodeModel;

    open spec fn view(&self) -> NodeModel {
        NodeModel {
            entity_key: self.entity_key@,
            canonical_name: self.canonical_name@,
            entity_type: text_of_string(self.entity_type),
            degree: self.degree as int,
        }
    }
}

/// The models of nodes.
pub open spec fn node_models(list: Seq<GraphFullNode>) -> Seq<NodeModel> {
    list.map_values(|n: GraphFullNode| n@)
}

/// The node of an active entity.
pub open spec fn node_of(entity: ActiveEntity, edges: Seq<EntityEdgeModel>) -> NodeModel {
    NodeModel {
        entity_key: entity.entity_key@,
        canonical_name: entity.canonical_name@,
        entity_type: text_of_string(entity.entity_type),
        degree: degree_of(edges, entity.id@),
    }
}

/// The connected ones of the active entities, in order.
pub open spec fn connected_nodes(
    entities: Seq<ActiveEntity>,
    edges: Seq<EntityEdgeModel>,
) -> Seq<NodeModel>
    decreases entities.len(),
{
    if entities.len() == 0 {
        Seq::empty()
    } else {
        let before = connected_nodes(entities.drop_last(), edges);
        let entity = entities.last();
        if connected(edges, entity.id@) {
            before.push(node_of(entity, edges))
        } else {
            before
        }
    }
}

/// Projects everything that is connected: the active relationships between active
/// entities, collapsed to one link for each pair of keys, and the entities that
/// take part in one. Entities are told apart by their ids, since the spaces may
/// use one key for different entities.
pub fn graph_full(edges: &Vec<EntityEdge>, entities: &Vec<ActiveEntity>) -> (r: GraphFullReport)
    requires
        countable(edge_models(edges@)),
    ensures
        ({
            let live = live_edges(entities@, edge_models(edges@));
            &&& link_models(r.links@) == collapsed(entities@, live)
            &&& node_models(r.nodes@) == connected_nodes(entities@, live)
        }),
{
    let ghost all = entities@;
    proof {
        lemma_live_countable(all, edge_models(edges@));
    }
    let live = keep_live(entities, edges);
    let ghost kept = edge_models(live@);
    assert(countable(kept));
    assert forall|i: int| 0 <= i < live@.len() implies both_active(
        entities@,
        #[trigger] edge_models(live@)[i],
    ) by {
        assert(kept.len() == live@.len());
    }
    let links = collapse(entities, &live);
    let mut nodes: Vec<GraphFullNode> = Vec::new();
    assert(node_models(nodes@) =~= connected_nodes(all.take(0), kept));
    for i in 0..entities.len()
        invariant
            all == entities@,
            kept == edge_models(live@),
            countable(kept),
            node_models(nodes@) == connected_nodes(all.take(i as int), kept),
    {
        let entity = &entities[i];
        proof {
            assert(all.take(i + 1).drop_last() =~= all.take(i as int));
            assert(all.take(i + 1).last() == all[i as int]);
        }
        if let Some(degree) = degree_at(&live, entity.id.as_str()) {
            let ghost before = nodes@;
            let node = GraphFullNode {
                entity_key: entity.entity_key.clone(),
                canonical_name: entity.canonical_name.clone(),
                entity_type: clone_text(&entity.entity_type),
                degree,
            };
            let ghost model = node@;
            nodes.push(node);
            assert(node_models(nodes@) =~= node_models(before).push(model));
        }
    }
    assert(all.take(entities@.len() as int) =~= all);
    GraphFullReport { nodes, links }
}

proof fn lemma_live_membership(
    entities: Seq<ActiveEntity>,
    edges: Seq<EntityEdgeModel>,
    id: Seq<char>,
)
    ensures
        connected(live_edges(entities, edges), id) <==> exists|i: int|
            0 <= i < edges.len() && ends_at(#[trigger] edges[i], id) && both_active(
                entities,
                edges[i],
            ),
    decreases edges.len(),
{
    if edges.len() > 0 {
        let rest = edges.drop_last();
        let before = live_edges(entities, rest);
        let live = live_edges(entities, edges);
        lemma_live_membership(entities, rest, id);
        let last = edges.len() - 1;
        assert(edges[last] == edges.last());
        if connected(live, id) {
            let k = choose|k: int| 0 <= k < live.len() && ends_at(#[trigger] live[k], id);
            if k < before.len() {
                assert(before[k] == live[k]);
                assert(connected(before, id));
                let i = choose|i: int|
                    0 <= i < rest.len() && ends_at(#[trigger] rest[i], id) && both_active(
                        entities,
                        rest[i],
                    );
                assert(edges[i] == rest[i]);
            } else {
                assert(ends_at(edges[last], id) && both_active(entities, edges[last]));
            }
        }
        if exists|i: int|
            0 <= i < edges.len() && ends_at(#[trigger] edges[i], id) && both_active(
                entities,
                edges[i],
            ) {
            let i = choose|i: int|
                0 <= i < edges.len() && ends_at(#[trigger] edges[i], id) && both_active(
                    entities,
                    edges[i],
                );
            if i < last {
                assert(rest[i] == edges[i]);
                let k = choose|k: int| 0 <= k < before.len() && ends_at(#[trigger] before[k], id);
                assert(live[k] == before[k]);
            } else {
                assert(live[live.len() - 1] == edges[last]);
            }
        }
    }
}

proof fn lemma_nodes_listed(
    entities: Seq<ActiveEntity>,
    edges: Seq<EntityEdgeModel>,
    node: NodeModel,
)
    ensures
        connected_nodes(entities, edges).contains(node) <==> exists|i: int|
            0 <= i < entities.len() && connected(edges, (#[trigger] entities[i]).id@) && node
                == node_of(entities[i], edges),
    decreases entities.len(),
{
    if entities.len() > 0 {
        let rest = entities.drop_last();
        let before = connected_nodes(rest, edges);
        lemma_nodes_listed(rest, edges, node);
        let last = entities.len() - 1;
        assert(entities[last] == entities.last());
        crate::order::lemma_push_contains(before, node_of(entities.last(), edges), node);
        if before.contains(node) {
            let i = choose|i: int|
                0 <= i < rest.len() && connected(edges, (#[trigger] rest[i]).id@) && node
                    == node_of(rest[i], edges);
            assert(entities[i] == rest[i]);
        }
        if exists|i: int|
            0 <= i < entities.len() && connected(edges, (#[trigger] entities[i]).id@) && node
                == node_of(entities[i], edges) {
            let i = choose|i: int|
                0 <= i < entities.len() && connected(edges, (#[trigger] entities[i]).id@) && node
                    == node_of(entities[i], edges);
            if i < last {
                assert(rest[i] == entities[i]);
            }
        }
    }
}

/// The full graph lists exactly the active entities that are an end of an active
/// relationship whose two ends are both active, each with the weight of those
/// relationships at it. An entity without one is left out, also where an entity of
/// another space has its key and is connected.
pub proof fn law_isolated_entities_are_left_out(
    entities: Seq<ActiveEntity>,
    edges: Seq<EntityEdgeModel>,
    node: NodeModel,
)
    ensures
        connected_nodes(entities, live_edges(entities, edges)).contains(node) <==> exists|
            i: int,
            k: int,
        |
            0 <= i < entities.len() && 0 <= k < edges.len() && ends_at(
                #[trigger] edges[k],
                (#[trigger] entities[i]).id@,
            ) && both_active(entities, edges[k]) && node == node_of(
                entities[i],
                live_edges(entities, edges),
            ),
{
    let live = live_edges(entities, edges);
    lemma_nodes_listed(entities, live, node);
    if connected_nodes(entities, live).contains(node) {
        let i = choose|i: int|
            0 <= i < entities.len() && connected(live, (#[trigger] entities[i]).id@) && node
                == node_of(entities[i], live);
        lemma_live_membership(entities, edges, entities[i].id@);
        let k = choose|k: int|
            0 <= k < edges.len() && ends_at(#[trigger] edges[k], entities[i].id@) && both_active(
                entities,
                edges[k],
            );
        assert(ends_at(edges[k], entities[i].id@));
    }
    assert forall|i: int, k: int|
        0 <= i < entities.len() && 0 <= k < edges.len() && ends_at(
            #[trigger] edges[k],
            (#[trigger] entities[i]).id@,
        ) && both_active(entities, edges[k]) && node == node_of(
            entities[i],
            live,
        ) implies connected_nodes(entities, live).contains(node) by {
        lemma_live_membership(entities, edges, entities[i].id@);
    }
}

/// The degrees of nodes together.
pub open spec fn degree_sum(nodes: Seq<NodeModel>) -> int
    decreases nodes.len(),
{
    if nodes.len() == 0 {
        0
    } else {
        degree_sum(nodes.drop_last()) + nodes.last().degree
    }
}

/// The weights of links together.
pub open spec fn link_sum(links: Seq<LinkModel>) -> int
    decreases links.len(),
{
    if links.len() == 0 {
        0
    } else {
        link_sum(links.skip(1)) + links[0].weight
    }
}

/// The degrees of all entities together, connected or not.
spec fn all_degrees(entities: Seq<ActiveEntity>, edges: Seq<EntityEdgeModel>) -> int
    decreases entities.len(),
{
    if entities.len() == 0 {
        0
    } else {
        all_degrees(entities.drop_last(), edges) + degree_of(edges, entities.last().id@)
    }
}

/// What one edge adds to the degrees of all entities.
spec fn edge_degrees(entities: Seq<ActiveEntity>, edge: EntityEdgeModel) -> int
    decreases entities.len(),
{
    if entities.len() == 0 {
        0
    } else {
        edge_degrees(entities.drop_last(), edge) + edge_degree(edge, entities.last().id@)
    }
}

/// Whether no two entities have one id.
pub open spec fn ids_are_distinct(entities: Seq<ActiveEntity>) -> bool {
    forall|i: int, j: int|
        0 <= i < j < entities.len() ==> (#[trigger] entities[i]).id@ != (#[trigger] entities[j]).id@
}

proof fn lemma_key_of_some(entities: Seq<ActiveEntity>, id: Seq<char>)
    ensures
        key_of(entities, id) is Some <==> exists|i: int|
            0 <= i < entities.len() && (#[trigger] entities[i]).id@ == id,
    decreases entities.len(),
{
    if entities.len() > 0 {
        let rest = entities.drop_last();
        lemma_key_of_some(rest, id);
        assert(entities[entities.len() - 1] == entities.last());
        if exists|i: int| 0 <= i < rest.len() && (#[trigger] rest[i]).id@ == id {
            let i = choose|i: int| 0 <= i < rest.len() && (#[trigger] rest[i]).id@ == id;
            assert(entities[i] == rest[i]);
        }
        if exists|i: int| 0 <= i < entities.len() && (#[trigger] entities[i]).id@ == id {
            let i = choose|i: int| 0 <= i < entities.len() && (#[trigger] entities[i]).id@ == id;
            if i < rest.len() {
                assert(rest[i] == entities[i]);
            }
        }
    }
}

proof fn lemma_edge_degrees(entities: Seq<ActiveEntity>, edge: EntityEdgeModel)
    requires
        ids_are_distinct(entities),
    ensures
        edge_degrees(entities, edge) == (if key_of(entities, edge.subject) is Some {
            edge.weight
        } else {
            0
        }) + (if key_of(entities, edge.object) is Some {
            edge.weight
        } else {
            0
        }),
    decreases entities.len(),
{
    if entities.len() > 0 {
        let rest = entities.drop_last();
        let last = entities.len() - 1;
        assert forall|i: int, j: int| 0 <= i < j < rest.len() implies (#[trigger] rest[i]).id@ != (
        #[trigger] rest[j]).id@ by {
            assert(rest[i] == entities[i] && rest[j] == entities[j]);
        }
        lemma_edge_degrees(rest, edge);
        assert(key_of(rest, entities[last].id@) is None) by {
            lemma_key_of_some(rest, entities[last].id@);
            if key_of(rest, entities[last].id@) is Some {
                let i = choose|i: int|
                    0 <= i < rest.len() && (#[trigger] rest[i]).id@ == entities[last].id@;
                assert(entities[i] == rest[i]);
            }
        }
    }
}

proof fn lemma_all_degrees_step(entities: Seq<ActiveEntity>, edges: Seq<EntityEdgeModel>)
    requires
        edges.len() > 0,
    ensures
        all_degrees(entities, edges) == all_degrees(entities, edges.drop_last()) + edge_degrees(
            entities,
            edges.last(),
        ),
    decreases entities.len(),
{
    if entities.len() > 0 {
        lemma_all_degrees_step(entities.drop_last(), edges);
    }
}

proof fn lemma_all_degrees(entities: Seq<ActiveEntity>, edges: Seq<EntityEdgeModel>)
    requires
        ids_are_distinct(entities),
        forall|i: int| 0 <= i < edges.len() ==> both_active(entities, #[trigger] edges[i]),
    ensures
        all_degrees(entities, edges) == 2 * total_weight(edges),
    decreases edges.len(),
{
    if edges.len() > 0 {
        let rest = edges.drop_last();
        assert forall|i: int| 0 <= i < rest.len() implies both_active(
            entities,
            #[trigger] rest[i],
        ) by {
            assert(rest[i] == edges[i]);
        }
        lemma_all_degrees(entities, rest);
        lemma_all_degrees_step(entities, edges);
        assert(both_active(entities, edges[edges.len() - 1]));
        lemma_edge_degrees(entities, edges.last());
    } else {
        lemma_no_degrees(entities, edges);
    }
}

proof fn lemma_no_degrees(entities: Seq<ActiveEntity>, edges: Seq<EntityEdgeModel>)
    requires
        edges.len() == 0,
    ensures
        all_degrees(entities, edges) == 0,
    decreases entities.len(),
{
    if entities.len() > 0 {
        lemma_no_degrees(entities.drop_last(), edges);
    }
}

proof fn lemma_isolated_degree(edges: Seq<EntityEdgeModel>, id: Seq<char>)
    requires
        !connected(edges, id),
    ensures
        degree_of(edges, id) == 0,
    decreases edges.len(),
{
    if edges.len() > 0 {
        let rest = edges.drop_last();
        assert(!ends_at(edges[edges.len() - 1], id));
        assert(!connected(rest, id)) by {
            if connected(rest, id) {
                let k = choose|k: int| 0 <= k < rest.len() && ends_at(#[trigger] rest[k], id);
                assert(ends_at(edges[k], id));
            }
        }
        lemma_isolated_degree(rest, id);
    }
}

proof fn lemma_degree_sum(entities: Seq<ActiveEntity>, edges: Seq<EntityEdgeModel>)
    ensures
        degree_sum(connected_nodes(entities, edges)) == all_degrees(entities, edges),
    decreases entities.len(),
{
    if entities.len() > 0 {
        lemma_degree_sum(entities.drop_last(), edges);
        let before = connected_nodes(entities.drop_last(), edges);
        let node = node_of(entities.last(), edges);
        if connected(edges, entities.last().id@) {
            assert(before.push(node).drop_last() =~= before);
        } else {
            lemma_isolated_degree(edges, entities.last().id@);
        }
    }
}

proof fn lemma_with_link_sum(
    links: Seq<LinkModel>,
    source: Seq<char>,
    target: Seq<char>,
    weight: int,
)
    ensures
        link_sum(with_link(links, source, target, weight)) == link_sum(links) + weight,
    decreases links.len(),
{
    let after = with_link(links, source, target, weight);
    if links.len() == 0 {
        assert(link_sum(after.skip(1)) == 0);
    } else if links[0].source == source && links[0].target == target {
        assert(after.skip(1) =~= links.skip(1));
    } else {
        lemma_with_link_sum(links.skip(1), source, target, weight);
        assert(after.skip(1) =~= with_link(links.skip(1), source, target, weight));
    }
}

proof fn lemma_collapsed_sum(entities: Seq<ActiveEntity>, edges: Seq<EntityEdgeModel>)
    ensures
        link_sum(collapsed(entities, edges)) == total_weight(edges),
    decreases edges.len(),
{
    if edges.len() > 0 {
        lemma_collapsed_sum(entities, edges.drop_last());
        lemma_with_link_sum(
            collapsed(entities, edges.drop_last()),
            key_of(entities, edges.last().subject)->0,
            key_of(entities, edges.last().object)->0,
            edges.last().weight,
        );
    }
}

/// Both ends of every relationship are counted: the degrees of the full graph add
/// up to twice the weights of its links.
pub proof fn law_degrees_are_twice_the_weights(
    entities: Seq<ActiveEntity>,
    edges: Seq<EntityEdgeModel>,
)
    requires
        countable(edges),
        ids_are_distinct(entities),
    ensures
        ({
            let live = live_edges(entities, edges);
            degree_sum(connected_nodes(entities, live)) == 2 * link_sum(collapsed(entities, live))
        }),
{
    let live = live_edges(entities, edges);
    lemma_live_countable(entities, edges);
    lemma_all_degrees(entities, live);
    lemma_degree_sum(entities, live);
    lemma_collapsed_sum(entities, live);
}

proof fn lemma_with_link_pairs(
    links: Seq<LinkModel>,
    source: Seq<char>,
    target: Seq<char>,
    weight: int,
)
    requires
        pairs_are_distinct(links),
    ensures
        pairs_are_distinct(with_link(links, source, target, weight)),
{
    let same = |k: int| links[k].source == source && links[k].target == target;
    let at = if exists|k: int| 0 <= k < links.len() && #[trigger] same(k) {
        choose|k: int| 0 <= k < links.len() && #[trigger] same(k)
    } else {
        links.len() as int
    };
    assert forall|k: int| 0 <= k < at implies !((#[trigger] links[k]).source == source
        && links[k].target == target) by {
        if links[k].source == source && links[k].target == target {
            assert(same(k));
            assert(links[k].source == links[at].source && links[k].target == links[at].target);
        }
    }
    if at < links.len() {
        assert(same(at));
    }
    lemma_with_link_at(links, source, target, weight, at);
}

/// Whether no two links have the same two keys.
pub open spec fn pairs_are_distinct(links: Seq<LinkModel>) -> bool {
    forall|i: int, j: int|
        0 <= i < j < links.len() ==> !((#[trigger] links[i]).source == (#[trigger] links[j]).source
            && links[i].target == links[j].target)
}

/// The full graph has one link for each pair of keys.
pub proof fn law_links_are_collapsed(entities: Seq<ActiveEntity>, edges: Seq<EntityEdgeModel>)
    ensures
        pairs_are_distinct(collapsed(entities, edges)),
    decreases edges.len(),
{
    if edges.len() > 0 {
        law_links_are_collapsed(entities, edges.drop_last());
        lemma_with_link_pairs(
            collapsed(entities, edges.drop_last()),
            key_of(entities, edges.last().subject)->0,
            key_of(entities, edges.last().object)->0,
            edges.last().weight,
        );
    }
}

} // verus!
