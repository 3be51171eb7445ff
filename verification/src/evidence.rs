//! Evidence joins: seeds in the relationship graph, bounded traversal from
//! them, and the routes by which memories are reached.

use vstd::prelude::*;

use crate::json::text_of_string;
use crate::pool::{
    clone_text, interleaved, longer, longest, rank_row, round_robin, GraphSeedSource, ItemModel,
    PackPoolItem,
};
use crate::ranking::{Score, UNIT_SCORE_KEY};
use crate::terms::{join_span, one_of, query_alias_words, span_text, words};
use crate::text::{text_eq, views};

verus! {

/// Maximum number of query spans that are looked up as entity names.
pub const MAX_EVIDENCE_ENTITY_SPANS: usize = 32;

/// Maximum number of words in such a span.
pub const MAX_EVIDENCE_ENTITY_SPAN_WORDS: usize = 5;

/// At most the first `n` members of a list.
pub open spec fn first_n<A>(s: Seq<A>, n: nat) -> Seq<A> {
    if n < s.len() {
        s.take(n as int)
    } else {
        s
    }
}

/// Appending to a list that is cut at `n` members.
pub proof fn lemma_first_n_push<A>(s: Seq<A>, x: A, n: nat)
    ensures
        first_n(s.push(x), n) == if first_n(s, n).len() < n {
            first_n(s, n).push(x)
        } else {
            first_n(s, n)
        },
{
    if s.len() >= n {
        assert(s.push(x).take(n as int) =~= s.take(n as int));
        if s.len() == n {
            assert(s.take(n as int) =~= s);
        }
    } else {
        assert(first_n(s.push(x), n) =~= s.push(x));
    }
}

/// A run of neighbouring words of one query.
pub struct EvidenceQuerySpan {
    /// The query.
    pub query_index: usize,
    /// Position of the first word.
    pub start: usize,
    /// Position after the last word.
    pub end: usize,
    /// The words with one space between them, in ASCII lower case.
    pub normalized: String,
}

/// The model of an [`EvidenceQuerySpan`].
pub struct SpanModel {
    /// The query.
    pub query_index: usize,
    /// Position of the first word.
    pub start: int,
    /// Position after the last word.
    pub end: int,
    /// The text of the span.
    pub normalized: Seq<char>,
}

impl View for EvidenceQuerySpan {
    type V = SpanModel;

    open spec fn view(&self) -> SpanModel {
        SpanModel {
            query_index: self.query_index,
            start: self.start as int,
            end: self.end as int,
            normalized: self.normalized@,
        }
    }
}

/// The models of spans.
pub open spec fn span_models(list: Seq<EvidenceQuerySpan>) -> Seq<SpanModel> {
    list.map_values(|s: EvidenceQuerySpan| s@)
}

/// Words that are never looked up alone.
pub open spec fn entity_stopwords() -> Seq<Seq<char>> {
    seq![
        "a"@, "an"@, "and"@, "are"@, "at"@, "did"@, "do"@, "does"@, "for"@, "from"@, "how"@, "in"@,
        "is"@, "of"@, "on"@, "the"@, "to"@, "was"@, "were"@, "what"@, "when"@, "where"@, "which"@,
        "who"@, "why"@, "with"@, "work"@,
    ]
}

/// Whether a word is never looked up alone.
pub fn evidence_entity_stopword(value: &str) -> (r: bool)
    ensures
        r == entity_stopwords().contains(value@),
{
    let list: [&'static str; 27] = [
        "a", "an", "and", "are", "at", "did", "do", "does", "for", "from", "how", "in", "is", "of",
        "on", "the", "to", "was", "were", "what", "when", "where", "which", "who", "why", "with",
        "work",
    ];
    let r: bool = one_of(list.as_slice(), value);
    proof {
        let wanted = entity_stopwords();
        assert forall|i: int| 0 <= i < 27 implies (#[trigger] list@[i])@ == wanted[i] by {}
        if r {
            let i = choose|i: int| 0 <= i < list@.len() && (#[trigger] list@[i])@ == value@;
            assert(wanted[i] == value@);
        }
        if wanted.contains(value@) {
            let i = choose|i: int| 0 <= i < wanted.len() && wanted[i] == value@;
            assert(list@[i]@ == value@);
        }
    }
    r
}

/// The spans of `width` words that start at one of the first `starts` words.
pub open spec fn width_spans(
    list: Seq<Seq<char>>,
    query_index: usize,
    width: nat,
    starts: nat,
) -> Seq<SpanModel>
    decreases starts,
{
    if starts == 0 {
        Seq::empty()
    } else {
        let before = width_spans(list, query_index, width, (starts - 1) as nat);
        let start = starts - 1;
        let text = span_text(list, start, start + width);
        if width == 1 && entity_stopwords().contains(text) {
            before
        } else {
            before.push(SpanModel { query_index, start, end: start + width, normalized: text })
        }
    }
}

/// The spans of the `rows` greatest widths up to `max` words, wider ones first.
pub open spec fn wide_spans(
    list: Seq<Seq<char>>,
    query_index: usize,
    max: nat,
    rows: nat,
) -> Seq<SpanModel>
    decreases rows,
{
    if rows == 0 {
        Seq::empty()
    } else {
        let width = (max - (rows - 1)) as nat;
        wide_spans(list, query_index, max, (rows - 1) as nat) + width_spans(
            list,
            query_index,
            width,
            (list.len() - width + 1) as nat,
        )
    }
}

/// The number of words of the widest span.
pub open spec fn widest(list: Seq<Seq<char>>) -> nat {
    if list.len() < MAX_EVIDENCE_ENTITY_SPAN_WORDS {
        list.len()
    } else {
        MAX_EVIDENCE_ENTITY_SPAN_WORDS as nat
    }
}

/// The spans of one query, wider ones first, then by position.
pub open spec fn query_spans(query: Seq<char>, query_index: usize) -> Seq<SpanModel> {
    let list = words(query);
    wide_spans(list, query_index, widest(list), widest(list))
}

/// The spans of all queries.
pub open spec fn all_spans(queries: Seq<Seq<char>>) -> Seq<SpanModel>
    decreases queries.len(),
{
    if queries.len() == 0 {
        Seq::empty()
    } else {
        all_spans(queries.drop_last()) + query_spans(queries.last(), (queries.len() - 1) as usize)
    }
}

/// Appends the spans of one width, as far as there is room.
fn push_width_spans(
    spans: &mut Vec<EvidenceQuerySpan>,
    list: &Vec<String>,
    query_index: usize,
    width: usize,
    Ghost(all): Ghost<Seq<SpanModel>>,
)
    requires
        1 <= width <= list@.len(),
        span_models(old(spans)@) == first_n(all, MAX_EVIDENCE_ENTITY_SPANS as nat),
    ensures
        span_models(final(spans)@) == first_n(
            all + width_spans(
                views(list@),
                query_index,
                width as nat,
                (list@.len() - width + 1) as nat,
            ),
            MAX_EVIDENCE_ENTITY_SPANS as nat,
        ),
{
    let ghost models = views(list@);
    let mut start: usize = 0;
    assert(all + width_spans(models, query_index, width as nat, 0) =~= all);
    while start <= list.len() - width
        invariant
            models == views(list@),
            1 <= width <= list@.len(),
            start <= list@.len() - width + 1,
            span_models(spans@) == first_n(
                all + width_spans(models, query_index, width as nat, start as nat),
                MAX_EVIDENCE_ENTITY_SPANS as nat,
            ),
        decreases list@.len() - width + 1 - start,
    {
        let normalized = join_span(list, start, start + width);
        let ghost text = normalized@;
        let ghost before = width_spans(models, query_index, width as nat, start as nat);
        let ghost after = width_spans(models, query_index, width as nat, (start + 1) as nat);
        let ghost span = SpanModel {
            query_index,
            start: start as int,
            end: start + width,
            normalized: text,
        };
        let skip: bool = width == 1 && evidence_entity_stopword(normalized.as_str());
        if !skip {
            proof {
                assert(all + after =~= (all + before).push(span));
                lemma_first_n_push(all + before, span, MAX_EVIDENCE_ENTITY_SPANS as nat);
            }
            if spans.len() < MAX_EVIDENCE_ENTITY_SPANS {
                let ghost now = spans@;
                spans.push(EvidenceQuerySpan { query_index, start, end: start + width, normalized });
                assert(span_models(spans@) =~= span_models(now).push(span));
            }
        }
        start = start + 1;
    }
}

/// The word spans of the queries that are looked up as entity names: per query
/// the wider ones first, single stopwords left out, thirty-two at most.
pub fn evidence_query_spans(queries: &Vec<String>) -> (r: Vec<EvidenceQuerySpan>)
    ensures
        span_models(r@) == first_n(all_spans(views(queries@)), MAX_EVIDENCE_ENTITY_SPANS as nat),
{
    let mut spans: Vec<EvidenceQuerySpan> = Vec::new();
    let ghost models = views(queries@);
    assert(span_models(spans@) =~= first_n(
        all_spans(models.take(0)),
        MAX_EVIDENCE_ENTITY_SPANS as nat,
    ));
    for query_index in 0..queries.len()
        invariant
            models == views(queries@),
            span_models(spans@) == first_n(
                all_spans(models.take(query_index as int)),
                MAX_EVIDENCE_ENTITY_SPANS as nat,
            ),
    {
        let list = query_alias_words(queries[query_index].as_str());
        let ghost list_models = views(list@);
        let ghost base = all_spans(models.take(query_index as int));
        let max: usize = if list.len() < MAX_EVIDENCE_ENTITY_SPAN_WORDS {
            list.len()
        } else {
            MAX_EVIDENCE_ENTITY_SPAN_WORDS
        };
        let mut rows: usize = 0;
        assert(base + wide_spans(list_models, query_index, max as nat, 0) =~= base);
        while rows < max
            invariant
                list_models == views(list@),
                max == widest(list_models),
                rows <= max,
                span_models(spans@) == first_n(
                    base + wide_spans(list_models, query_index, max as nat, rows as nat),
                    MAX_EVIDENCE_ENTITY_SPANS as nat,
                ),
            decreases max - rows,
        {
            let width: usize = max - rows;
            let ghost sofar = base + wide_spans(list_models, query_index, max as nat, rows as nat);
            push_width_spans(&mut spans, &list, query_index, width, Ghost(sofar));
            proof {
                assert(sofar + width_spans(
                    list_models,
                    query_index,
                    width as nat,
                    (list_models.len() - width + 1) as nat,
                ) =~= base + wide_spans(list_models, query_index, max as nat, (rows + 1) as nat));
            }
            rows = rows + 1;
        }
        proof {
            let next = models.take(query_index + 1);
            assert(next.drop_last() =~= models.take(query_index as int));
            assert(next.last() == queries@[query_index as int]@);
        }
    }
    assert(models.take(queries@.len() as int) =~= models);
    spans
}

/// An entity as a lookup found it.
pub struct EntityRef {
    /// Entity id.
    pub id: String,
    /// Entity key.
    pub entity_key: String,
    /// The space that the entity lives in.
    pub space_name: String,
}

/// A place in the relationship graph from which evidence is followed.
pub struct EvidenceGraphSeed {
    /// Which arm supplied the seed.
    pub source: GraphSeedSource,
    /// The entity to start from.
    pub entity_id: String,
    /// The space of the entity.
    pub space_name: String,
    /// The activation that the seed starts with.
    pub score: Score,
    /// The memory that led to the entity.
    pub memory_id: Option<String>,
    /// The query whose span named the entity.
    pub matched_query_index: Option<usize>,
    /// The span that named the entity.
    pub matched_query_span: Option<String>,
}

/// The model of an [`EvidenceGraphSeed`].
pub struct SeedModel {
    /// Which arm supplied the seed.
    pub source: GraphSeedSource,
    /// The entity to start from.
    pub entity_id: Seq<char>,
    /// The space of the entity.
    pub space_name: Seq<char>,
    /// The activation that the seed starts with.
    pub score: Score,
    /// The memory that led to the entity.
    pub memory_id: Option<Seq<char>>,
    /// The query whose span named the entity.
    pub matched_query_index: Option<usize>,
    /// The span that named the entity.
    pub matched_query_span: Option<Seq<char>>,
}

impl View for EvidenceGraphSeed {
    type V = SeedModel;

    open spec fn view(&self) -> SeedModel {
        SeedModel {
            source: self.source,
            entity_id: self.entity_id@,
            space_name: self.space_name@,
            score: self.score,
            memory_id: text_of_string(self.memory_id),
            matched_query_index: self.matched_query_index,
            matched_query_span: text_of_string(self.matched_query_span),
        }
    }
}

impl Clone for EvidenceGraphSeed {
    fn clone(&self) -> (r: Self)
        ensures
            r@ == self@,
    {
        EvidenceGraphSeed {
            source: self.source,
            entity_id: self.entity_id.clone(),
            space_name: self.space_name.clone(),
            score: self.score,
            memory_id: clone_text(&self.memory_id),
            matched_query_index: self.matched_query_index,
            matched_query_span: clone_text(&self.matched_query_span),
        }
    }
}

/// The models of seeds.
pub open spec fn seed_models(list: Seq<EvidenceGraphSeed>) -> Seq<SeedModel> {
    list.map_values(|s: EvidenceGraphSeed| s@)
}

/// Whether one of the seeds starts at the entity.
pub open spec fn has_entity(seeds: Seq<SeedModel>, entity_id: Seq<char>) -> bool {
    exists|i: int| 0 <= i < seeds.len() && (#[trigger] seeds[i]).entity_id == entity_id
}

/// The seeds with one more, unless one starts at its entity already.
pub open spec fn with_seed(seeds: Seq<SeedModel>, seed: SeedModel) -> Seq<SeedModel> {
    if has_entity(seeds, seed.entity_id) {
        seeds
    } else {
        seeds.push(seed)
    }
}

/// Adds a seed unless one starts at its entity already.
fn push_seed(seeds: &mut Vec<EvidenceGraphSeed>, seed: EvidenceGraphSeed)
    ensures
        seed_models(final(seeds)@) == with_seed(seed_models(old(seeds)@), seed@),
{
    let ghost before = seed_models(seeds@);
    let ghost seeds_before = seeds@;
    for i in 0..seeds.len()
        invariant
            seeds@ == seeds_before,
            before == seed_models(seeds@),
            forall|j: int| 0 <= j < i ==> (#[trigger] before[j]).entity_id != seed@.entity_id,
    {
        if text_eq(seeds[i].entity_id.as_str(), seed.entity_id.as_str()) {
            assert(before[i as int].entity_id == seed@.entity_id);
            return ;
        }
    }
    let ghost now = seeds@;
    seeds.push(seed);
    assert(seed_models(seeds@) =~= seed_models(now).push(seed@));
}

/// The seed that an entity makes which a pool item leads to.
pub open spec fn memory_seed(item: ItemModel, entity: EntityRef) -> SeedModel {
    SeedModel {
        source: GraphSeedSource::Memory,
        entity_id: entity.id@,
        space_name: entity.space_name@,
        score: item.score,
        memory_id: Some(item.memory_id),
        matched_query_index: None,
        matched_query_span: None,
    }
}

/// `seeds` and the seeds that the entities of one item make.
pub open spec fn with_item_seeds(
    seeds: Seq<SeedModel>,
    item: ItemModel,
    entities: Seq<EntityRef>,
) -> Seq<SeedModel>
    decreases entities.len(),
{
    if entities.len() == 0 {
        seeds
    } else {
        with_seed(
            with_item_seeds(seeds, item, entities.drop_last()),
            memory_seed(item, entities.last()),
        )
    }
}

/// The seeds of the memory arm: the entities of each item in pool order, each
/// entity once.
pub open spec fn memory_seeds(pool: Seq<ItemModel>, entities: Seq<Seq<EntityRef>>) -> Seq<SeedModel>
    decreases pool.len(),
{
    if pool.len() == 0 {
        Seq::empty()
    } else {
        with_item_seeds(
            memory_seeds(pool.drop_last(), entities.drop_last()),
            pool.last(),
            entities.last(),
        )
    }
}

/// The entity lists that stand beside a pool.
pub open spec fn entity_lists(list: Seq<Vec<EntityRef>>) -> Seq<Seq<EntityRef>> {
    list.map_values(|v: Vec<EntityRef>| v@)
}

/// The seeds of the memory arm. `entities` holds, for each pool item, the active
/// entities that its routing relationships support and the one it is attached to.
pub fn evidence_memory_seeds(pool: &Vec<PackPoolItem>, entities: &Vec<Vec<EntityRef>>) -> (r: Vec<
    EvidenceGraphSeed,
>)
    requires
        pool@.len() == entities@.len(),
    ensures
        seed_models(r@) == memory_seeds(crate::pool::items(pool@), entity_lists(entities@)),
{
    let mut seeds: Vec<EvidenceGraphSeed> = Vec::new();
    let ghost models = crate::pool::items(pool@);
    let ghost lists = entity_lists(entities@);
    assert(seed_models(seeds@) =~= Seq::empty());
    for i in 0..pool.len()
        invariant
            models == crate::pool::items(pool@),
            lists == entity_lists(entities@),
            pool@.len() == entities@.len(),
            seed_models(seeds@) == memory_seeds(models.take(i as int), lists.take(i as int)),
    {
        let ghost base = seed_models(seeds@);
        let ghost row = entities@[i as int]@;
        let ghost item = models[i as int];
        let count: usize = entities[i].len();
        for k in 0..count
            invariant
                count == row.len(),
                i < pool@.len(),
                pool@.len() == entities@.len(),
                item == pool@[i as int]@,
                row == entities@[i as int]@,
                seed_models(seeds@) == with_item_seeds(base, item, row.take(k as int)),
        {
            let entity = &entities[i][k];
            let seed = EvidenceGraphSeed {
                source: GraphSeedSource::Memory,
                entity_id: entity.id.clone(),
                space_name: entity.space_name.clone(),
                score: pool[i].score,
                memory_id: Some(pool[i].memory_id.clone()),
                matched_query_index: None,
                matched_query_span: None,
            };
            proof {
                let next = row.take(k + 1);
                assert(next.drop_last() =~= row.take(k as int));
                assert(next.last() == row[k as int]);
                assert(seed@ == memory_seed(item, row[k as int]));
            }
            push_seed(&mut seeds, seed);
        }
        proof {
            assert(row.take(row.len() as int) =~= row);
            assert(models.take(i + 1).drop_last() =~= models.take(i as int));
            assert(lists.take(i + 1).drop_last() =~= lists.take(i as int));
            assert(lists.take(i + 1).last() == row);
        }
    }
    assert(models.take(pool@.len() as int) =~= models);
    assert(lists.take(entities@.len() as int) =~= lists);
    seeds
}

/// A matched range of words.
pub struct MatchedRange {
    /// The query.
    pub query_index: usize,
    /// Position of the first word.
    pub start: usize,
    /// Position after the last word.
    pub end: usize,
}

/// Whether a span shares a word with one of the ranges.
pub open spec fn overlaps(ranges: Seq<MatchedRange>, span: SpanModel) -> bool {
    exists|i: int|
        0 <= i < ranges.len() && (#[trigger] ranges[i]).query_index == span.query_index && span.start
            < ranges[i].end && span.end > ranges[i].start
}

/// The seed that a span makes which names one entity.
pub open spec fn entity_seed(span: SpanModel, entity: EntityRef) -> SeedModel {
    SeedModel {
        source: GraphSeedSource::Entity,
        entity_id: entity.id@,
        space_name: entity.space_name@,
        score: Score { key: UNIT_SCORE_KEY },
        memory_id: None,
        matched_query_index: Some(span.query_index),
        matched_query_span: Some(span.normalized),
    }
}

/// The seeds of the entity arm and the ranges matched on the way: spans in
/// order, those left out that touch a matched range or do not name exactly one
/// entity, each entity once.
pub open spec fn entity_walk(
    spans: Seq<SpanModel>,
    matches: Seq<Seq<EntityRef>>,
) -> (Seq<SeedModel>, Seq<MatchedRange>)
    decreases spans.len(),
{
    if spans.len() == 0 {
        (Seq::empty(), Seq::empty())
    } else {
        let before = entity_walk(spans.drop_last(), matches.drop_last());
        let span = spans.last();
        if overlaps(before.1, span) || matches.last().len() != 1 {
            before
        } else {
            (
                with_seed(before.0, entity_seed(span, matches.last()[0])),
                before.1.push(
                    MatchedRange {
                        query_index: span.query_index,
                        start: span.start as usize,
                        end: span.end as usize,
                    },
                ),
            )
        }
    }
}

/// Whether a span shares a word with one of the ranges.
fn span_overlaps(ranges: &Vec<MatchedRange>, span: &EvidenceQuerySpan) -> (r: bool)
    ensures
        r == overlaps(ranges@, span@),
{
    for i in 0..ranges.len()
        invariant
            forall|j: int|
                0 <= j < i ==> !((#[trigger] ranges@[j]).query_index == span.query_index
                    && span.start < ranges@[j].end && span.end > ranges@[j].start),
    {
        if ranges[i].query_index == span.query_index && span.start < ranges[i].end && span.end
            > ranges[i].start {
            return true;
        }
    }
    false
}

/// The seeds of the entity arm. `matches` holds, for each span, the active
/// entities whose key, name or alias it is. An exact match scores one.
pub fn evidence_entity_seeds(
    spans: &Vec<EvidenceQuerySpan>,
    matches: &Vec<Vec<EntityRef>>,
) -> (r: Vec<EvidenceGraphSeed>)
    requires
        spans@.len() == matches@.len(),
    ensures
        seed_models(r@) == entity_walk(span_models(spans@), entity_lists(matches@)).0,
{
    let mut seeds: Vec<EvidenceGraphSeed> = Vec::new();
    let mut ranges: Vec<MatchedRange> = Vec::new();
    let ghost models = span_models(spans@);
    let ghost lists = entity_lists(matches@);
    assert(seed_models(seeds@) =~= Seq::empty());
    for i in 0..spans.len()
        invariant
            models == span_models(spans@),
            lists == entity_lists(matches@),
            spans@.len() == matches@.len(),
            (seed_models(seeds@), ranges@) == entity_walk(
                models.take(i as int),
                lists.take(i as int),
            ),
    {
        proof {
            assert(models.take(i + 1).drop_last() =~= models.take(i as int));
            assert(lists.take(i + 1).drop_last() =~= lists.take(i as int));
            assert(models.take(i + 1).last() == spans@[i as int]@);
            assert(lists.take(i + 1).last() == matches@[i as int]@);
        }
        let span = &spans[i];
        if !span_overlaps(&ranges, span) && matches[i].len() == 1 {
            let entity = &matches[i][0];
            let seed = EvidenceGraphSeed {
                source: GraphSeedSource::Entity,
                entity_id: entity.id.clone(),
                space_name: entity.space_name.clone(),
                score: Score { key: UNIT_SCORE_KEY },
                memory_id: None,
                matched_query_index: Some(span.query_index),
                matched_query_span: Some(span.normalized.clone()),
            };
            ranges.push(
                MatchedRange { query_index: span.query_index, start: span.start, end: span.end },
            );
            push_seed(&mut seeds, seed);
        }
    }
    assert(models.take(spans@.len() as int) =~= models);
    assert(lists.take(matches@.len() as int) =~= lists);
    seeds
}

/// No two seeds of one arm start at the same entity.
pub open spec fn distinct_entities(seeds: Seq<SeedModel>) -> bool {
    forall|i: int, j: int|
        0 <= i < j < seeds.len() ==> (#[trigger] seeds[i]).entity_id != (#[trigger] seeds[j]).entity_id
}

proof fn lemma_with_seed_distinct(seeds: Seq<SeedModel>, seed: SeedModel)
    requires
        distinct_entities(seeds),
    ensures
        distinct_entities(with_seed(seeds, seed)),
{
    let after = with_seed(seeds, seed);
    if !has_entity(seeds, seed.entity_id) {
        assert forall|i: int, j: int| 0 <= i < j < after.len() implies (
        #[trigger] after[i]).entity_id != (#[trigger] after[j]).entity_id by {
            assert(after[i] == seeds[i]);
        }
    }
}

proof fn lemma_item_seeds_distinct(
    seeds: Seq<SeedModel>,
    item: ItemModel,
    entities: Seq<EntityRef>,
)
    requires
        distinct_entities(seeds),
    ensures
        distinct_entities(with_item_seeds(seeds, item, entities)),
    decreases entities.len(),
{
    if entities.len() > 0 {
        lemma_item_seeds_distinct(seeds, item, entities.drop_last());
        lemma_with_seed_distinct(
            with_item_seeds(seeds, item, entities.drop_last()),
            memory_seed(item, entities.last()),
        );
    }
}

/// The memory arm starts at each entity once.
pub proof fn law_memory_seeds_are_distinct(
    pool: Seq<ItemModel>,
    entities: Seq<Seq<EntityRef>>,
)
    ensures
        distinct_entities(memory_seeds(pool, entities)),
    decreases pool.len(),
{
    if pool.len() > 0 {
        law_memory_seeds_are_distinct(pool.drop_last(), entities.drop_last());
        lemma_item_seeds_distinct(
            memory_seeds(pool.drop_last(), entities.drop_last()),
            pool.last(),
            entities.last(),
        );
    }
}

/// The entity arm starts at each entity once, and the ranges it matched do not
/// touch each other.
pub proof fn law_entity_seeds_are_distinct(
    spans: Seq<SpanModel>,
    matches: Seq<Seq<EntityRef>>,
)
    requires
        forall|i: int|
            0 <= i < spans.len() ==> 0 <= (#[trigger] spans[i]).start < spans[i].end
                <= usize::MAX,
    ensures
        distinct_entities(entity_walk(spans, matches).0),
        forall|i: int, j: int|
            0 <= i < j < entity_walk(spans, matches).1.len() ==> {
                let a = #[trigger] entity_walk(spans, matches).1[i];
                let b = #[trigger] entity_walk(spans, matches).1[j];
                a.query_index != b.query_index || b.start >= a.end || b.end <= a.start
            },
    decreases spans.len(),
{
    if spans.len() > 0 {
        let rest = spans.drop_last();
        assert forall|i: int| 0 <= i < rest.len() implies 0 <= (#[trigger] rest[i]).start
            < rest[i].end <= usize::MAX by {
            assert(rest[i] == spans[i]);
        }
        law_entity_seeds_are_distinct(rest, matches.drop_last());
        let before = entity_walk(rest, matches.drop_last());
        let span = spans.last();
        assert(spans[spans.len() - 1] == span);
        if !(overlaps(before.1, span) || matches.last().len() != 1) {
            lemma_with_seed_distinct(before.0, entity_seed(span, matches.last()[0]));
            let after = entity_walk(spans, matches).1;
            assert forall|i: int, j: int| 0 <= i < j < after.len() implies ({
                let a = #[trigger] after[i];
                let b = #[trigger] after[j];
                a.query_index != b.query_index || b.start >= a.end || b.end <= a.start
            }) by {
                assert(after[i] == before.1[i]);
                if j == before.1.len() {
                    assert(!overlaps(before.1, span));
                } else {
                    assert(after[j] == before.1[j]);
                }
            }
        }
    }
}

/// Shares the seed budget between the arms: memory and entity seeds by turns,
/// memory first, until the limit is reached or both arms are used up.
pub fn allocate_evidence_seeds(
    memory_seeds: &Vec<EvidenceGraphSeed>,
    entity_seeds: &Vec<EvidenceGraphSeed>,
    limit: usize,
) -> (r: Vec<EvidenceGraphSeed>)
    ensures
        seed_models(r@) == first_n(
            interleaved(seq![seed_models(memory_seeds@), seed_models(entity_seeds@)]),
            limit as nat,
        ),
{
    let ghost a = seed_models(memory_seeds@);
    let ghost b = seed_models(entity_seeds@);
    let ghost lists = seq![a, b];
    let max_len: usize = if memory_seeds.len() > entity_seeds.len() {
        memory_seeds.len()
    } else {
        entity_seeds.len()
    };
    proof {
        assert(lists.drop_last() =~= seq![a]);
        assert(seq![a].drop_last() =~= Seq::<Seq<SeedModel>>::empty());
        assert(longest(Seq::<Seq<SeedModel>>::empty()) == 0);
        assert(longest(seq![a]) == a.len());
        assert(longest(lists) == longer(a.len(), b.len()));
    }
    let mut selected: Vec<EvidenceGraphSeed> = Vec::new();
    assert(seed_models(selected@) =~= first_n(round_robin(lists, 0), limit as nat));
    for rank in 0..max_len
        invariant
            a == seed_models(memory_seeds@),
            b == seed_models(entity_seeds@),
            lists == seq![a, b],
            max_len == longer(a.len(), b.len()),
            seed_models(selected@) == first_n(round_robin(lists, rank as nat), limit as nat),
    {
        let ghost done = round_robin(lists, rank as nat);
        let ghost first: Seq<SeedModel> = if rank < a.len() {
            seq![a[rank as int]]
        } else {
            Seq::empty()
        };
        let ghost second: Seq<SeedModel> = if rank < b.len() {
            seq![b[rank as int]]
        } else {
            Seq::empty()
        };
        proof {
            assert(lists.drop_last() =~= seq![a]);
            assert(seq![a].drop_last() =~= Seq::<Seq<SeedModel>>::empty());
            assert(rank_row(Seq::<Seq<SeedModel>>::empty(), rank as int) =~= Seq::empty());
            assert(rank_row(seq![a], rank as int) =~= first);
            assert(rank_row(lists, rank as int) =~= first + second);
            assert(done + Seq::<SeedModel>::empty() =~= done);
            if rank < a.len() {
                lemma_first_n_push(done, a[rank as int], limit as nat);
                assert(done + first =~= done.push(a[rank as int]));
            }
        }
        if rank < memory_seeds.len() && selected.len() < limit {
            let ghost now = selected@;
            selected.push(memory_seeds[rank].clone());
            assert(seed_models(selected@) =~= seed_models(now).push(a[rank as int]));
        }
        assert(seed_models(selected@) == first_n(done + first, limit as nat));
        proof {
            if rank < b.len() {
                lemma_first_n_push(done + first, b[rank as int], limit as nat);
                assert(done + (first + second) =~= (done + first).push(b[rank as int]));
            } else {
                assert(done + (first + second) =~= done + first);
            }
        }
        if rank < entity_seeds.len() && selected.len() < limit {
            let ghost now = selected@;
            selected.push(entity_seeds[rank].clone());
            assert(seed_models(selected@) =~= seed_models(now).push(b[rank as int]));
        }
    }
    selected
}

} // verus!
