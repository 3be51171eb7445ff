//! What filters select, and what listings and the statements of a search promise.

use vstd::prelude::*;

use crate::error::Error;
use crate::filters::{
    filter_conditions, filter_size, names_all_spaces, placeholder_run,
    prepare_filters, prepare_recall_filters, with_in, with_tags, ArgsModel, Conditions,
};
use crate::json::text_of_string;
use crate::listing::{
    list_memories, memory_list_sql, MemoryListCandidate, MemoryListReport, MemoryListRequest,
    PreparedMemoryListRequest,
};
use crate::requests::{FiltersModel, SearchFilters};
use crate::search::{PreparedModel, PreparedSearchRequest};
use crate::statements::{
    matching_ids_sql, search_sql, semantic_search_sql, shortlist_width,
    within_limits,
};
use crate::text::{decimal, joined, trimmed, views};
use crate::validate::normal_tags;

verus! {

/// Whether one of the conditions of a statement is that a column has one of some texts,
/// and the statement binds those texts to the placeholders of the condition.
pub open spec fn asks_for_one_of(
    texts: Seq<Seq<char>>,
    reserved: nat,
    bound: Seq<Seq<char>>,
    column: Seq<char>,
    wanted: Seq<Seq<char>>,
) -> bool {
    exists|t: int, b: int|
        {
            &&& 0 <= t < texts.len()
            &&& reserved <= b && b - reserved + wanted.len() <= bound.len()
            &&& #[trigger] texts[t] == column + " IN ("@ + #[trigger] placeholder_run(
                b as nat,
                wanted.len(),
            ) + ")"@
            &&& bound.subrange(b - reserved, b - reserved + wanted.len()) == wanted
        }
}

/// Whether one of the conditions of a statement is that a memory has one of some tags.
pub open spec fn asks_for_tags(
    texts: Seq<Seq<char>>,
    reserved: nat,
    bound: Seq<Seq<char>>,
    wanted: Seq<Seq<char>>,
) -> bool {
    exists|t: int, b: int|
        {
            &&& 0 <= t < texts.len()
            &&& reserved <= b && b - reserved + wanted.len() <= bound.len()
            &&& #[trigger] texts[t]
                == "EXISTS (SELECT 1 FROM memory_tags mt WHERE mt.memory_id = m.id AND mt.tag IN ("@
                + #[trigger] placeholder_run(b as nat, wanted.len()) + "))"@
            &&& bound.subrange(b - reserved, b - reserved + wanted.len()) == wanted
        }
}

/// One for a list that is not empty.
pub open spec fn counts(list: Seq<Seq<char>>) -> nat {
    if list.len() > 0 {
        1
    } else {
        0
    }
}

/// Whether conditions select what filters ask for, and ask for nothing else: each filter
/// that is not empty is one condition, and where expired memories are hidden, a memory
/// has to be valid still and not to have expired.
#[verifier::opaque]
pub open spec fn selects(
    texts: Seq<Seq<char>>,
    reserved: nat,
    bound: Seq<Seq<char>>,
    f: FiltersModel,
) -> bool {
    let tags = normal_tags(f.tags)->Ok_0;
    &&& f.spaces.len() > 0 ==> asks_for_one_of(texts, reserved, bound, "m.space_name"@, f.spaces)
    &&& f.silos.len() > 0 ==> asks_for_one_of(texts, reserved, bound, "m.silo_name"@, f.silos)
    &&& f.scopes.len() > 0 ==> asks_for_one_of(texts, reserved, bound, "m.scope"@, f.scopes)
    &&& f.projects.len() > 0 ==> asks_for_one_of(
        texts,
        reserved,
        bound,
        "m.project_key"@,
        f.projects,
    )
    &&& f.kinds.len() > 0 ==> asks_for_one_of(texts, reserved, bound, "m.kind"@, f.kinds)
    &&& f.statuses.len() > 0 ==> asks_for_one_of(texts, reserved, bound, "m.status"@, f.statuses)
    &&& f.entity_keys.len() > 0 ==> asks_for_one_of(
        texts,
        reserved,
        bound,
        "m.entity_key"@,
        f.entity_keys,
    )
    &&& f.claim_keys.len() > 0 ==> asks_for_one_of(
        texts,
        reserved,
        bound,
        "m.claim_key"@,
        f.claim_keys,
    )
    &&& tags.len() > 0 ==> asks_for_tags(texts, reserved, bound, tags)
    &&& f.hide_expired ==> texts.contains(
        "(m.valid_to IS NULL OR julianday(m.valid_to) >= julianday('now'))"@,
    ) && texts.contains("(m.expires_at IS NULL OR julianday(m.expires_at) > julianday('now'))"@)
    &&& texts.len() == counts(f.spaces) + counts(f.silos) + counts(f.scopes) + counts(f.projects)
        + counts(f.kinds) + counts(f.statuses) + counts(f.entity_keys) + counts(f.claim_keys)
        + counts(tags) + if f.hide_expired {
        2nat
    } else {
        0nat
    }
}

/// Whether conditions are the first of more conditions.
spec fn grows(a: Conditions, b: Conditions) -> bool {
    &&& a.texts.len() <= b.texts.len()
    &&& forall|t: int| 0 <= t < a.texts.len() ==> #[trigger] b.texts[t] == a.texts[t]
    &&& a.args.reserved == b.args.reserved
    &&& a.args.values.len() <= b.args.values.len()
    &&& forall|t: int|
        0 <= t < a.args.values.len() ==> #[trigger] b.args.values[t] == a.args.values[t]
}

proof fn lemma_kept(a: Conditions, b: Conditions, column: Seq<char>, wanted: Seq<Seq<char>>)
    requires
        grows(a, b),
    ensures
        asks_for_one_of(a.texts, a.args.reserved, a.args.values, column, wanted)
            ==> asks_for_one_of(b.texts, b.args.reserved, b.args.values, column, wanted),
        asks_for_tags(a.texts, a.args.reserved, a.args.values, wanted) ==> asks_for_tags(
            b.texts,
            b.args.reserved,
            b.args.values,
            wanted,
        ),
{
    let reserved = a.args.reserved;
    if asks_for_one_of(a.texts, reserved, a.args.values, column, wanted) {
        let (t, at) = choose|t: int, at: int|
            {
                &&& 0 <= t < a.texts.len()
                &&& reserved <= at && at - reserved + wanted.len() <= a.args.values.len()
                &&& #[trigger] a.texts[t] == column + " IN ("@ + #[trigger] placeholder_run(
                    at as nat,
                    wanted.len(),
                ) + ")"@
                &&& a.args.values.subrange(at - reserved, at - reserved + wanted.len()) == wanted
            };
        assert(b.texts[t] == a.texts[t]);
        assert(b.args.values.subrange(at - reserved, at - reserved + wanted.len())
            =~= a.args.values.subrange(at - reserved, at - reserved + wanted.len()));
    }
    if asks_for_tags(a.texts, reserved, a.args.values, wanted) {
        let (t, at) = choose|t: int, at: int|
            {
                &&& 0 <= t < a.texts.len()
                &&& reserved <= at && at - reserved + wanted.len() <= a.args.values.len()
                &&& #[trigger] a.texts[t]
                    == "EXISTS (SELECT 1 FROM memory_tags mt WHERE mt.memory_id = m.id AND mt.tag IN ("@
                    + #[trigger] placeholder_run(at as nat, wanted.len()) + "))"@
                &&& a.args.values.subrange(at - reserved, at - reserved + wanted.len()) == wanted
            };
        assert(b.texts[t] == a.texts[t]);
        assert(b.args.values.subrange(at - reserved, at - reserved + wanted.len())
            =~= a.args.values.subrange(at - reserved, at - reserved + wanted.len()));
    }
}

proof fn lemma_with_in(c: Conditions, column: Seq<char>, wanted: Seq<Seq<char>>)
    ensures
        grows(c, with_in(c, column, wanted)),
        wanted.len() > 0 ==> asks_for_one_of(
            with_in(c, column, wanted).texts,
            c.args.reserved,
            with_in(c, column, wanted).args.values,
            column,
            wanted,
        ),
        with_in(c, column, wanted).texts.len() == c.texts.len() + counts(wanted),
{
    let after = with_in(c, column, wanted);
    if wanted.len() > 0 {
        let b = c.args.count() as int;
        let reserved = c.args.reserved;
        assert(after.args.values.subrange(b - reserved, b - reserved + wanted.len()) =~= wanted);
        assert(after.texts[c.texts.len() as int] == column + " IN ("@ + placeholder_run(
            b as nat,
            wanted.len(),
        ) + ")"@);
    }
}

proof fn lemma_with_tags(c: Conditions, wanted: Seq<Seq<char>>)
    ensures
        grows(c, with_tags(c, wanted)),
        wanted.len() > 0 ==> asks_for_tags(
            with_tags(c, wanted).texts,
            c.args.reserved,
            with_tags(c, wanted).args.values,
            wanted,
        ),
        with_tags(c, wanted).texts.len() == c.texts.len() + counts(wanted),
{
    let after = with_tags(c, wanted);
    if wanted.len() > 0 {
        let b = c.args.count() as int;
        let reserved = c.args.reserved;
        assert(after.args.values.subrange(b - reserved, b - reserved + wanted.len()) =~= wanted);
        assert(after.texts[c.texts.len() as int]
            == "EXISTS (SELECT 1 FROM memory_tags mt WHERE mt.memory_id = m.id AND mt.tag IN ("@
            + placeholder_run(b as nat, wanted.len()) + "))"@);
    }
}

/// The conditions of filters select what the filters ask for.
#[verifier::spinoff_prover]
#[verifier::rlimit(60)]
pub proof fn law_filters_select_what_they_ask_for(f: FiltersModel, args: ArgsModel)
    ensures
        selects(
            filter_conditions(f, args).texts,
            args.reserved,
            filter_conditions(f, args).args.values,
            f,
        ),
{
    let tags = normal_tags(f.tags)->Ok_0;
    let c0 = Conditions { texts: Seq::empty(), args };
    let c1 = with_in(c0, "m.space_name"@, f.spaces);
    let c2 = with_in(c1, "m.silo_name"@, f.silos);
    let c3 = with_in(c2, "m.scope"@, f.scopes);
    let c4 = with_in(c3, "m.project_key"@, f.projects);
    let c5 = with_in(c4, "m.kind"@, f.kinds);
    let c6 = with_in(c5, "m.status"@, f.statuses);
    let c7 = with_in(c6, "m.entity_key"@, f.entity_keys);
    let c8 = with_in(c7, "m.claim_key"@, f.claim_keys);
    let c9 = with_tags(c8, tags);
    let c = filter_conditions(f, args);
    lemma_with_in(c0, "m.space_name"@, f.spaces);
    lemma_with_in(c1, "m.silo_name"@, f.silos);
    lemma_with_in(c2, "m.scope"@, f.scopes);
    lemma_with_in(c3, "m.project_key"@, f.projects);
    lemma_with_in(c4, "m.kind"@, f.kinds);
    lemma_with_in(c5, "m.status"@, f.statuses);
    lemma_with_in(c6, "m.entity_key"@, f.entity_keys);
    lemma_with_in(c7, "m.claim_key"@, f.claim_keys);
    lemma_with_tags(c8, tags);
    assert(grows(c9, c));
    lemma_kept(c9, c, ""@, tags);
    assert(grows(c8, c));
    lemma_kept(c8, c, "m.claim_key"@, f.claim_keys);
    assert(grows(c7, c));
    lemma_kept(c7, c, "m.entity_key"@, f.entity_keys);
    assert(grows(c6, c));
    lemma_kept(c6, c, "m.status"@, f.statuses);
    assert(grows(c5, c));
    lemma_kept(c5, c, "m.kind"@, f.kinds);
    assert(grows(c4, c));
    lemma_kept(c4, c, "m.project_key"@, f.projects);
    assert(grows(c3, c));
    lemma_kept(c3, c, "m.scope"@, f.scopes);
    assert(grows(c2, c));
    lemma_kept(c2, c, "m.silo_name"@, f.silos);
    assert(grows(c1, c));
    lemma_kept(c1, c, "m.space_name"@, f.spaces);
    if f.hide_expired {
        let n = c9.texts.len() as int;
        assert(c.texts[n] == "(m.valid_to IS NULL OR julianday(m.valid_to) >= julianday('now'))"@);
        assert(c.texts[n + 1]
            == "(m.expires_at IS NULL OR julianday(m.expires_at) > julianday('now'))"@);
    }
    reveal(selects);
}

/// All conditions at once; true where there are none.
pub open spec fn together(texts: Seq<Seq<char>>) -> Seq<char> {
    if texts.len() == 0 {
        "1=1"@
    } else {
        joined(texts, " AND "@)
    }
}

/// The memories that filters match are those that meet all conditions of the filters.
pub proof fn law_matching_memories_meet_the_filters(
    filters: SearchFilters,
    statement: (String, Vec<String>),
) -> (texts: Seq<Seq<char>>)
    requires
        normal_tags(filters@.tags) is Ok,
        filter_size(filters@) < u64::MAX,
        call_ensures(matching_ids_sql, (&filters,), statement),
    ensures
        selects(texts, 0, views(statement.1@), filters@),
        statement.0@ == "SELECT m.id FROM memories m WHERE "@ + together(texts),
{
    let none = ArgsModel { reserved: 0, values: Seq::empty() };
    law_filters_select_what_they_ask_for(filters@, none);
    filter_conditions(filters@, none).texts
}

/// Filters that name no status select active memories, and filters that name no space
/// the usual one; a star stands for every space. Whether expired memories are hidden is
/// as asked for.
pub proof fn law_filters_have_usual_values(filters: SearchFilters, prepared: SearchFilters)
    requires
        call_ensures(prepare_filters, (&filters,), Ok::<SearchFilters, Error>(prepared)),
    ensures
        filters@.statuses.len() == 0 ==> prepared@.statuses == seq![trimmed("active"@)],
        (exists|i: int|
            0 <= i < filters@.spaces.len() && trimmed(#[trigger] filters@.spaces[i]) == "*"@)
            ==> prepared@.spaces.len() == 0,
        filters@.spaces.len() == 0 ==> prepared@.spaces == seq![trimmed("workspace-memory"@)],
        !(exists|i: int|
            0 <= i < filters@.spaces.len() && trimmed(#[trigger] filters@.spaces[i]) == "*"@)
            && filters@.spaces.len() > 0 ==> prepared@.spaces.len() == filters@.spaces.len()
            && forall|i: int|
            0 <= i < filters@.spaces.len() ==> #[trigger] prepared@.spaces[i] == trimmed(
                filters@.spaces[i],
            ),
        filters@.statuses.len() > 0 ==> prepared@.statuses.len() == filters@.statuses.len()
            && forall|i: int|
            0 <= i < filters@.statuses.len() ==> #[trigger] prepared@.statuses[i] == trimmed(
                filters@.statuses[i],
            ),
        prepared@.hide_expired == filters@.hide_expired,
{
    assert(prepared@.statuses =~= crate::validate::trimmed_all(
        crate::filters::completed_filters(filters@).statuses,
    ));
    if filters@.statuses.len() == 0 {
        assert(prepared@.statuses =~= seq![trimmed("active"@)]);
    }
    if filters@.spaces.len() == 0 {
        assert(!names_all_spaces(filters@.spaces));
        assert(prepared@.spaces =~= seq![trimmed("workspace-memory"@)]);
    }
}

/// Recall never shows what has expired.
pub proof fn law_recall_hides_what_has_expired(filters: SearchFilters, prepared: SearchFilters)
    requires
        call_ensures(prepare_recall_filters, (&filters,), Ok::<SearchFilters, Error>(prepared)),
    ensures
        prepared@.hide_expired,
        filters@.statuses.len() == 0 ==> prepared@.statuses == seq![trimmed("active"@)],
{
    if filters@.statuses.len() == 0 {
        assert(prepared@.statuses =~= seq![trimmed("active"@)]);
    }
}

/// A listing shows the memories in the order in which they were found, numbered from the
/// offset on, as many as it is asked for; it shows content and source only where they are
/// asked for.
pub proof fn law_listing_shows_what_was_found(
    request: MemoryListRequest,
    found: Vec<MemoryListCandidate>,
    report: MemoryListReport,
)
    requires
        call_ensures(list_memories, (&request, &found), Ok::<MemoryListReport, Error>(report)),
    ensures
        1 <= request.limit <= 100,
        request.offset <= 1_000,
        request.snippet_chars <= 1_000,
        request.order@ == "updated_desc"@ || request.order@ == "observed_desc"@ || request.order@
            == "created_desc"@,
        report.results@.len() == if found@.len() > request.limit {
            request.limit as int
        } else {
            found@.len() as int
        },
        report.truncated <==> found@.len() > request.limit,
        forall|i: int|
            0 <= i < report.results@.len() ==> {
                &&& (#[trigger] report.results@[i]).rank == request.offset + i + 1
                &&& report.results@[i].memory_id@ == found@[i].memory_id@
                &&& report.results@[i].version_id@ == found@[i].version_id@
                &&& report.results@[i].space@ == found@[i].space@
                &&& report.results@[i].silo@ == found@[i].silo@
                &&& report.results@[i].kind@ == found@[i].kind@
                &&& report.results@[i].status@ == found@[i].status@
                &&& report.results@[i].pinned == found@[i].pinned
                &&& report.results@[i].confidence == found@[i].confidence
                &&& report.results@[i].observed_at@ == found@[i].observed_at@
                &&& views(report.results@[i].tags@) == views(found@[i].tags@)
                &&& text_of_string(report.results@[i].content) == if request.include_content {
                    text_of_string(found@[i].content)
                } else {
                    None
                }
                &&& text_of_string(report.results@[i].source_ref_json)
                    == if request.include_source {
                    text_of_string(found@[i].source_ref_json)
                } else {
                    None
                }
            },
        report.total_estimate == if report.results@.len() == 0 {
            0int
        } else if report.truncated {
            request.offset + request.limit + 1
        } else {
            request.offset + report.results@.len()
        },
{
}

/// A listing reads the memories that meet its filters, the latest first by the time that
/// it is asked for, and one more than it shows.
pub proof fn law_listing_reads_the_latest_first(
    p: PreparedMemoryListRequest,
    statement: (String, Vec<String>),
) -> (parts: (Seq<char>, Seq<Seq<char>>))
    requires
        normal_tags(p.filters@.tags) is Ok,
        filter_size(p.filters@) < u64::MAX,
        p.limit <= 100,
        p.snippet_chars <= 1_000,
        call_ensures(memory_list_sql, (&p,), statement),
    ensures
        selects(parts.1, 0, views(statement.1@), p.filters@),
        statement.0@ == parts.0
            + "\n         FROM memories m\n         JOIN memory_versions v ON v.id = m.active_version_id\n         WHERE "@
            + together(parts.1) + " ORDER BY "@ + (if p.order@ == "observed_desc"@ {
            "m.observed_at DESC, m.updated_at DESC"@
        } else if p.order@ == "created_desc"@ {
            "m.created_at DESC, m.updated_at DESC"@
        } else {
            "m.updated_at DESC, m.observed_at DESC"@
        }) + ", m.id ASC LIMIT "@ + decimal((p.limit + 1) as nat) + " OFFSET "@ + decimal(
            p.offset as nat,
        ),
{
    let none = ArgsModel { reserved: 0, values: Seq::empty() };
    law_filters_select_what_they_ask_for(p.filters@, none);
    let texts = filter_conditions(p.filters@, none).texts;
    let head = crate::listing::LIST_HEAD@ + crate::listing::list_snippet_sql(p.snippet_chars)
        + ", "@ + crate::listing::column_if("v.content"@, p.include_content)
        + crate::listing::LIST_TAGS@ + crate::listing::column_if(
        "v.source_ref_json"@,
        p.include_source,
    );
    (head, texts)
}

/// A bonus in the order of a search, for memories whose column has one of some texts.
pub open spec fn bonus(column: Seq<char>, n: nat, weight: Seq<char>, before: nat) -> Seq<char> {
    if n == 0 {
        "0.0"@
    } else {
        "(CASE WHEN "@ + column + " IN ("@ + placeholder_run(before, n) + ") THEN "@ + weight
            + " ELSE 0.0 END)"@
    }
}

/// The same for memories with one of some tags.
pub open spec fn tag_bonus(n: nat, before: nat) -> Seq<char> {
    if n == 0 {
        "0.0"@
    } else {
        "(CASE WHEN EXISTS (SELECT 1 FROM memory_tags mt WHERE mt.memory_id = m.id AND mt.tag IN ("@
            + placeholder_run(before, n) + ")) THEN 0.05 ELSE 0.0 END)"@
    }
}

/// What orders memories of equal relevance in a search by words: confidence, what
/// matches the filters, recency, and whether a memory is active and pinned.
pub open spec fn merit(f: FiltersModel, before: nat) -> Seq<char> {
    let tags = normal_tags(f.tags)->Ok_0;
    let entity = before + f.kinds.len();
    let claim = entity + f.entity_keys.len();
    let scope = claim + f.claim_keys.len();
    let tagged = scope + f.scopes.len();
    "((m.confidence * 0.05) + "@ + bonus("m.kind"@, f.kinds.len(), "0.05"@, before) + " + "@
        + bonus("m.entity_key"@, f.entity_keys.len(), "0.1"@, entity) + " + "@ + bonus(
        "m.claim_key"@,
        f.claim_keys.len(),
        "0.1"@,
        claim,
    ) + " + "@ + bonus("m.scope"@, f.scopes.len(), "0.03"@, scope) + " + "@ + tag_bonus(
        tags.len(),
        tagged,
    ) + " + "@
        + "coalesce(CASE WHEN m.silo_name = 'durable' THEN 0.05 * max(0.0, 1.0 - (max(0.0, julianday('now') - coalesce(max(julianday(m.updated_at), julianday(m.observed_at)), julianday(m.updated_at), julianday(m.observed_at))) / 360)) ELSE 0.2 * max(0.0, 1.0 - (max(0.0, julianday('now') - coalesce(max(julianday(m.updated_at), julianday(m.observed_at)), julianday(m.updated_at), julianday(m.observed_at))) / 60)) END, 0.0)"@
        + " + "@
        + "(CASE WHEN m.status = 'active' THEN 0.02 ELSE 0.0 END) + (CASE WHEN m.pinned = 1 THEN 0.05 ELSE 0.0 END)"@
        + ")"@
}

proof fn lemma_tag_bonus(n: nat, args: ArgsModel)
    ensures
        crate::statements::tag_boost_text(n, args) == tag_bonus(n, args.count()),
{
    let a = "(CASE WHEN "@;
    let b = "EXISTS (SELECT 1 FROM memory_tags mt WHERE mt.memory_id = m.id AND mt.tag IN ("@;
    let both =
        "(CASE WHEN EXISTS (SELECT 1 FROM memory_tags mt WHERE mt.memory_id = m.id AND mt.tag IN ("@;
    reveal_strlit("(CASE WHEN ");
    reveal_strlit("EXISTS (SELECT 1 FROM memory_tags mt WHERE mt.memory_id = m.id AND mt.tag IN (");
    reveal_strlit(
        "(CASE WHEN EXISTS (SELECT 1 FROM memory_tags mt WHERE mt.memory_id = m.id AND mt.tag IN (",
    );
    assert(a + b =~= both);
}

proof fn lemma_merit(f: FiltersModel, args: ArgsModel)
    ensures
        crate::statements::score_text(f, args).text == merit(f, args.count()),
{
    let a1 = args.with(f.kinds);
    let a2 = a1.with(f.entity_keys);
    let a3 = a2.with(f.claim_keys);
    let a4 = a3.with(f.scopes);
    lemma_tag_bonus(normal_tags(f.tags)->Ok_0.len(), a4);
    lemma_bonus("m.kind"@, f.kinds.len(), "0.05"@, args);
    lemma_bonus("m.entity_key"@, f.entity_keys.len(), "0.1"@, a1);
    lemma_bonus("m.claim_key"@, f.claim_keys.len(), "0.1"@, a2);
    lemma_bonus("m.scope"@, f.scopes.len(), "0.03"@, a3);
    assert(same_text(crate::statements::score_text(f, args).text, merit(f, args.count())));
}

proof fn lemma_bonus(column: Seq<char>, n: nat, weight: Seq<char>, args: ArgsModel)
    ensures
        crate::statements::boost_text(column, n, weight, args) == bonus(
            column,
            n,
            weight,
            args.count(),
        ),
{
    assert(same_text(
        crate::statements::boost_text(column, n, weight, args),
        bonus(column, n, weight, args.count()),
    ));
}

/// Whether two texts are one.
spec fn same_text(a: Seq<char>, b: Seq<char>) -> bool {
    a == b
}

/// Whether a text reads the memories that an index finds and that meet conditions, the
/// most relevant first, then by merit, then the latest.
pub open spec fn is_word_search(
    text: Seq<char>,
    p: PreparedModel,
    columns: Seq<char>,
    conditions: Seq<Seq<char>>,
    table: Seq<char>,
    by: Seq<char>,
) -> bool {
    text == "SELECT "@ + columns + " FROM "@ + table + " JOIN memories m ON m.id = "@ + table
        + ".memory_id JOIN memory_versions v ON v.id = "@ + table + ".version_id WHERE "@ + joined(
        seq![table + " MATCH ?1"@] + conditions,
        " AND "@,
    ) + " ORDER BY "@ + ("bm25("@ + table + ")"@) + " ASC, "@ + by
        + " DESC, m.observed_at DESC, m.id ASC LIMIT "@ + decimal(
        (p.candidate_pool_limit + p.offset) as nat,
    ) + " OFFSET "@ + decimal(p.offset as nat)
}

/// Whether a text reads the memories that are nearest and meet conditions, then the
/// latest, and compares only with such.
pub open spec fn is_meaning_search(
    text: Seq<char>,
    p: PreparedModel,
    columns: Seq<char>,
    table: Seq<char>,
    conditions: Seq<Seq<char>>,
    compared: Seq<Seq<char>>,
) -> bool {
    text == "SELECT "@ + columns + " FROM "@ + table + " JOIN memories m ON m.id = "@ + table
        + ".memory_id JOIN memory_versions v ON v.id = m.active_version_id WHERE "@ + table
        + ".embedding MATCH ?1 AND k = "@ + decimal((p.candidate_pool_limit + p.offset) as nat)
        + " AND "@ + table + ".rowid IN (SELECT prefilter.rowid FROM "@ + table
        + " prefilter JOIN memories m ON m.id = prefilter.memory_id WHERE "@ + together(compared)
        + ") AND "@ + together(conditions) + " ORDER BY "@ + table
        + ".distance ASC, m.observed_at DESC, m.id ASC LIMIT "@ + decimal(
        p.candidate_pool_limit as nat,
    ) + " OFFSET "@ + decimal(p.offset as nat)
}

/// A search by words reads the memories that match the words and meet the filters: the
/// most relevant first, then those of greater merit, then the latest. Without the right
/// to see sources it searches the index that holds none.
pub proof fn law_word_search_reads_the_most_relevant(
    p: PreparedSearchRequest,
    statement: (String, Vec<String>),
) -> (parts: (Seq<char>, Seq<Seq<char>>, nat))
    requires
        within_limits(p@),
        call_ensures(search_sql, (&p,), statement),
    ensures
        parts.2 <= statement.1@.len(),
        selects(parts.1, 1, views(statement.1@).take(parts.2 as int), p@.filters),
        is_word_search(
            statement.0@,
            p@,
            parts.0,
            parts.1,
            if p@.include_source {
                "memory_fts"@
            } else {
                "memory_fts_public"@
            },
            merit(p@.filters, parts.2 + 1),
        ),
{
    let first = crate::statements::first_bound();
    law_filters_select_what_they_ask_for(p@.filters, first);
    lemma_word_text(p@);
    let bound = views(statement.1@);
    assert(bound.len() == statement.1@.len());
    lemma_word_values(p@.filters, bound);
    (
        word_columns(p@),
        filter_conditions(p@.filters, first).texts,
        filter_conditions(p@.filters, first).args.values.len(),
    )
}

/// The columns that a search by words reads.
spec fn word_columns(p: PreparedModel) -> Seq<char> {
    let table = crate::statements::fts_table(p.include_source);
    crate::statements::candidate_columns(
        crate::listing::column_if("v.content"@, p.include_content),
        crate::statements::fts_snippet(table, p.snippet_chars),
        crate::listing::column_if("v.source_ref_json"@, p.include_source),
        "bm25("@ + table + ")"@,
    )
}

proof fn lemma_word_text(p: PreparedModel)
    ensures
        is_word_search(
            crate::statements::search_text(p),
            p,
            word_columns(p),
            filter_conditions(p.filters, crate::statements::first_bound()).texts,
            crate::statements::fts_table(p.include_source),
            merit(
                p.filters,
                filter_conditions(
                    p.filters,
                    crate::statements::first_bound(),
                ).args.values.len() + 1,
            ),
        ),
{
    let conditions = filter_conditions(p.filters, crate::statements::first_bound());
    lemma_reserved(p.filters, crate::statements::first_bound());
    lemma_merit(p.filters, conditions.args);
    assert(conditions.args.count() == conditions.args.values.len() + 1);
}

proof fn lemma_word_values(f: FiltersModel, bound: Seq<Seq<char>>)
    requires
        bound == crate::statements::score_text(
            f,
            filter_conditions(f, crate::statements::first_bound()).args,
        ).args.values,
    ensures
        ({
            let values = filter_conditions(f, crate::statements::first_bound()).args.values;
            values.len() <= bound.len() && bound.take(values.len() as int) == values
        }),
{
    let args = filter_conditions(f, crate::statements::first_bound()).args;
    lemma_score_values(f, args);
}

proof fn lemma_score_values(f: FiltersModel, args: ArgsModel)
    ensures
        crate::statements::score_text(f, args).args.values.len() >= args.values.len(),
        crate::statements::score_text(f, args).args.values.take(args.values.len() as int)
            == args.values,
{
    assert(crate::statements::score_text(f, args).args.values.take(args.values.len() as int)
        =~= args.values);
}

proof fn lemma_reserved(f: FiltersModel, args: ArgsModel)
    ensures
        filter_conditions(f, args).args.reserved == args.reserved,
{
}

/// A search by meaning reads the nearest memories that meet the filters, then the
/// latest, and compares only with such.
pub proof fn law_meaning_search_reads_the_nearest(
    p: PreparedSearchRequest,
    table: &str,
    statement: (String, Vec<String>),
) -> (parts: (Seq<char>, Seq<Seq<char>>, Seq<Seq<char>>, nat))
    requires
        within_limits(p@),
        call_ensures(semantic_search_sql, (&p, table), statement),
    ensures
        parts.3 <= statement.1@.len(),
        selects(parts.1, 1, views(statement.1@).take(parts.3 as int), p@.filters),
        selects(
            parts.2,
            parts.3 + 1,
            views(statement.1@).skip(parts.3 as int),
            p@.filters,
        ),
        is_meaning_search(statement.0@, p@, parts.0, table@, parts.1, parts.2),
{
    let f = p@.filters;
    let first = crate::statements::first_bound();
    let shown = filter_conditions(f, first);
    let n = shown.args.values.len();
    let second = ArgsModel { reserved: n + 1, values: Seq::empty() };
    law_filters_select_what_they_ask_for(f, first);
    law_filters_select_what_they_ask_for(f, second);
    lemma_meaning_parts(f, shown.args, second, views(statement.1@));
    assert(views(statement.1@).len() == statement.1@.len());
    lemma_meaning_text(p@, table@);
    (
        meaning_columns(p@, table@),
        shown.texts,
        filter_conditions(f, shown.args).texts,
        n,
    )
}

/// The columns that a search by meaning reads.
spec fn meaning_columns(p: PreparedModel, table: Seq<char>) -> Seq<char> {
    crate::statements::candidate_columns(
        crate::listing::column_if("v.content"@, p.include_content),
        crate::statements::content_snippet(p.snippet_chars),
        crate::listing::column_if("v.source_ref_json"@, p.include_source),
        table + ".distance"@,
    )
}

proof fn lemma_meaning_text(p: PreparedModel, table: Seq<char>)
    ensures
        ({
            let shown = filter_conditions(p.filters, crate::statements::first_bound());
            is_meaning_search(
                crate::statements::semantic_text(p, table),
                p,
                meaning_columns(p, table),
                table,
                shown.texts,
                filter_conditions(p.filters, shown.args).texts,
            )
        }),
{
}

proof fn lemma_meaning_parts(
    f: FiltersModel,
    args: ArgsModel,
    second: ArgsModel,
    bound: Seq<Seq<char>>,
)
    requires
        args == filter_conditions(f, crate::statements::first_bound()).args,
        second == (ArgsModel { reserved: args.values.len() + 1, values: Seq::empty() }),
        bound == filter_conditions(f, args).args.values,
    ensures
        args.values.len() <= bound.len(),
        bound.take(args.values.len() as int) == args.values,
        bound.skip(args.values.len() as int) == filter_conditions(f, second).args.values,
        filter_conditions(f, args).texts == filter_conditions(f, second).texts,
{
    lemma_reserved(f, crate::statements::first_bound());
    lemma_shifted(f, args, second);
    let n = args.values.len() as int;
    assert(bound.take(n) =~= args.values);
    assert(bound.skip(n) =~= filter_conditions(f, second).args.values);
}

/// Whether conditions are the same, and one binds after values what the other binds alone.
spec fn shifted(a: Conditions, before: Seq<Seq<char>>, b: Conditions) -> bool {
    &&& a.texts == b.texts
    &&& a.args.values == before + b.args.values
    &&& a.args.count() == b.args.count()
}

proof fn lemma_shifted_in(
    a: Conditions,
    before: Seq<Seq<char>>,
    b: Conditions,
    column: Seq<char>,
    values: Seq<Seq<char>>,
)
    requires
        shifted(a, before, b),
    ensures
        shifted(with_in(a, column, values), before, with_in(b, column, values)),
{
    assert(with_in(a, column, values).args.values =~= before + with_in(
        b,
        column,
        values,
    ).args.values);
}

proof fn lemma_shifted(f: FiltersModel, args: ArgsModel, alone: ArgsModel)
    requires
        alone.values.len() == 0,
        alone.reserved == args.count(),
    ensures
        filter_conditions(f, args).texts == filter_conditions(f, alone).texts,
        filter_conditions(f, args).args.values == args.values + filter_conditions(
            f,
            alone,
        ).args.values,
{
    let before = args.values;
    let tags = normal_tags(f.tags)->Ok_0;
    let a0 = Conditions { texts: Seq::empty(), args };
    let b0 = Conditions { texts: Seq::empty(), args: alone };
    assert(a0.args.values =~= before + b0.args.values);
    lemma_shifted_in(a0, before, b0, "m.space_name"@, f.spaces);
    let a1 = with_in(a0, "m.space_name"@, f.spaces);
    let b1 = with_in(b0, "m.space_name"@, f.spaces);
    lemma_shifted_in(a1, before, b1, "m.silo_name"@, f.silos);
    let a2 = with_in(a1, "m.silo_name"@, f.silos);
    let b2 = with_in(b1, "m.silo_name"@, f.silos);
    lemma_shifted_in(a2, before, b2, "m.scope"@, f.scopes);
    let a3 = with_in(a2, "m.scope"@, f.scopes);
    let b3 = with_in(b2, "m.scope"@, f.scopes);
    lemma_shifted_in(a3, before, b3, "m.project_key"@, f.projects);
    let a4 = with_in(a3, "m.project_key"@, f.projects);
    let b4 = with_in(b3, "m.project_key"@, f.projects);
    lemma_shifted_in(a4, before, b4, "m.kind"@, f.kinds);
    let a5 = with_in(a4, "m.kind"@, f.kinds);
    let b5 = with_in(b4, "m.kind"@, f.kinds);
    lemma_shifted_in(a5, before, b5, "m.status"@, f.statuses);
    let a6 = with_in(a5, "m.status"@, f.statuses);
    let b6 = with_in(b5, "m.status"@, f.statuses);
    lemma_shifted_in(a6, before, b6, "m.entity_key"@, f.entity_keys);
    let a7 = with_in(a6, "m.entity_key"@, f.entity_keys);
    let b7 = with_in(b6, "m.entity_key"@, f.entity_keys);
    lemma_shifted_in(a7, before, b7, "m.claim_key"@, f.claim_keys);
    let a8 = with_in(a7, "m.claim_key"@, f.claim_keys);
    let b8 = with_in(b7, "m.claim_key"@, f.claim_keys);
    assert(with_tags(a8, tags).args.values =~= before + with_tags(b8, tags).args.values);
}

/// A shortlist is drawn exactly where one is asked for and more memories are eligible
/// than it holds; it is never shorter than the page and what comes before it.
pub proof fn law_shortlist_holds_the_page(
    p: PreparedSearchRequest,
    eligible: usize,
    width: Option<usize>,
)
    requires
        call_ensures(shortlist_width, (&p, eligible), width),
    ensures
        width is Some <==> p@.maxsim_shortlist > 0 && eligible > p@.maxsim_shortlist,
        width matches Some(w) ==> w >= p@.maxsim_shortlist && (w >= p@.limit + p@.offset || w
            == usize::MAX) && (w == p@.maxsim_shortlist || w == p@.limit + p@.offset || w
            == usize::MAX),
{
}

} // verus!
