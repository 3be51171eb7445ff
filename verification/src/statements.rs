//! The statements of searches.

use vstd::prelude::*;

use crate::error::{concat, concat3, concat4};
use crate::filters::{
    all_of, filter_conditions, filter_predicates, filter_size, filters_where_clause,
    placeholder, placeholder_run, ArgsModel, SqlArgs, TAGGED,
};
use crate::listing::{column_if, column_or_null};
use crate::requests::{FiltersModel, SearchFilters};
use crate::search::{PreparedModel, PreparedSearchRequest};
use crate::text::{decimal, decimal_of, join, joined, views};
use crate::validate::{normal_tags, normalized_tags};
use crate::vocabulary::{MAX_SEARCH_LIMIT, MAX_SEARCH_OFFSET, MAX_SNIPPET_CHARS};

verus! {

/// When a memory was last current, as a day number.
pub const RECENCY_DAY: &'static str = "coalesce(max(julianday(m.updated_at), julianday(m.observed_at)), julianday(m.updated_at), julianday(m.observed_at))";

/// The columns of a candidate up to its age.
pub const CANDIDATE_HEAD: &'static str = "m.id,
            m.active_version_id,
            m.space_name,
            m.silo_name,
            m.scope,
            m.project_key,
            m.kind,
            m.status,
            m.entity_key,
            m.claim_key,
            m.observed_at,
            ";

/// The columns of a candidate between its age and its content.
pub const CANDIDATE_TAGS: &'static str = " AS rec_jd,
            m.pinned,
            COALESCE((SELECT group_concat(tag, char(31)) FROM (SELECT tag FROM memory_tags WHERE memory_id = m.id ORDER BY tag)), '') AS tags_joined,
            m.confidence,
            ";

/// The columns of a candidate behind its relevance.
pub const CANDIDATE_TAIL: &'static str = " AS relevance,
            m.metadata_json,
            json_extract(v.source_ref_json, '$.type') AS source_type";

/// The columns of a candidate.
pub open spec fn candidate_columns(
    content: Seq<char>,
    snippet: Seq<char>,
    source: Seq<char>,
    rank: Seq<char>,
) -> Seq<char> {
    CANDIDATE_HEAD@ + RECENCY_DAY@ + CANDIDATE_TAGS@ + content + ", "@ + snippet
        + ", v.summary, "@ + source + ", "@ + rank + CANDIDATE_TAIL@
}

/// Writes the columns of a candidate.
pub fn candidate_select_columns(
    content_sql: &str,
    snippet_sql: &str,
    source_sql: &str,
    rank_sql: &str,
) -> (r: String)
    ensures
        r@ == candidate_columns(content_sql@, snippet_sql@, source_sql@, rank_sql@),
{
    let mut sql = CANDIDATE_HEAD.to_owned();
    sql.append(RECENCY_DAY);
    sql.append(CANDIDATE_TAGS);
    sql.append(content_sql);
    sql.append(", ");
    sql.append(snippet_sql);
    sql.append(", v.summary, ");
    sql.append(source_sql);
    sql.append(", ");
    sql.append(rank_sql);
    sql.append(CANDIDATE_TAIL);
    sql
}

/// The full-text index of a search: one without sources where these are not
/// searched.
pub open spec fn fts_table(include_source: bool) -> Seq<char> {
    if include_source {
        "memory_fts"@
    } else {
        "memory_fts_public"@
    }
}

/// Names the full-text index of a search.
pub fn search_fts_table(include_source: bool) -> (r: &'static str)
    ensures
        r@ == fts_table(include_source),
{
    if include_source {
        "memory_fts"
    } else {
        "memory_fts_public"
    }
}

/// A boost where a column has one of the given values.
pub open spec fn boost_text(
    column: Seq<char>,
    n: nat,
    boost: Seq<char>,
    args: ArgsModel,
) -> Seq<char> {
    if n == 0 {
        "0.0"@
    } else {
        "(CASE WHEN "@ + column + " IN ("@ + placeholder_run(args.count(), n) + ") THEN "@ + boost
            + " ELSE 0.0 END)"@
    }
}

fn boost_in_sql(column: &str, values: &Vec<String>, boost: &str, args: &mut SqlArgs) -> (r: String)
    requires
        old(args)@.count() + values@.len() < u64::MAX,
    ensures
        r@ == boost_text(column@, values@.len(), boost@, old(args)@),
        final(args)@ == old(args)@.with(views(values@)),
{
    if values.len() == 0 {
        assert(views(values@) =~= Seq::empty());
        assert(args@.values + views(values@) =~= args@.values);
        return "0.0".to_owned();
    }
    let run = args.placeholder_list(values);
    let mut sql = "(CASE WHEN ".to_owned();
    sql.append(column);
    sql.append(" IN (");
    sql.append(run.as_str());
    sql.append(") THEN ");
    sql.append(boost);
    sql.append(" ELSE 0.0 END)");
    sql
}

/// A boost where a memory has one of the given tags.
pub open spec fn tag_boost_text(n: nat, args: ArgsModel) -> Seq<char> {
    if n == 0 {
        "0.0"@
    } else {
        "(CASE WHEN "@ + TAGGED@ + placeholder_run(args.count(), n) + ")) THEN 0.05 ELSE 0.0 END)"@
    }
}

/// The boost of a memory by its age: falling to nothing within two half-lives,
/// which are longer for durable memories.
pub const RECENCY_BOOST: &'static str = "coalesce(CASE WHEN m.silo_name = 'durable' THEN 0.05 * max(0.0, 1.0 - (max(0.0, julianday('now') - coalesce(max(julianday(m.updated_at), julianday(m.observed_at)), julianday(m.updated_at), julianday(m.observed_at))) / 360)) ELSE 0.2 * max(0.0, 1.0 - (max(0.0, julianday('now') - coalesce(max(julianday(m.updated_at), julianday(m.observed_at)), julianday(m.updated_at), julianday(m.observed_at))) / 60)) END, 0.0)";

/// The boosts of a memory by its status and its pin.
pub const STATE_BOOST: &'static str = "(CASE WHEN m.status = 'active' THEN 0.02 ELSE 0.0 END) + (CASE WHEN m.pinned = 1 THEN 0.05 ELSE 0.0 END)";

/// What decides between equally relevant memories, and the values that it is
/// computed from.
pub struct ScoreText {
    /// The text.
    pub text: Seq<char>,
    /// The values.
    pub args: ArgsModel,
}

/// What decides between equally relevant memories, after the given values.
pub open spec fn score_text(f: FiltersModel, args: ArgsModel) -> ScoreText {
    let tags = normal_tags(f.tags)->Ok_0;
    let a1 = args.with(f.kinds);
    let a2 = a1.with(f.entity_keys);
    let a3 = a2.with(f.claim_keys);
    let a4 = a3.with(f.scopes);
    ScoreText {
        text: "((m.confidence * 0.05) + "@ + boost_text("m.kind"@, f.kinds.len(), "0.05"@, args)
            + " + "@ + boost_text("m.entity_key"@, f.entity_keys.len(), "0.1"@, a1) + " + "@
            + boost_text("m.claim_key"@, f.claim_keys.len(), "0.1"@, a2) + " + "@ + boost_text(
            "m.scope"@,
            f.scopes.len(),
            "0.03"@,
            a3,
        ) + " + "@ + tag_boost_text(tags.len(), a4) + " + "@ + RECENCY_BOOST@ + " + "@
            + STATE_BOOST@ + ")"@,
        args: a4.with(tags),
    }
}

proof fn lemma_filter_size(f: FiltersModel)
    requires
        normal_tags(f.tags) is Ok,
    ensures
        normal_tags(f.tags)->Ok_0.len() == f.tags.len(),
{
    crate::filters::lemma_normal_tags_len(f.tags, Seq::empty());
}

fn search_score_sql(filters: &SearchFilters, args: &mut SqlArgs) -> (r: String)
    requires
        normal_tags(filters@.tags) is Ok,
        old(args)@.count() + filter_size(filters@) < u64::MAX,
    ensures
        r@ == score_text(filters@, old(args)@).text,
        final(args)@ == score_text(filters@, old(args)@).args,
{
    proof {
        lemma_filter_size(filters@);
        assert(filters@.kinds.len() == filters.kinds@.len());
        assert(filters@.entity_keys.len() == filters.entity_keys@.len());
        assert(filters@.claim_keys.len() == filters.claim_keys@.len());
        assert(filters@.scopes.len() == filters.scopes@.len());
    }
    let kind = boost_in_sql("m.kind", &filters.kinds, "0.05", args);
    let entity = boost_in_sql("m.entity_key", &filters.entity_keys, "0.1", args);
    let claim = boost_in_sql("m.claim_key", &filters.claim_keys, "0.1", args);
    let scope = boost_in_sql("m.scope", &filters.scopes, "0.03", args);
    let tags = match normalized_tags(filters.tags.as_slice()) {
        Ok(tags) => tags,
        Err(_) => Vec::new(),
    };
    assert(views(tags@) == normal_tags(filters@.tags)->Ok_0);
    assert(views(tags@).len() == tags@.len());
    let tag = if tags.len() == 0 {
        assert(args@.values + views(tags@) =~= args@.values);
        "0.0".to_owned()
    } else {
        let run = args.placeholder_list(&tags);
        concat4("(CASE WHEN ", TAGGED, run.as_str(), ")) THEN 0.05 ELSE 0.0 END)")
    };
    let mut sql = "((m.confidence * 0.05) + ".to_owned();
    sql.append(kind.as_str());
    sql.append(" + ");
    sql.append(entity.as_str());
    sql.append(" + ");
    sql.append(claim.as_str());
    sql.append(" + ");
    sql.append(scope.as_str());
    sql.append(" + ");
    sql.append(tag.as_str());
    sql.append(" + ");
    sql.append(RECENCY_BOOST);
    sql.append(" + ");
    sql.append(STATE_BOOST);
    sql.append(")");
    sql
}

/// Whether a prepared request is one that a check has passed.
pub open spec fn within_limits(p: PreparedModel) -> bool {
    &&& normal_tags(p.filters.tags) is Ok
    &&& 3 * filter_size(p.filters) < u64::MAX - 8
    &&& p.limit <= MAX_SEARCH_LIMIT
    &&& p.candidate_pool_limit <= 4 * MAX_SEARCH_LIMIT
    &&& p.offset <= MAX_SEARCH_OFFSET
    &&& p.snippet_chars <= MAX_SNIPPET_CHARS
}

/// The values of a search before its filters: one is bound first.
pub open spec fn first_bound() -> ArgsModel {
    ArgsModel { reserved: 1, values: Seq::empty() }
}

/// The snippet of a lexical search.
pub open spec fn fts_snippet(table: Seq<char>, snippet_chars: usize) -> Seq<char> {
    if snippet_chars == 0 {
        "''"@
    } else {
        "snippet("@ + table + ", 6, '', '', ' … ', 32)"@
    }
}

/// The statement of a lexical search; its first value is the full-text query.
pub open spec fn search_text(p: PreparedModel) -> Seq<char> {
    let table = fts_table(p.include_source);
    let rank = "bm25("@ + table + ")"@;
    let conditions = filter_conditions(p.filters, first_bound());
    let score = score_text(p.filters, conditions.args);
    "SELECT "@ + candidate_columns(
        column_if("v.content"@, p.include_content),
        fts_snippet(table, p.snippet_chars),
        column_if("v.source_ref_json"@, p.include_source),
        rank,
    ) + " FROM "@ + table + " JOIN memories m ON m.id = "@ + table
        + ".memory_id JOIN memory_versions v ON v.id = "@ + table + ".version_id WHERE "@ + joined(
        seq![table + " MATCH ?1"@] + conditions.texts,
        " AND "@,
    ) + " ORDER BY "@ + rank + " ASC, "@ + score.text
        + " DESC, m.observed_at DESC, m.id ASC LIMIT "@ + decimal(
        (p.candidate_pool_limit + p.offset) as nat,
    ) + " OFFSET "@ + decimal(p.offset as nat)
}

proof fn lemma_condition_count(f: FiltersModel, args: ArgsModel)
    requires
        normal_tags(f.tags) is Ok,
    ensures
        filter_conditions(f, args).args.count() == args.count() + filter_size(f),
{
    lemma_filter_size(f);
    crate::filters::law_filter_values_in_order(f, args);
}

/// Writes the statement of a lexical search, with the values after its first.
pub fn search_sql(p: &PreparedSearchRequest) -> (r: (String, Vec<String>))
    requires
        within_limits(p@),
    ensures
        r.0@ == search_text(p@),
        views(r.1@) == score_text(
            p@.filters,
            filter_conditions(p@.filters, first_bound()).args,
        ).args.values,
{
    let table = search_fts_table(p.include_source);
    let mut args = SqlArgs::with_reserved(1);
    assert(args@ == first_bound());
    let found = filter_predicates(&p.filters, &mut args);
    let mut predicates: Vec<String> = Vec::new();
    predicates.push(concat(table, " MATCH ?1"));
    assert(views(predicates@) =~= seq![table@ + " MATCH ?1"@]);
    append_texts(&mut predicates, &found);
    proof {
        lemma_condition_count(p@.filters, first_bound());
    }
    let score = search_score_sql(&p.filters, &mut args);
    let rank = concat3("bm25(", table, ")");
    let snippet = if p.snippet_chars == 0 {
        "''".to_owned()
    } else {
        concat3("snippet(", table, ", 6, '', '', ' … ', 32)")
    };
    let columns = candidate_select_columns(
        column_or_null("v.content", p.include_content),
        snippet.as_str(),
        column_or_null("v.source_ref_json", p.include_source),
        rank.as_str(),
    );
    let conditions = join(predicates.as_slice(), " AND ");
    let mut sql = "SELECT ".to_owned();
    sql.append(columns.as_str());
    sql.append(" FROM ");
    sql.append(table);
    sql.append(" JOIN memories m ON m.id = ");
    sql.append(table);
    sql.append(".memory_id JOIN memory_versions v ON v.id = ");
    sql.append(table);
    sql.append(".version_id WHERE ");
    sql.append(conditions.as_str());
    sql.append(" ORDER BY ");
    sql.append(rank.as_str());
    sql.append(" ASC, ");
    sql.append(score.as_str());
    sql.append(" DESC, m.observed_at DESC, m.id ASC LIMIT ");
    let limit = decimal_of((p.candidate_pool_limit + p.offset) as u64);
    sql.append(limit.as_str());
    sql.append(" OFFSET ");
    let offset = decimal_of(p.offset as u64);
    sql.append(offset.as_str());
    (sql, args.into_values())
}

fn append_texts(out: &mut Vec<String>, more: &Vec<String>)
    ensures
        views(final(out)@) == views(old(out)@) + views(more@),
{
    let ghost start = views(out@);
    let ghost all = views(more@);
    assert(start + all.take(0) =~= start);
    for i in 0..more.len()
        invariant
            all == views(more@),
            views(out@) == start + all.take(i as int),
    {
        let ghost before = out@;
        out.push(more[i].clone());
        assert(views(out@) =~= views(before).push(all[i as int]));
        assert(all.take(i + 1) =~= all.take(i as int).push(all[i as int]));
        assert(views(out@) =~= start + all.take(i + 1));
    }
    assert(all.take(more@.len() as int) =~= all);
}

/// The snippet of a semantic search.
pub open spec fn content_snippet(snippet_chars: usize) -> Seq<char> {
    if snippet_chars == 0 {
        "''"@
    } else {
        "substr(v.content, 1, "@ + decimal(snippet_chars as nat) + ")"@
    }
}

fn content_snippet_sql(snippet_chars: usize) -> (r: String)
    ensures
        r@ == content_snippet(snippet_chars),
{
    if snippet_chars == 0 {
        "''".to_owned()
    } else {
        let number = decimal_of(snippet_chars as u64);
        concat3("substr(v.content, 1, ", number.as_str(), ")")
    }
}

/// The statement of a semantic search; its first value is the embedding of the
/// query. The filters hold of what is returned, and of what is compared.
pub open spec fn semantic_text(p: PreparedModel, table: Seq<char>) -> Seq<char> {
    let shown = filter_conditions(p.filters, first_bound());
    let compared = filter_conditions(p.filters, shown.args);
    "SELECT "@ + candidate_columns(
        column_if("v.content"@, p.include_content),
        content_snippet(p.snippet_chars),
        column_if("v.source_ref_json"@, p.include_source),
        table + ".distance"@,
    ) + " FROM "@ + table + " JOIN memories m ON m.id = "@ + table
        + ".memory_id JOIN memory_versions v ON v.id = m.active_version_id WHERE "@ + table
        + ".embedding MATCH ?1 AND k = "@ + decimal((p.candidate_pool_limit + p.offset) as nat)
        + " AND "@ + table + ".rowid IN (SELECT prefilter.rowid FROM "@ + table
        + " prefilter JOIN memories m ON m.id = prefilter.memory_id WHERE "@ + all_of(
        compared.texts,
    ) + ") AND "@ + all_of(shown.texts) + " ORDER BY "@ + table
        + ".distance ASC, m.observed_at DESC, m.id ASC LIMIT "@ + decimal(
        p.candidate_pool_limit as nat,
    ) + " OFFSET "@ + decimal(p.offset as nat)
}

/// Writes the statement of a semantic search, with the values after its first.
pub fn semantic_search_sql(p: &PreparedSearchRequest, table: &str) -> (r: (String, Vec<String>))
    requires
        within_limits(p@),
    ensures
        r.0@ == semantic_text(p@, table@),
        views(r.1@) == filter_conditions(
            p@.filters,
            filter_conditions(p@.filters, first_bound()).args,
        ).args.values,
{
    let mut args = SqlArgs::with_reserved(1);
    assert(args@ == first_bound());
    let shown = filters_where_clause(&p.filters, &mut args);
    proof {
        lemma_condition_count(p@.filters, first_bound());
    }
    let compared = filters_where_clause(&p.filters, &mut args);
    let snippet = content_snippet_sql(p.snippet_chars);
    let distance = concat(table, ".distance");
    let columns = candidate_select_columns(
        column_or_null("v.content", p.include_content),
        snippet.as_str(),
        column_or_null("v.source_ref_json", p.include_source),
        distance.as_str(),
    );
    let wide = decimal_of((p.candidate_pool_limit + p.offset) as u64);
    let limit = decimal_of(p.candidate_pool_limit as u64);
    let offset = decimal_of(p.offset as u64);
    let mut sql = "SELECT ".to_owned();
    sql.append(columns.as_str());
    sql.append(" FROM ");
    sql.append(table);
    sql.append(" JOIN memories m ON m.id = ");
    sql.append(table);
    sql.append(".memory_id JOIN memory_versions v ON v.id = m.active_version_id WHERE ");
    sql.append(table);
    sql.append(".embedding MATCH ?1 AND k = ");
    sql.append(wide.as_str());
    sql.append(" AND ");
    sql.append(table);
    sql.append(".rowid IN (SELECT prefilter.rowid FROM ");
    sql.append(table);
    sql.append(" prefilter JOIN memories m ON m.id = prefilter.memory_id WHERE ");
    sql.append(compared.as_str());
    sql.append(") AND ");
    sql.append(shown.as_str());
    sql.append(" ORDER BY ");
    sql.append(table);
    sql.append(".distance ASC, m.observed_at DESC, m.id ASC LIMIT ");
    sql.append(limit.as_str());
    sql.append(" OFFSET ");
    sql.append(offset.as_str());
    (sql, args.into_values())
}

/// How many memories the token embeddings choose: as many as the page ends at.
pub open spec fn selection(limit: usize, offset: usize) -> int {
    if limit + offset > usize::MAX {
        usize::MAX as int
    } else {
        limit + offset
    }
}

/// Tells how many memories the token embeddings choose.
pub fn late_selection(p: &PreparedSearchRequest) -> (r: usize)
    ensures
        r == selection(p.limit, p.offset),
{
    if p.limit > usize::MAX - p.offset {
        usize::MAX
    } else {
        p.limit + p.offset
    }
}

/// To how many memories the comparison of token embeddings is cut down, where it
/// is: never to fewer than it chooses.
pub open spec fn shortlist(p: PreparedModel, eligible: nat) -> Option<int> {
    if p.maxsim_shortlist > 0 && eligible > p.maxsim_shortlist {
        Some(
            if p.maxsim_shortlist > selection(p.limit, p.offset) {
                p.maxsim_shortlist as int
            } else {
                selection(p.limit, p.offset)
            },
        )
    } else {
        None
    }
}

/// Tells to how many memories the comparison of token embeddings is cut down.
pub fn shortlist_width(p: &PreparedSearchRequest, eligible: usize) -> (r: Option<usize>)
    ensures
        match r {
            Some(width) => shortlist(p@, eligible as nat) == Some(width as int),
            None => shortlist(p@, eligible as nat) is None,
        },
{
    if p.maxsim_shortlist > 0 && eligible > p.maxsim_shortlist {
        let chosen = late_selection(p);
        if p.maxsim_shortlist > chosen {
            Some(p.maxsim_shortlist)
        } else {
            Some(chosen)
        }
    } else {
        None
    }
}

/// A shortlist never holds fewer memories than are chosen from it.
pub proof fn law_shortlist_keeps_selection(p: PreparedModel, eligible: nat)
    requires
        shortlist(p, eligible) is Some,
    ensures
        shortlist(p, eligible)->0 >= selection(p.limit, p.offset),
        shortlist(p, eligible)->0 >= p.maxsim_shortlist,
{
}

/// Chosen memories with their distances, as rows of values.
pub open spec fn value_rows(distances: Seq<Seq<char>>) -> Seq<Seq<char>> {
    Seq::new(
        distances.len(),
        |i: int| "("@ + placeholder((i + 1) as nat) + ", "@ + distances[i] + ")"@,
    )
}

/// The statement that reads memories chosen by token embeddings; its first values
/// are their ids.
pub open spec fn late_text(p: PreparedModel, ids: Seq<Seq<char>>, distances: Seq<Seq<char>>) -> Seq<
    char,
> {
    let conditions = filter_conditions(p.filters, ArgsModel { reserved: 0, values: ids });
    "WITH li(memory_id, distance) AS (VALUES "@ + joined(value_rows(distances), ","@)
        + ") SELECT "@ + candidate_columns(
        column_if("v.content"@, p.include_content),
        content_snippet(p.snippet_chars),
        column_if("v.source_ref_json"@, p.include_source),
        "li.distance"@,
    )
        + " FROM li JOIN memories m ON m.id = li.memory_id JOIN memory_versions v ON v.id = m.active_version_id WHERE "@
        + all_of(conditions.texts)
        + " ORDER BY li.distance ASC, m.observed_at DESC, m.id ASC LIMIT "@ + decimal(
        p.candidate_pool_limit as nat,
    ) + " OFFSET "@ + decimal(p.offset as nat)
}

/// Writes the statement that reads memories chosen by token embeddings, with its
/// values. The distances are written as numbers.
pub fn late_search_sql(
    p: &PreparedSearchRequest,
    ids: &Vec<String>,
    distances: &Vec<String>,
) -> (r: (String, Vec<String>))
    requires
        within_limits(p@),
        ids@.len() == distances@.len(),
        ids@.len() + filter_size(p@.filters) < u64::MAX,
    ensures
        r.0@ == late_text(p@, views(ids@), views(distances@)),
        views(r.1@) == filter_conditions(
            p@.filters,
            (ArgsModel { reserved: 0, values: views(ids@) }),
        ).args.values,
{
    let mut args = SqlArgs::with_reserved(0);
    let ghost names = views(ids@);
    let ghost wanted = value_rows(views(distances@));
    let mut rows: Vec<String> = Vec::new();
    assert(views(rows@) =~= wanted.take(0));
    assert(names.take(0) =~= Seq::empty());
    for i in 0..ids.len()
        invariant
            ids@.len() == distances@.len(),
            ids@.len() < u64::MAX,
            names == views(ids@),
            wanted == value_rows(views(distances@)),
            args@ == (ArgsModel { reserved: 0, values: names.take(i as int) }),
            views(rows@) == wanted.take(i as int),
    {
        let ghost before = rows@;
        let mark = args.push(ids[i].as_str());
        let mut row = "(".to_owned();
        row.append(mark.as_str());
        row.append(", ");
        row.append(distances[i].as_str());
        row.append(")");
        let ghost text = row@;
        rows.push(row);
        proof {
            assert(names.take(i as int) + seq![ids@[i as int]@] =~= names.take(i + 1));
            assert(text == wanted[i as int]);
            assert(views(rows@) =~= views(before).push(wanted[i as int]));
            assert(wanted.take(i + 1) =~= wanted.take(i as int).push(wanted[i as int]));
        }
    }
    assert(names.take(ids@.len() as int) =~= names);
    assert(wanted.take(ids@.len() as int) =~= wanted);
    assert(names.len() == ids@.len());
    let values_sql = join(rows.as_slice(), ",");
    let conditions = filters_where_clause(&p.filters, &mut args);
    let snippet = content_snippet_sql(p.snippet_chars);
    let columns = candidate_select_columns(
        column_or_null("v.content", p.include_content),
        snippet.as_str(),
        column_or_null("v.source_ref_json", p.include_source),
        "li.distance",
    );
    let limit = decimal_of(p.candidate_pool_limit as u64);
    let offset = decimal_of(p.offset as u64);
    let mut sql = "WITH li(memory_id, distance) AS (VALUES ".to_owned();
    sql.append(values_sql.as_str());
    sql.append(") SELECT ");
    sql.append(columns.as_str());
    sql.append(
        " FROM li JOIN memories m ON m.id = li.memory_id JOIN memory_versions v ON v.id = m.active_version_id WHERE ",
    );
    sql.append(conditions.as_str());
    sql.append(" ORDER BY li.distance ASC, m.observed_at DESC, m.id ASC LIMIT ");
    sql.append(limit.as_str());
    sql.append(" OFFSET ");
    sql.append(offset.as_str());
    (sql, args.into_values())
}

/// The statement that reads the ids of the memories that filters let through.
pub fn matching_ids_sql(filters: &SearchFilters) -> (r: (String, Vec<String>))
    requires
        normal_tags(filters@.tags) is Ok,
        filter_size(filters@) < u64::MAX,
    ensures
        r.0@ == "SELECT m.id FROM memories m WHERE "@ + all_of(
            filter_conditions(
                filters@,
                (ArgsModel { reserved: 0, values: Seq::empty() }),
            ).texts,
        ),
        views(r.1@) == filter_conditions(
            filters@,
            (ArgsModel { reserved: 0, values: Seq::empty() }),
        ).args.values,
{
    let mut args = SqlArgs::with_reserved(0);
    let conditions = filters_where_clause(filters, &mut args);
    (concat("SELECT m.id FROM memories m WHERE ", conditions.as_str()), args.into_values())
}

} // verus!
