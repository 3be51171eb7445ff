//! What a consolidation run promises: which memories its scans find, and what becomes
//! of them.

use vstd::prelude::*;

use crate::consolidation::{
    dream_duplicate_proposal, dream_expire_memories, dream_promote_memories, expire_models,
    expiring, expiry_writes, handled, promotion_writes, DreamDuplicateGroup,
    DreamDuplicateProposal, DreamExpireCandidate, DreamExpireReport, DreamPromoteReport,
    DreamWrite, ExpireModel,
};
use crate::dream::{
    duplicate_members_query, duplicates_query, expire_clauses, expire_query,
    memory_filters, normalize_dream_tasks, promote_clauses, promote_query, push_if, requested,
    silo_filters, PreparedDreamRequest,
};
use crate::error::Error;
use crate::sql::{
    clause_models, clause_texts, clause_values, collect_values, conjunction, join_clauses, on_text,
    one_of_texts, placeholders, plain, value_models, Clause, ClauseModel, SqlModel, SqlValue,
    Statement,
};
use crate::text::{trimmed, views};

verus! {

/// One time that a memory was recalled.
pub struct RecallRow {
    /// What kind of event it is.
    pub kind: Seq<char>,
    /// The session.
    pub session: Option<Seq<char>>,
    /// The key of the score.
    pub score: int,
    /// The rank.
    pub rank: int,
}

/// What the store holds of one memory.
pub struct MemoryRow {
    /// Status.
    pub status: Seq<char>,
    /// Space.
    pub space: Seq<char>,
    /// Silo.
    pub silo: Seq<char>,
    /// When it expires.
    pub expires_at: Option<Seq<char>>,
    /// Hash of the content.
    pub content_sha256: Seq<char>,
    /// The times that it was recalled.
    pub recalls: Seq<RecallRow>,
}

/// The sessions in which a memory was retrieved with a score and a rank that count.
pub open spec fn recalling_sessions(row: MemoryRow, floor: int, cap: int) -> Set<Seq<char>> {
    Set::new(
        |session: Seq<char>|
            exists|i: int|
                0 <= i < row.recalls.len() && (#[trigger] row.recalls[i]).kind == "retrieved"@
                    && row.recalls[i].session == Some(session) && row.recalls[i].score >= floor
                    && row.recalls[i].rank <= cap,
    )
}

/// Whether a time has come at another one, on a calendar that gives each text that is
/// a time its place. What is no time compares with nothing.
pub open spec fn has_come(
    calendar: spec_fn(Seq<char>) -> Option<int>,
    time: Option<Seq<char>>,
    now: SqlModel,
) -> bool {
    &&& time is Some && now is Text
    &&& calendar(time->0) is Some && calendar(now->Text_0) is Some
    &&& calendar(time->0)->0 <= calendar(now->Text_0)->0
}

/// What the database takes a condition to say of a memory. Of a condition that is not
/// among these nothing is known, and it holds of no memory.
pub open spec fn says_of(
    c: ClauseModel,
    row: MemoryRow,
    calendar: spec_fn(Seq<char>) -> Option<int>,
) -> bool {
    if c.text == "m.status = 'active'"@ {
        row.status == "active"@
    } else if c.text == "m.expires_at IS NOT NULL"@ {
        row.expires_at is Some
    } else if c.text == "julianday(m.expires_at) <= julianday(?)"@ {
        c.values.len() == 1 && has_come(calendar, row.expires_at, c.values[0])
    } else if c.text == "m.space_name = ?"@ {
        c.values == seq![SqlModel::Text(row.space)]
    } else if c.text == "m.silo_name = ?"@ {
        c.values == seq![SqlModel::Text(row.silo)]
    } else if c.text == "v.content_sha256 = ?"@ {
        c.values == seq![SqlModel::Text(row.content_sha256)]
    } else if c.text
        == "(SELECT COUNT(DISTINCT r.session_id) FROM recall_events r WHERE r.memory_id = m.id AND r.kind = 'retrieved' AND r.session_id IS NOT NULL AND r.score >= ? AND r.rank <= ?) >= ?"@ {
        c.values.len() == 3 && c.values[0] is Real && c.values[1] is Integer && c.values[2] is Integer
            && recalling_sessions(row, c.values[0]->Real_0.key as int, c.values[1]->Integer_0).len()
            >= c.values[2]->Integer_0
    } else if c.text == "m.silo_name IN ("@ + placeholders(c.values.len()) + ")"@ {
        exists|i: int|
            0 <= i < c.values.len() && #[trigger] c.values[i] == SqlModel::Text(row.silo)
    } else {
        false
    }
}

/// Whether a memory meets all conditions of a scan.
pub open spec fn meets_all(
    conditions: Seq<ClauseModel>,
    row: MemoryRow,
    calendar: spec_fn(Seq<char>) -> Option<int>,
) -> bool {
    forall|i: int| 0 <= i < conditions.len() ==> says_of(#[trigger] conditions[i], row, calendar)
}

/// Whether a memory is in the scope of a run: in its space, where one is named, and in
/// one of its silos, where some are named.
pub open spec fn in_scope(prepared: PreparedDreamRequest, row: MemoryRow) -> bool {
    &&& prepared.space matches Some(space) ==> row.space == space@
    &&& in_silos(prepared, row)
}

/// Whether a memory is in one of the silos of a run, where some are named.
pub open spec fn in_silos(prepared: PreparedDreamRequest, row: MemoryRow) -> bool {
    prepared.silos@.len() > 0 ==> exists|i: int|
        0 <= i < prepared.silos@.len() && (#[trigger] prepared.silos@[i])@ == row.silo
}

/// Whether a statement asks for the rows that meet conditions, as many as a limit says.
pub open spec fn asks_for(
    statement: Statement,
    head: Seq<char>,
    conditions: Seq<ClauseModel>,
    tail: Seq<char>,
    limit: int,
) -> bool {
    &&& statement.sql@ == head + conjunction(conditions) + tail
    &&& value_models(statement.values@) == clause_values(conditions).push(SqlModel::Integer(limit))
}

proof fn lemma_texts_differ(n: nat)
    ensures
        "m.status = 'active'"@.len() == 19,
        "m.expires_at IS NOT NULL"@.len() == 24,
        "julianday(m.expires_at) <= julianday(?)"@.len() == 39,
        "m.space_name = ?"@.len() == 16,
        "m.silo_name = ?"@.len() == 15,
        "v.content_sha256 = ?"@.len() == 20,
        "(SELECT COUNT(DISTINCT r.session_id) FROM recall_events r WHERE r.memory_id = m.id AND r.kind = 'retrieved' AND r.session_id IS NOT NULL AND r.score >= ? AND r.rank <= ?) >= ?"@.len()
            > 39,
        ({
            let listed = "m.silo_name IN ("@ + placeholders(n) + ")"@;
            &&& listed != "m.status = 'active'"@
            &&& listed != "m.expires_at IS NOT NULL"@
            &&& listed != "julianday(m.expires_at) <= julianday(?)"@
            &&& listed != "m.space_name = ?"@
            &&& listed != "m.silo_name = ?"@
            &&& listed != "v.content_sha256 = ?"@
            &&& listed
                != "(SELECT COUNT(DISTINCT r.session_id) FROM recall_events r WHERE r.memory_id = m.id AND r.kind = 'retrieved' AND r.session_id IS NOT NULL AND r.score >= ? AND r.rank <= ?) >= ?"@
        }),
{
    reveal_strlit("m.status = 'active'");
    reveal_strlit("m.expires_at IS NOT NULL");
    reveal_strlit("julianday(m.expires_at) <= julianday(?)");
    reveal_strlit("m.space_name = ?");
    reveal_strlit("m.silo_name = ?");
    reveal_strlit("v.content_sha256 = ?");
    reveal_strlit(
        "(SELECT COUNT(DISTINCT r.session_id) FROM recall_events r WHERE r.memory_id = m.id AND r.kind = 'retrieved' AND r.session_id IS NOT NULL AND r.score >= ? AND r.rank <= ?) >= ?",
    );
    reveal_strlit("m.silo_name IN (");
    let listed = "m.silo_name IN ("@ + placeholders(n) + ")"@;
    assert(listed[0] == 'm' && listed[2] == 's' && listed[3] == 'i' && listed[12] == 'I');
    assert("m.status = 'active'"@[3] == 't');
    assert("m.expires_at IS NOT NULL"@[2] == 'e');
    assert("julianday(m.expires_at) <= julianday(?)"@[0] == 'j');
    assert("m.space_name = ?"@[3] == 'p');
    assert("m.silo_name = ?"@[12] == '=');
    assert("v.content_sha256 = ?"@[0] == 'v');
    assert(
        "(SELECT COUNT(DISTINCT r.session_id) FROM recall_events r WHERE r.memory_id = m.id AND r.kind = 'retrieved' AND r.session_id IS NOT NULL AND r.score >= ? AND r.rank <= ?) >= ?"@[0]
        == '(');
}

proof fn lemma_silos(
    prepared: PreparedDreamRequest,
    row: MemoryRow,
    calendar: spec_fn(Seq<char>) -> Option<int>,
)
    ensures
        meets_all(silo_filters(prepared), row, calendar) <==> in_silos(prepared, row),
{
    let list = silo_filters(prepared);
    let names = views(prepared.silos@);
    assert(names.len() == prepared.silos@.len());
    if prepared.silos@.len() > 0 {
        lemma_texts_differ(names.len());
        let c = one_of_texts("m.silo_name"@, names);
        assert(list[0] == c);
        reveal_strlit("m.silo_name");
        reveal_strlit(" IN (");
        reveal_strlit("m.silo_name IN (");
        assert("m.silo_name"@ + " IN ("@ =~= "m.silo_name IN ("@);
        assert(c.values.len() == names.len());
        if in_silos(prepared, row) {
            let i = choose|i: int|
                0 <= i < prepared.silos@.len() && (#[trigger] prepared.silos@[i])@ == row.silo;
            assert(c.values[i] == SqlModel::Text(row.silo));
            assert(says_of(c, row, calendar));
        }
        if meets_all(list, row, calendar) {
            assert(says_of(list[0], row, calendar));
            let i = choose|i: int|
                0 <= i < c.values.len() && #[trigger] c.values[i] == SqlModel::Text(row.silo);
            assert(prepared.silos@[i]@ == row.silo);
        }
    }
}

proof fn lemma_meets_both(
    first: Seq<ClauseModel>,
    more: Seq<ClauseModel>,
    row: MemoryRow,
    calendar: spec_fn(Seq<char>) -> Option<int>,
)
    ensures
        meets_all(first + more, row, calendar) <==> meets_all(first, row, calendar) && meets_all(
            more,
            row,
            calendar,
        ),
{
    let all = first + more;
    if meets_all(all, row, calendar) {
        assert forall|i: int| 0 <= i < first.len() implies says_of(
            #[trigger] first[i],
            row,
            calendar,
        ) by {
            assert(all[i] == first[i]);
        }
        assert forall|i: int| 0 <= i < more.len() implies says_of(
            #[trigger] more[i],
            row,
            calendar,
        ) by {
            assert(all[first.len() + i] == more[i]);
        }
    }
}

proof fn lemma_space(
    name: Seq<char>,
    row: MemoryRow,
    calendar: spec_fn(Seq<char>) -> Option<int>,
)
    ensures
        says_of(on_text("m.space_name = ?"@, name), row, calendar) <==> row.space == name,
{
    lemma_texts_differ(0);
    let c = on_text("m.space_name = ?"@, name);
    assert(c.values[0] == SqlModel::Text(name));
    if row.space == name {
        assert(c.values =~= seq![SqlModel::Text(row.space)]);
    } else {
        assert(seq![SqlModel::Text(row.space)][0] == SqlModel::Text(row.space));
    }
}

proof fn lemma_scope(
    prepared: PreparedDreamRequest,
    row: MemoryRow,
    calendar: spec_fn(Seq<char>) -> Option<int>,
)
    ensures
        meets_all(memory_filters(prepared), row, calendar) <==> in_scope(prepared, row),
{
    lemma_silos(prepared, row, calendar);
    if let Some(space) = prepared.space {
        let first = seq![on_text("m.space_name = ?"@, space@)];
        lemma_meets_both(first, silo_filters(prepared), row, calendar);
        lemma_space(space@, row, calendar);
        assert(first[0] == on_text("m.space_name = ?"@, space@));
    }
}

/// The scan for expired memories finds a memory exactly where it is active, has a time
/// of expiry, that time is at or before now, and the memory is in the scope of the run.
/// It finds first what expired first, and one more than the run handles.
pub proof fn law_expiry_finds_what_has_expired(
    prepared: PreparedDreamRequest,
    now: &str,
    statement: Statement,
    calendar: spec_fn(Seq<char>) -> Option<int>,
) -> (conditions: Seq<ClauseModel>)
    requires
        call_ensures(expire_query, (&prepared, now), Ok::<Statement, Error>(statement)),
        prepared.max_memories < usize::MAX,
    ensures
        asks_for(
            statement,
            "SELECT m.id, m.pinned FROM memories m WHERE "@,
            conditions,
            " ORDER BY m.expires_at ASC, m.id ASC LIMIT ?"@,
            prepared.max_memories + 1,
        ),
        forall|row: MemoryRow| #[trigger]
            meets_all(conditions, row, calendar) <==> {
                &&& row.status == "active"@
                &&& row.expires_at is Some
                &&& calendar(row.expires_at->0) is Some && calendar(now@) is Some
                &&& calendar(row.expires_at->0)->0 <= calendar(now@)->0
                &&& in_scope(prepared, row)
            },
{
    let conditions = expire_clauses(prepared, now@);
    let own = seq![
        plain("m.status = 'active'"@),
        plain("m.expires_at IS NOT NULL"@),
        on_text("julianday(m.expires_at) <= julianday(?)"@, now@),
    ];
    lemma_texts_differ(0);
    assert forall|row: MemoryRow| #[trigger] meets_all(conditions, row, calendar) <==> {
        &&& row.status == "active"@
        &&& row.expires_at is Some
        &&& calendar(row.expires_at->0) is Some && calendar(now@) is Some
        &&& calendar(row.expires_at->0)->0 <= calendar(now@)->0
        &&& in_scope(prepared, row)
    } by {
        lemma_scope(prepared, row, calendar);
        lemma_meets_both(own, memory_filters(prepared), row, calendar);
        assert(own[0] == plain("m.status = 'active'"@));
        assert(own[1] == plain("m.expires_at IS NOT NULL"@));
        assert(own[2] == on_text("julianday(m.expires_at) <= julianday(?)"@, now@));
        assert(own[2].values[0] == SqlModel::Text(now@));
        assert(says_of(own[0], row, calendar) <==> row.status == "active"@);
        assert(says_of(own[1], row, calendar) <==> row.expires_at is Some);
        assert(says_of(own[2], row, calendar) <==> has_come(
            calendar,
            row.expires_at,
            SqlModel::Text(now@),
        ));
        assert(meets_all(own, row, calendar) <==> says_of(own[0], row, calendar) && says_of(
            own[1],
            row,
            calendar,
        ) && says_of(own[2], row, calendar));
    }
    conditions
}

/// The scan for memories to promote finds a memory exactly where it is active, in the
/// short-term silo and in the scope of the run, and was retrieved in as many sessions as
/// the run asks for, each time with a score and at a rank that count.
pub proof fn law_promotion_finds_what_is_recalled_often(
    prepared: PreparedDreamRequest,
    statement: Statement,
    calendar: spec_fn(Seq<char>) -> Option<int>,
) -> (conditions: Seq<ClauseModel>)
    requires
        call_ensures(promote_query, (&prepared,), Ok::<Statement, Error>(statement)),
        prepared.max_memories < usize::MAX,
    ensures
        asks_for(
            statement,
            "SELECT m.id FROM memories m WHERE "@,
            conditions,
            " ORDER BY m.id ASC LIMIT ?"@,
            prepared.max_memories + 1,
        ),
        forall|row: MemoryRow| #[trigger]
            meets_all(conditions, row, calendar) <==> {
                &&& row.status == "active"@
                &&& row.silo == "short-term"@
                &&& recalling_sessions(
                    row,
                    prepared.promote_score_floor.key as int,
                    prepared.promote_rank_cap as int,
                ).len() >= prepared.promote_threshold
                &&& in_scope(prepared, row)
            },
{
    let conditions = promote_clauses(prepared);
    let often = ClauseModel {
        text: "(SELECT COUNT(DISTINCT r.session_id) FROM recall_events r WHERE r.memory_id = m.id AND r.kind = 'retrieved' AND r.session_id IS NOT NULL AND r.score >= ? AND r.rank <= ?) >= ?"@,
        values: seq![
            SqlModel::Real(prepared.promote_score_floor),
            SqlModel::Integer(prepared.promote_rank_cap as int),
            SqlModel::Integer(prepared.promote_threshold as int),
        ],
    };
    let own = seq![
        plain("m.status = 'active'"@),
        on_text("m.silo_name = ?"@, "short-term"@),
        often,
    ];
    assert(conditions =~= own + memory_filters(prepared));
    lemma_texts_differ(0);
    assert forall|row: MemoryRow| #[trigger] meets_all(conditions, row, calendar) <==> {
        &&& row.status == "active"@
        &&& row.silo == "short-term"@
        &&& recalling_sessions(
            row,
            prepared.promote_score_floor.key as int,
            prepared.promote_rank_cap as int,
        ).len() >= prepared.promote_threshold
        &&& in_scope(prepared, row)
    } by {
        lemma_scope(prepared, row, calendar);
        lemma_meets_both(own, memory_filters(prepared), row, calendar);
        assert(own[0] == plain("m.status = 'active'"@));
        assert(own[1] == on_text("m.silo_name = ?"@, "short-term"@));
        assert(own[2] == often);
        assert(own[1].values[0] == SqlModel::Text("short-term"@));
        if row.silo == "short-term"@ {
            assert(own[1].values =~= seq![SqlModel::Text(row.silo)]);
        } else {
            assert(seq![SqlModel::Text(row.silo)][0] == SqlModel::Text(row.silo));
        }
        assert(says_of(own[0], row, calendar) <==> row.status == "active"@);
        assert(says_of(own[1], row, calendar) <==> row.silo == "short-term"@);
        assert(meets_all(own, row, calendar) <==> says_of(own[0], row, calendar) && says_of(
            own[1],
            row,
            calendar,
        ) && says_of(own[2], row, calendar));
    }
    conditions
}

/// The scan for duplicates goes over the active memories in the scope of the run, and
/// finds the contents that more than one of them has.
pub proof fn law_duplicates_are_sought_in_scope(
    prepared: PreparedDreamRequest,
    statement: Statement,
    calendar: spec_fn(Seq<char>) -> Option<int>,
) -> (conditions: Seq<ClauseModel>)
    requires
        call_ensures(duplicates_query, (&prepared,), Ok::<Statement, Error>(statement)),
        prepared.max_memories < usize::MAX,
    ensures
        asks_for(
            statement,
            "SELECT m.space_name, v.content_sha256, COUNT(*), COALESCE(SUM(m.pinned), 0) FROM memories m JOIN memory_versions v ON v.id = m.active_version_id WHERE "@,
            conditions,
            " GROUP BY m.space_name, v.content_sha256 HAVING COUNT(*) > 1 ORDER BY m.space_name ASC, v.content_sha256 ASC LIMIT ?"@,
            prepared.max_memories + 1,
        ),
        forall|row: MemoryRow| #[trigger]
            meets_all(conditions, row, calendar) <==> row.status == "active"@ && in_scope(
                prepared,
                row,
            ),
{
    let own = seq![plain("m.status = 'active'"@)];
    let conditions = own + memory_filters(prepared);
    lemma_texts_differ(0);
    assert forall|row: MemoryRow| #[trigger] meets_all(conditions, row, calendar) <==> row.status
        == "active"@ && in_scope(prepared, row) by {
        lemma_scope(prepared, row, calendar);
        lemma_meets_both(own, memory_filters(prepared), row, calendar);
        assert(own[0] == plain("m.status = 'active'"@));
        assert(meets_all(own, row, calendar) <==> says_of(own[0], row, calendar));
    }
    conditions
}

/// The members of a group of duplicates are the active memories of its space with its
/// content that are in the silos of the run; pinned ones come first.
pub proof fn law_duplicates_share_their_content(
    prepared: PreparedDreamRequest,
    space: &str,
    content_sha256: &str,
    statement: Statement,
    calendar: spec_fn(Seq<char>) -> Option<int>,
) -> (conditions: Seq<ClauseModel>)
    requires
        call_ensures(duplicate_members_query, (&prepared, space, content_sha256), statement),
    ensures
        asks_for(
            statement,
            "SELECT m.id FROM memories m JOIN memory_versions v ON v.id = m.active_version_id WHERE "@,
            conditions,
            " ORDER BY m.pinned DESC, m.id ASC LIMIT ?"@,
            22,
        ),
        forall|row: MemoryRow| #[trigger]
            meets_all(conditions, row, calendar) <==> {
                &&& row.status == "active"@
                &&& row.space == space@
                &&& row.content_sha256 == content_sha256@
                &&& in_silos(prepared, row)
            },
{
    let own = seq![
        plain("m.status = 'active'"@),
        on_text("m.space_name = ?"@, space@),
        on_text("v.content_sha256 = ?"@, content_sha256@),
    ];
    let conditions = own + silo_filters(prepared);
    lemma_texts_differ(0);
    assert forall|row: MemoryRow| #[trigger] meets_all(conditions, row, calendar) <==> {
        &&& row.status == "active"@
        &&& row.space == space@
        &&& row.content_sha256 == content_sha256@
        &&& in_silos(prepared, row)
    } by {
        lemma_silos(prepared, row, calendar);
        lemma_meets_both(own, silo_filters(prepared), row, calendar);
        lemma_space(space@, row, calendar);
        assert(own[0] == plain("m.status = 'active'"@));
        assert(own[1] == on_text("m.space_name = ?"@, space@));
        assert(own[2] == on_text("v.content_sha256 = ?"@, content_sha256@));
        assert(own[2].values[0] == SqlModel::Text(content_sha256@));
        if row.content_sha256 == content_sha256@ {
            assert(own[2].values =~= seq![SqlModel::Text(row.content_sha256)]);
        } else {
            assert(seq![SqlModel::Text(row.content_sha256)][0] == SqlModel::Text(
                row.content_sha256,
            ));
        }
        assert(says_of(own[0], row, calendar) <==> row.status == "active"@);
        assert(says_of(own[2], row, calendar) <==> row.content_sha256 == content_sha256@);
        assert(meets_all(own, row, calendar) <==> says_of(own[0], row, calendar) && says_of(
            own[1],
            row,
            calendar,
        ) && says_of(own[2], row, calendar));
    }
    conditions
}

/// Conditions hold together: the joined text of one is its own, and each further one
/// is joined to those before it by AND.
pub proof fn law_conditions_hold_together(list: Vec<Clause>, fewer: Vec<Clause>, last: Clause)
    requires
        list@ == fewer@.push(last),
    ensures
        forall|all: String, before: String|
            call_ensures(join_clauses, (&list,), all) && call_ensures(
                join_clauses,
                (&fewer,),
                before,
            ) ==> #[trigger] all@ == if fewer@.len() == 0 {
                last.text@
            } else {
                #[trigger] before@ + " AND "@ + last.text@
            },
{
    assert(clause_texts(clause_models(list@)) =~= clause_texts(clause_models(fewer@)).push(
        last.text@,
    ));
    let texts = clause_texts(clause_models(list@));
    assert(texts.drop_last() =~= clause_texts(clause_models(fewer@)));
}

/// The values of a statement come in the order of the conditions that need them.
pub proof fn law_values_follow_conditions(list: Vec<Clause>, fewer: Vec<Clause>, last: Clause)
    requires
        list@ == fewer@.push(last),
    ensures
        forall|all: Vec<SqlValue>, before: Vec<SqlValue>|
            call_ensures(collect_values, (&list,), all) && call_ensures(
                collect_values,
                (&fewer,),
                before,
            ) ==> value_models(#[trigger] all@) == value_models(#[trigger] before@) + value_models(
                last.values@,
            ),
{
    let models = clause_models(list@);
    assert(models =~= clause_models(fewer@).push(last@));
    assert(models.drop_last() =~= clause_models(fewer@));
}

proof fn lemma_expiring(rows: Seq<ExpireModel>, include_pinned: bool, i: int)
    requires
        0 <= i < rows.len(),
    ensures
        expiring(rows, include_pinned, rows[i].pinned && !include_pinned).contains(rows[i].id),
    decreases rows.len(),
{
    let kept = rows[i].pinned && !include_pinned;
    let after = expiring(rows, include_pinned, kept);
    let before = expiring(rows.drop_last(), include_pinned, kept);
    if i < rows.len() - 1 {
        lemma_expiring(rows.drop_last(), include_pinned, i);
        let k = choose|k: int| 0 <= k < before.len() && before[k] == rows[i].id;
        assert(after[k] == rows[i].id);
    } else {
        assert(after[before.len() as int] == rows[i].id);
    }
}

proof fn lemma_expiring_from(rows: Seq<ExpireModel>, include_pinned: bool, kept: bool, k: int) -> (i:
    int)
    requires
        0 <= k < expiring(rows, include_pinned, kept).len(),
    ensures
        0 <= i < rows.len(),
        rows[i].id == expiring(rows, include_pinned, kept)[k],
        (rows[i].pinned && !include_pinned) == kept,
    decreases rows.len(),
{
    let before = expiring(rows.drop_last(), include_pinned, kept);
    if k < before.len() {
        lemma_expiring_from(rows.drop_last(), include_pinned, kept, k)
    } else {
        rows.len() - 1
    }
}

proof fn lemma_expiring_len(rows: Seq<ExpireModel>, include_pinned: bool)
    ensures
        expiring(rows, include_pinned, true).len() + expiring(rows, include_pinned, false).len()
            == rows.len(),
    decreases rows.len(),
{
    if rows.len() > 0 {
        lemma_expiring_len(rows.drop_last(), include_pinned);
    }
}

/// The lesser of two numbers.
pub open spec fn at_most(n: nat, max: nat) -> nat {
    if n < max {
        n
    } else {
        max
    }
}

/// Whether some string of a list has a text.
pub open spec fn names_text(list: Seq<String>, text: Seq<char>) -> bool {
    exists|k: int| 0 <= k < list.len() && (#[trigger] list[k])@ == text
}

/// Whether an expired memory among the first `n` has an id, and is kept or not.
pub open spec fn is_sorted_out(
    rows: Seq<DreamExpireCandidate>,
    n: nat,
    include_pinned: bool,
    id: Seq<char>,
    kept: bool,
) -> bool {
    exists|i: int|
        0 <= i < n && (#[trigger] rows[i]).id@ == id && (rows[i].pinned && !include_pinned) == kept
}

/// Of the memories that have expired, as many as the run handles, every one expires,
/// but for the pinned ones: those are kept, unless the run takes pinned ones too.
pub proof fn law_expiry_spares_the_pinned(
    prepared: PreparedDreamRequest,
    rows: Vec<DreamExpireCandidate>,
    report: DreamExpireReport,
)
    requires
        call_ensures(dream_expire_memories, (&prepared, &rows), report),
    ensures
        forall|i: int|
            0 <= i < at_most(rows@.len(), prepared.max_memories as nat) ==> if (
            #[trigger] rows@[i]).pinned && !prepared.include_pinned {
                names_text(report.skipped_pinned_ids@, rows@[i].id@)
            } else {
                names_text(report.memory_ids@, rows@[i].id@)
            },
        forall|k: int|
            0 <= k < report.memory_ids@.len() ==> is_sorted_out(
                rows@,
                at_most(rows@.len(), prepared.max_memories as nat),
                prepared.include_pinned,
                (#[trigger] report.memory_ids@[k])@,
                false,
            ),
        forall|k: int|
            0 <= k < report.skipped_pinned_ids@.len() ==> is_sorted_out(
                rows@,
                at_most(rows@.len(), prepared.max_memories as nat),
                prepared.include_pinned,
                (#[trigger] report.skipped_pinned_ids@[k])@,
                true,
            ),
        report.attempted,
        report.expired == report.memory_ids@.len(),
        report.skipped_pinned == report.skipped_pinned_ids@.len(),
        report.expired + report.skipped_pinned == report.scanned,
        report.scanned == at_most(rows@.len(), prepared.max_memories as nat),
        report.truncated <==> rows@.len() > prepared.max_memories,
{
    let models = expire_models(rows@);
    let max = prepared.max_memories as nat;
    let list = handled(models, max);
    let pinned = prepared.include_pinned;
    assert(models.len() == rows@.len());
    assert(list.len() == at_most(rows@.len(), max));
    assert forall|i: int| 0 <= i < list.len() implies (#[trigger] list[i]).id == rows@[i].id@
        && list[i].pinned == rows@[i].pinned by {
        assert(models[i].id == rows@[i].id@);
    }
    lemma_expiring_len(list, pinned);
    let gone = views(report.memory_ids@);
    let kept = views(report.skipped_pinned_ids@);
    assert(gone.len() == report.memory_ids@.len());
    assert(kept.len() == report.skipped_pinned_ids@.len());
    assert forall|i: int| 0 <= i < list.len() implies if (#[trigger] rows@[i]).pinned && !pinned {
        names_text(report.skipped_pinned_ids@, rows@[i].id@)
    } else {
        names_text(report.memory_ids@, rows@[i].id@)
    } by {
        lemma_expiring(list, pinned, i);
        assert(list[i].id == rows@[i].id@);
        if rows@[i].pinned && !pinned {
            let k = choose|k: int| 0 <= k < kept.len() && kept[k] == list[i].id;
            assert(report.skipped_pinned_ids@[k]@ == rows@[i].id@);
        } else {
            let k = choose|k: int| 0 <= k < gone.len() && gone[k] == list[i].id;
            assert(report.memory_ids@[k]@ == rows@[i].id@);
        }
    }
    assert forall|k: int| 0 <= k < report.memory_ids@.len() implies is_sorted_out(
        rows@,
        at_most(rows@.len(), max),
        pinned,
        (#[trigger] report.memory_ids@[k])@,
        false,
    ) by {
        assert(gone[k] == report.memory_ids@[k]@);
        let i = lemma_expiring_from(list, pinned, false, k);
        assert(rows@[i].id@ == list[i].id);
    }
    assert forall|k: int| 0 <= k < report.skipped_pinned_ids@.len() implies is_sorted_out(
        rows@,
        at_most(rows@.len(), max),
        pinned,
        (#[trigger] report.skipped_pinned_ids@[k])@,
        true,
    ) by {
        assert(kept[k] == report.skipped_pinned_ids@[k]@);
        let i = lemma_expiring_from(list, pinned, true, k);
        assert(rows@[i].id@ == list[i].id);
    }
}

/// Every memory that is found is promoted, in order, as many as the run handles.
pub proof fn law_promotion_takes_what_is_found(
    prepared: PreparedDreamRequest,
    rows: Vec<String>,
    report: DreamPromoteReport,
)
    requires
        call_ensures(dream_promote_memories, (&prepared, &rows), report),
    ensures
        report.attempted,
        report.memory_ids@.len() == at_most(rows@.len(), prepared.max_memories as nat),
        report.scanned == report.memory_ids@.len() && report.promoted == report.memory_ids@.len(),
        forall|i: int|
            0 <= i < report.memory_ids@.len() ==> (#[trigger] report.memory_ids@[i])@
                == rows@[i]@,
        report.truncated <==> rows@.len() > prepared.max_memories,
{
    let found = views(rows@);
    assert(found.len() == rows@.len());
    assert(views(report.memory_ids@).len() == report.memory_ids@.len());
    assert forall|i: int| 0 <= i < report.memory_ids@.len() implies (
    #[trigger] report.memory_ids@[i])@ == rows@[i]@ by {
        assert(views(report.memory_ids@)[i] == report.memory_ids@[i]@);
        assert(found[i] == rows@[i]@);
    }
}

/// A run that only reports writes nothing. Another one moves each promoted memory to the
/// durable silo, where it stays active and no longer expires.
pub proof fn law_promotion_makes_durable(
    prepared: PreparedDreamRequest,
    report: DreamPromoteReport,
    run_id: &str,
    writes: Vec<DreamWrite>,
)
    requires
        call_ensures(promotion_writes, (&prepared, &report, run_id), writes),
    ensures
        prepared.dry_run ==> writes@.len() == 0,
        !prepared.dry_run ==> writes@.len() == report.memory_ids@.len(),
        forall|i: int|
            0 <= i < writes@.len() ==> {
                &&& (#[trigger] writes@[i]).memory_id@ == report.memory_ids@[i]@
                &&& writes@[i].silo is Some && writes@[i].silo->0@ == "durable"@
                &&& writes@[i].clear_expiry
                &&& writes@[i].new_status@ == "active"@
            },
{
}

/// A run that only reports writes nothing. Another one marks each expired memory as
/// expired, and leaves it in its silo.
pub proof fn law_expiry_marks_as_expired(
    prepared: PreparedDreamRequest,
    report: DreamExpireReport,
    run_id: &str,
    writes: Vec<DreamWrite>,
)
    requires
        call_ensures(expiry_writes, (&prepared, &report, run_id), writes),
    ensures
        prepared.dry_run ==> writes@.len() == 0,
        !prepared.dry_run ==> writes@.len() == report.memory_ids@.len(),
        forall|i: int|
            0 <= i < writes@.len() ==> {
                &&& (#[trigger] writes@[i]).memory_id@ == report.memory_ids@[i]@
                &&& writes@[i].silo is None
                &&& !writes@[i].clear_expiry
                &&& writes@[i].new_status@ == "expired"@
            },
{
}

/// Of a group of duplicates the first member is to be kept, and the next twenty are
/// proposed as its duplicates.
pub proof fn law_duplicates_give_way_to_the_first(
    group: DreamDuplicateGroup,
    proposal: DreamDuplicateProposal,
)
    requires
        call_ensures(dream_duplicate_proposal, (&group,), proposal),
        group.ids@.len() > 0,
    ensures
        proposal.canonical_memory_id@ == group.ids@[0]@,
        proposal.duplicate_memory_ids@.len() == at_most((group.ids@.len() - 1) as nat, 20),
        forall|i: int|
            0 <= i < proposal.duplicate_memory_ids@.len() ==> (
            #[trigger] proposal.duplicate_memory_ids@[i])@ == group.ids@[i + 1]@,
        proposal.space@ == group.space@ && proposal.content_sha256@ == group.content_sha256@,
        proposal.total_count == group.total_count && proposal.pinned_count == group.pinned_count,
        proposal.duplicate_ids_truncated <==> group.total_count
            > proposal.duplicate_memory_ids@.len() + 1,
{
    let ids = views(group.ids@);
    assert(ids.len() == group.ids@.len());
    let others = views(proposal.duplicate_memory_ids@);
    assert(others.len() == proposal.duplicate_memory_ids@.len());
    assert(ids[0] == group.ids@[0]@);
    assert forall|i: int| 0 <= i < proposal.duplicate_memory_ids@.len() implies (
    #[trigger] proposal.duplicate_memory_ids@[i])@ == group.ids@[i + 1]@ by {
        assert(others[i] == proposal.duplicate_memory_ids@[i]@);
        assert(ids.skip(1)[i] == ids[i + 1]);
    }
}

/// The place of a task in the order of a run.
pub open spec fn turn_of(task: Seq<char>) -> int {
    if task == "promote"@ {
        1
    } else if task == "expire"@ {
        2
    } else if task == "reindex"@ {
        3
    } else if task == "dedupe"@ {
        4
    } else if task == "link"@ {
        5
    } else if task == "graph"@ {
        6
    } else {
        0
    }
}

proof fn lemma_task_texts()
    ensures
        turn_of("promote"@) == 1 && turn_of("expire"@) == 2 && turn_of("reindex"@) == 3,
        turn_of("dedupe"@) == 4 && turn_of("link"@) == 5 && turn_of("graph"@) == 6,
        turn_of("all"@) == 0,
{
    reveal_strlit("promote");
    reveal_strlit("expire");
    reveal_strlit("reindex");
    reveal_strlit("dedupe");
    reveal_strlit("link");
    reveal_strlit("graph");
    reveal_strlit("all");
    assert("promote"@.len() == 7 && "expire"@.len() == 6 && "reindex"@.len() == 7);
    assert("dedupe"@.len() == 6 && "link"@.len() == 4 && "graph"@.len() == 5 && "all"@.len() == 3);
    assert("promote"@[0] == 'p' && "reindex"@[0] == 'r');
    assert("expire"@[0] == 'e' && "dedupe"@[0] == 'd');
}

/// Whether a task is named among those that are asked for.
pub open spec fn is_asked_for(tasks: Seq<String>, name: Seq<char>) -> bool {
    exists|i: int| 0 <= i < tasks.len() && trimmed((#[trigger] tasks[i])@) == name
}

proof fn lemma_asked_for(tasks: Seq<String>, name: Seq<char>)
    ensures
        requested(views(tasks), name) == is_asked_for(tasks, name),
{
    let all = views(tasks);
    assert(all.len() == tasks.len());
    if requested(all, name) {
        let i = choose|i: int| 0 <= i < all.len() && trimmed(#[trigger] all[i]) == name;
        assert(trimmed(tasks[i]@) == name);
    }
    if is_asked_for(tasks, name) {
        let i = choose|i: int| 0 <= i < tasks.len() && trimmed((#[trigger] tasks[i])@) == name;
        assert(trimmed(all[i]) == name);
    }
}

/// A run goes through its tasks in a fixed order, each once: first it promotes, then it
/// expires, rebuilds the indexes, looks for duplicates, links, and tends the graph. A
/// task is left out only where others are asked for and neither it nor all are.
pub proof fn law_tasks_run_in_order(tasks: Vec<String>, list: Vec<String>)
    requires
        call_ensures(normalize_dream_tasks, (&tasks,), Ok::<Vec<String>, Error>(list)),
    ensures
        forall|i: int| 0 <= i < list@.len() ==> turn_of((#[trigger] list@[i])@) > 0,
        forall|i: int, j: int|
            0 <= i < j < list@.len() ==> turn_of((#[trigger] list@[i])@) < turn_of(
                (#[trigger] list@[j])@,
            ),
        forall|name: Seq<char>|
            turn_of(name) > 0 ==> (#[trigger] names_text(list@, name) <==> tasks@.len() == 0
                || is_asked_for(tasks@, "all"@) || is_asked_for(tasks@, name)),
{
    lemma_task_texts();
    let all = views(tasks@);
    let given = views(list@);
    assert(given.len() == list@.len() && all.len() == tasks@.len());
    assert forall|i: int| 0 <= i < list@.len() implies (#[trigger] list@[i])@ == given[i] by {}
    lemma_asked_for(tasks@, "all"@);
    let whole = tasks@.len() == 0 || is_asked_for(tasks@, "all"@);
    lemma_asked_for(tasks@, "promote"@);
    lemma_asked_for(tasks@, "expire"@);
    lemma_asked_for(tasks@, "reindex"@);
    lemma_asked_for(tasks@, "dedupe"@);
    lemma_asked_for(tasks@, "link"@);
    lemma_asked_for(tasks@, "graph"@);
    let z = Seq::<Seq<char>>::empty();
    let a = push_if(z, whole || is_asked_for(tasks@, "promote"@), "promote"@);
    let b = push_if(a, whole || is_asked_for(tasks@, "expire"@), "expire"@);
    let c = push_if(b, whole || is_asked_for(tasks@, "reindex"@), "reindex"@);
    let d = push_if(c, whole || is_asked_for(tasks@, "dedupe"@), "dedupe"@);
    let e = push_if(d, whole || is_asked_for(tasks@, "link"@), "link"@);
    let f = push_if(e, whole || is_asked_for(tasks@, "graph"@), "graph"@);
    assert(given =~= f);
    lemma_pushed(z, whole || is_asked_for(tasks@, "promote"@), "promote"@, 0);
    lemma_pushed(a, whole || is_asked_for(tasks@, "expire"@), "expire"@, 1);
    lemma_pushed(b, whole || is_asked_for(tasks@, "reindex"@), "reindex"@, 2);
    lemma_pushed(c, whole || is_asked_for(tasks@, "dedupe"@), "dedupe"@, 3);
    lemma_pushed(d, whole || is_asked_for(tasks@, "link"@), "link"@, 4);
    lemma_pushed(e, whole || is_asked_for(tasks@, "graph"@), "graph"@, 5);
    assert forall|name: Seq<char>| turn_of(name) > 0 implies (#[trigger] names_text(list@, name)
        <==> whole || is_asked_for(tasks@, name)) by {
        if names_text(list@, name) {
            let k = choose|k: int| 0 <= k < list@.len() && (#[trigger] list@[k])@ == name;
            assert(given[k] == name);
            assert(given.contains(name));
        }
        if given.contains(name) {
            let k = choose|k: int| 0 <= k < given.len() && given[k] == name;
            assert(list@[k]@ == name);
        }
    }
}

/// Whether tasks are in order, and none comes after a turn.
spec fn in_turns(list: Seq<Seq<char>>, last: int) -> bool {
    &&& forall|i: int| 0 <= i < list.len() ==> 0 < turn_of(#[trigger] list[i]) <= last
    &&& forall|i: int, j: int|
        0 <= i < j < list.len() ==> turn_of(#[trigger] list[i]) < turn_of(#[trigger] list[j])
}

proof fn lemma_pushed(list: Seq<Seq<char>>, condition: bool, task: Seq<char>, last: int)
    requires
        in_turns(list, last),
        turn_of(task) == last + 1,
        0 <= last,
    ensures
        in_turns(push_if(list, condition, task), last + 1),
        forall|name: Seq<char>| #[trigger]
            push_if(list, condition, task).contains(name) <==> list.contains(name) || (condition
                && name == task),
{
    let more = push_if(list, condition, task);
    if condition {
        assert forall|name: Seq<char>| #[trigger] more.contains(name) <==> list.contains(name)
            || name == task by {
            crate::order::lemma_push_contains(list, task, name);
        }
    }
}

} // verus!
