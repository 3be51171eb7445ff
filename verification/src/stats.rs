//! Statistics of a store.

use vstd::prelude::*;

use crate::error::{Error, Fault};
use crate::json::text_of_string;
use crate::order::{text_less, text_lt};
use crate::paths::{store_path_fault, validate_store_path, PathFacts};
use crate::schema::{initialized_fault, validate_initialized, SchemaFacts};
use crate::text::text_eq;
use crate::validate::first_of;

verus! {

/// Counts of one space.
pub struct SpaceStats {
    /// Name.
    pub name: String,
    /// Memories in it.
    pub memory_count: i64,
    /// Active memories in it.
    pub active_count: i64,
}

/// Counts of the indexes.
#[derive(Debug, Clone, Copy)]
pub struct IndexStats {
    /// Rows of the full-text index of memories.
    pub fts_memory_rows: i64,
    /// Rows of the full-text index of documents.
    pub fts_source_episode_rows: i64,
    /// Groups of equal document chunks.
    pub document_duplicate_clusters: i64,
    /// Jobs that wait or run.
    pub pending_jobs: i64,
}

/// Memories by status.
#[derive(Debug, Clone, Copy)]
pub struct StatusTotals {
    /// Active.
    pub active: i64,
    /// Superseded.
    pub superseded: i64,
    /// Conflicted.
    pub conflicted: i64,
    /// Tombstoned.
    pub tombstoned: i64,
    /// Expired.
    pub expired: i64,
}

/// The hygiene of a store.
pub struct HealthStats {
    /// Memories by status.
    pub totals: StatusTotals,
    /// Active memories without entity or claim key.
    pub active_without_keys: i64,
    /// Keys that more than one active memory has.
    pub duplicate_key_groups: i64,
    /// Active memories in the short-term silo.
    pub short_term_active: i64,
    /// Active memories past their validity.
    pub active_past_valid_to: i64,
    /// Active memories without an embedding.
    pub active_without_embedding: i64,
    /// When the last embedding was written.
    pub last_embedding_at: Option<String>,
    /// Candidates that await review.
    pub candidates_pending: i64,
    /// Approved candidates.
    pub candidates_approved: i64,
    /// Rejected candidates.
    pub candidates_rejected: i64,
}

/// How many memories have a status.
pub struct StatusCount {
    /// Status.
    pub status: String,
    /// Memories that have it.
    pub total: i64,
}

/// The last count of a status; zero where there is none.
pub open spec fn total_of(counts: Seq<StatusCount>, status: Seq<char>) -> i64
    decreases counts.len(),
{
    if counts.len() == 0 {
        0
    } else if counts.last().status@ == status {
        counts.last().total
    } else {
        total_of(counts.drop_last(), status)
    }
}

/// Sorts counts by status.
pub fn status_totals(counts: &Vec<StatusCount>) -> (r: StatusTotals)
    ensures
        r.active == total_of(counts@, "active"@),
        r.superseded == total_of(counts@, "superseded"@),
        r.conflicted == total_of(counts@, "conflicted"@),
        r.tombstoned == total_of(counts@, "tombstoned"@),
        r.expired == total_of(counts@, "expired"@),
{
    let mut totals = StatusTotals {
        active: 0,
        superseded: 0,
        conflicted: 0,
        tombstoned: 0,
        expired: 0,
    };
    assert(counts@.take(0) =~= Seq::empty());
    for i in 0..counts.len()
        invariant
            totals.active == total_of(counts@.take(i as int), "active"@),
            totals.superseded == total_of(counts@.take(i as int), "superseded"@),
            totals.conflicted == total_of(counts@.take(i as int), "conflicted"@),
            totals.tombstoned == total_of(counts@.take(i as int), "tombstoned"@),
            totals.expired == total_of(counts@.take(i as int), "expired"@),
    {
        proof {
            reveal_strlit("active");
            reveal_strlit("superseded");
            reveal_strlit("conflicted");
            reveal_strlit("tombstoned");
            reveal_strlit("expired");
            assert("active"@[0] == 'a');
            assert("superseded"@[0] == 's');
            assert("conflicted"@[0] == 'c');
            assert("tombstoned"@[0] == 't');
            assert("expired"@[0] == 'e');
            assert(counts@.take(i + 1).drop_last() =~= counts@.take(i as int));
            assert(counts@.take(i + 1).last() == counts@[i as int]);
        }
        let status = counts[i].status.as_str();
        let total: i64 = counts[i].total;
        if text_eq(status, "active") {
            totals.active = total;
        } else if text_eq(status, "superseded") {
            totals.superseded = total;
        } else if text_eq(status, "conflicted") {
            totals.conflicted = total;
        } else if text_eq(status, "tombstoned") {
            totals.tombstoned = total;
        } else if text_eq(status, "expired") {
            totals.expired = total;
        }
    }
    assert(counts@.take(counts@.len() as int) =~= counts@);
    totals
}

/// What a store says of itself.
pub struct StoreFacts {
    /// Path.
    pub path: String,
    /// Size of the database file.
    pub database_bytes: u64,
    /// Schema version.
    pub schema_version: i32,
    /// Protocol version, where it is configured.
    pub protocol_version: Option<String>,
    /// Version of the database engine.
    pub sqlite_version: String,
    /// Journal mode.
    pub journal_mode: String,
    /// Spaces.
    pub space_count: i64,
    /// Silos.
    pub silo_count: i64,
    /// Memories.
    pub memory_count: i64,
    /// Active memories.
    pub active_count: i64,
    /// Source episodes.
    pub source_episode_count: i64,
    /// Counts by space.
    pub spaces: Vec<SpaceStats>,
    /// Counts of the indexes.
    pub indexes: IndexStats,
}

/// Statistics of a store.
pub struct Stats {
    /// Path.
    pub path: String,
    /// Size of the database file.
    pub database_bytes: u64,
    /// Schema version.
    pub schema_version: i32,
    /// Protocol version.
    pub protocol_version: String,
    /// Version of the database engine.
    pub sqlite_version: String,
    /// Journal mode.
    pub journal_mode: String,
    /// Spaces.
    pub space_count: i64,
    /// Silos.
    pub silo_count: i64,
    /// Memories.
    pub memory_count: i64,
    /// Active memories.
    pub active_count: i64,
    /// Source episodes.
    pub source_episode_count: i64,
    /// Counts by space.
    pub spaces: Vec<SpaceStats>,
    /// Counts of the indexes, when requested.
    pub indexes: Option<IndexStats>,
    /// Hygiene, when requested.
    pub health: Option<HealthStats>,
}

/// Whether statistics say what the store says of itself.
pub open spec fn reports(
    stats: Stats,
    facts: StoreFacts,
    include_indexes: bool,
    health: Option<HealthStats>,
) -> bool {
    &&& stats.path == facts.path
    &&& stats.database_bytes == facts.database_bytes
    &&& stats.schema_version == facts.schema_version
    &&& Some(stats.protocol_version) == facts.protocol_version
    &&& stats.sqlite_version == facts.sqlite_version
    &&& stats.journal_mode == facts.journal_mode
    &&& stats.space_count == facts.space_count
    &&& stats.silo_count == facts.silo_count
    &&& stats.memory_count == facts.memory_count
    &&& stats.active_count == facts.active_count
    &&& stats.source_episode_count == facts.source_episode_count
    &&& stats.spaces == facts.spaces
    &&& stats.indexes == if include_indexes {
        Some(facts.indexes)
    } else {
        None
    }
    &&& stats.health == health
}

fn assemble(facts: StoreFacts, include_indexes: bool, health: Option<HealthStats>) -> (r: Result<
    Stats,
    Error,
>)
    ensures
        match r {
            Ok(stats) => facts.protocol_version is Some && reports(
                stats,
                facts,
                include_indexes,
                health,
            ),
            Err(e) => facts.protocol_version is None && e@ == Fault::NotInitialized(facts.path@),
        },
{
    match facts.protocol_version {
        None => Err(Error::NotInitialized { path: facts.path }),
        Some(protocol_version) => Ok(
            Stats {
                path: facts.path,
                database_bytes: facts.database_bytes,
                schema_version: facts.schema_version,
                protocol_version,
                sqlite_version: facts.sqlite_version,
                journal_mode: facts.journal_mode,
                space_count: facts.space_count,
                silo_count: facts.silo_count,
                memory_count: facts.memory_count,
                active_count: facts.active_count,
                source_episode_count: facts.source_episode_count,
                spaces: facts.spaces,
                indexes: if include_indexes {
                    Some(facts.indexes)
                } else {
                    None
                },
                health,
            },
        ),
    }
}

/// Return deterministic statistics for an initialized store.
pub fn store_stats(facts: StoreFacts, include_indexes: bool) -> (r: Result<Stats, Error>)
    ensures
        match r {
            Ok(stats) => facts.protocol_version is Some && reports(
                stats,
                facts,
                include_indexes,
                None,
            ),
            Err(e) => facts.protocol_version is None && e@ == Fault::NotInitialized(facts.path@),
        },
{
    assemble(facts, include_indexes, None)
}

/// Return store statistics with the hygiene of the store.
pub fn store_stats_with_health(facts: StoreFacts, include_indexes: bool, health: HealthStats) -> (r:
    Result<Stats, Error>)
    ensures
        match r {
            Ok(stats) => facts.protocol_version is Some && reports(
                stats,
                facts,
                include_indexes,
                Some(health),
            ),
            Err(e) => facts.protocol_version is None && e@ == Fault::NotInitialized(facts.path@),
        },
{
    assemble(facts, include_indexes, Some(health))
}

/// The fault of inspecting a store.
pub open spec fn inspect_fault(
    path: Seq<char>,
    at: PathFacts,
    exists: bool,
    schema: SchemaFacts,
) -> Option<Fault> {
    first_of(
        store_path_fault(path, at),
        if !exists {
            Some(Fault::NotInitialized(path))
        } else {
            initialized_fault(path, schema)
        },
    )
}

/// Return statistics for diagnostics, read from a private copy of the store: the
/// path has to be that of a store.
pub fn inspect_store_stats(
    at: PathFacts,
    exists: bool,
    schema: &SchemaFacts,
    facts: StoreFacts,
    include_indexes: bool,
) -> (r: Result<Stats, Error>)
    ensures
        match r {
            Ok(stats) => inspect_fault(facts.path@, at, exists, *schema) is None
                && facts.protocol_version is Some && reports(stats, facts, include_indexes, None),
            Err(e) => first_of(
                inspect_fault(facts.path@, at, exists, *schema),
                if facts.protocol_version is None {
                    Some(Fault::NotInitialized(facts.path@))
                } else {
                    None
                },
            ) == Some(e@),
        },
{
    if let Err(e) = validate_store_path(facts.path.as_str(), at) {
        return Err(e);
    }
    if !exists {
        return Err(Error::NotInitialized { path: facts.path });
    }
    if let Err(e) = validate_initialized(facts.path.as_str(), schema) {
        return Err(e);
    }
    assemble(facts, include_indexes, None)
}

/// One maintenance run, as recorded.
pub struct RunRecord {
    /// When it started.
    pub started_at: String,
    /// How it ended.
    pub status: String,
}

/// The latest start of a run that succeeded.
pub open spec fn last_success(runs: Seq<RunRecord>) -> Option<Seq<char>>
    decreases runs.len(),
{
    if runs.len() == 0 {
        None
    } else {
        let before = last_success(runs.drop_last());
        if runs.last().status@ != "succeeded"@ {
            before
        } else {
            match before {
                Some(at) if !text_less(at, runs.last().started_at@) => before,
                _ => Some(runs.last().started_at@),
            }
        }
    }
}

/// The start of the most recent maintenance run that succeeded.
pub fn last_synthesis_run(runs: &Vec<RunRecord>) -> (r: Option<String>)
    ensures
        text_of_string(r) == last_success(runs@),
{
    let mut best: Option<String> = None;
    assert(runs@.take(0) =~= Seq::empty());
    for i in 0..runs.len()
        invariant
            text_of_string(best) == last_success(runs@.take(i as int)),
    {
        proof {
            assert(runs@.take(i + 1).drop_last() =~= runs@.take(i as int));
            assert(runs@.take(i + 1).last() == runs@[i as int]);
        }
        if text_eq(runs[i].status.as_str(), "succeeded") {
            let later: bool = match &best {
                Some(at) => text_lt(at.as_str(), runs[i].started_at.as_str()),
                None => true,
            };
            if later {
                best = Some(runs[i].started_at.clone());
            }
        }
    }
    assert(runs@.take(runs@.len() as int) =~= runs@);
    best
}

/// The last successful start is that of a run that succeeded, and no such run
/// started later.
pub proof fn law_last_success_is_latest(runs: Seq<RunRecord>)
    ensures
        match last_success(runs) {
            Some(at) => (exists|i: int|
                0 <= i < runs.len() && (#[trigger] runs[i]).status@ == "succeeded"@
                    && runs[i].started_at@ == at) && (forall|i: int|
                0 <= i < runs.len() && (#[trigger] runs[i]).status@ == "succeeded"@
                    ==> !text_less(at, runs[i].started_at@)),
            None => forall|i: int|
                0 <= i < runs.len() ==> (#[trigger] runs[i]).status@ != "succeeded"@,
        },
    decreases runs.len(),
{
    if runs.len() > 0 {
        let rest = runs.drop_last();
        law_last_success_is_latest(rest);
        let n = runs.len() - 1;
        assert forall|i: int| 0 <= i < n implies rest[i] == runs[i] by {}
        if let Some(at) = last_success(runs) {
            let before = last_success(rest);
            if before == Some(at) && !(runs[n].status@ == "succeeded"@ && at
                == runs[n].started_at@) {
                let i = choose|i: int|
                    0 <= i < rest.len() && (#[trigger] rest[i]).status@ == "succeeded"@
                        && rest[i].started_at@ == at;
                assert(runs[i].started_at@ == at);
            } else {
                assert(runs[n].started_at@ == at);
            }
            assert forall|i: int|
                0 <= i < runs.len() && (#[trigger] runs[i]).status@ == "succeeded"@ implies
                !text_less(at, runs[i].started_at@) by {
                if i < n {
                    assert(rest[i].status@ == "succeeded"@);
                    let earlier = before->0;
                    assert(!text_less(earlier, rest[i].started_at@));
                    if text_less(at, runs[i].started_at@) {
                        if earlier != at {
                            crate::order::lemma_less_transitive(
                                earlier,
                                at,
                                runs[i].started_at@,
                            );
                        }
                    }
                } else {
                    crate::order::lemma_less_irreflexive(at);
                }
            }
        }
    }
}

} // verus!
