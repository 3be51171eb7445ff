//! Requests for retrieval and the results they yield.

use vstd::prelude::*;

use crate::ranking::Score;
use crate::text::views;

verus! {

/// Filters of a memory retrieval; an empty list does not filter.
pub struct SearchFilters {
    /// Spaces.
    pub spaces: Vec<String>,
    /// Silos.
    pub silos: Vec<String>,
    /// Scopes.
    pub scopes: Vec<String>,
    /// Project keys.
    pub projects: Vec<String>,
    /// Kinds.
    pub kinds: Vec<String>,
    /// Statuses.
    pub statuses: Vec<String>,
    /// Entity keys.
    pub entity_keys: Vec<String>,
    /// Claim keys.
    pub claim_keys: Vec<String>,
    /// Tags, one of which a memory must have.
    pub tags: Vec<String>,
    /// Whether memories past their validity are left out.
    pub hide_expired: bool,
}

/// The model of [`SearchFilters`].
pub struct FiltersModel {
    /// Spaces.
    pub spaces: Seq<Seq<char>>,
    /// Silos.
    pub silos: Seq<Seq<char>>,
    /// Scopes.
    pub scopes: Seq<Seq<char>>,
    /// Project keys.
    pub projects: Seq<Seq<char>>,
    /// Kinds.
    pub kinds: Seq<Seq<char>>,
    /// Statuses.
    pub statuses: Seq<Seq<char>>,
    /// Entity keys.
    pub entity_keys: Seq<Seq<char>>,
    /// Claim keys.
    pub claim_keys: Seq<Seq<char>>,
    /// Tags.
    pub tags: Seq<Seq<char>>,
    /// Whether expired memories are left out.
    pub hide_expired: bool,
}

impl View for SearchFilters {
    type V = FiltersModel;

    open spec fn view(&self) -> FiltersModel {
        FiltersModel {
            spaces: views(self.spaces@),
            silos: views(self.silos@),
            scopes: views(self.scopes@),
            projects: views(self.projects@),
            kinds: views(self.kinds@),
            statuses: views(self.statuses@),
            entity_keys: views(self.entity_keys@),
            claim_keys: views(self.claim_keys@),
            tags: views(self.tags@),
            hide_expired: self.hide_expired,
        }
    }
}

impl Clone for SearchFilters {
    fn clone(&self) -> (r: Self)
        ensures
            r@ == self@,
    {
        SearchFilters {
            spaces: crate::pool::clone_texts(&self.spaces),
            silos: crate::pool::clone_texts(&self.silos),
            scopes: crate::pool::clone_texts(&self.scopes),
            projects: crate::pool::clone_texts(&self.projects),
            kinds: crate::pool::clone_texts(&self.kinds),
            statuses: crate::pool::clone_texts(&self.statuses),
            entity_keys: crate::pool::clone_texts(&self.entity_keys),
            claim_keys: crate::pool::clone_texts(&self.claim_keys),
            tags: crate::pool::clone_texts(&self.tags),
            hide_expired: self.hide_expired,
        }
    }
}

/// The parts that a retrieval score is made of.
#[derive(Debug, Clone, Copy)]
pub struct ScoreBreakdown {
    /// Relevance.
    pub fts: Score,
    /// Metadata boosts.
    pub metadata: Score,
    /// Recency boost.
    pub recency: Score,
    /// Scope boost.
    pub scope: Score,
    /// Status boost.
    pub status: Score,
    /// Pin boost.
    pub pin: Score,
    /// Source-trust boost.
    pub source_tier: Score,
}

/// One found memory.
pub struct SearchResult {
    /// One-based rank.
    pub rank: usize,
    /// Memory id.
    pub memory_id: String,
    /// Active version id.
    pub version_id: String,
    /// Retrieval score.
    pub score: Score,
    /// Parts of the score.
    pub scores: ScoreBreakdown,
    /// Space.
    pub space: String,
    /// Silo.
    pub silo: String,
    /// Scope.
    pub scope: String,
    /// Project key.
    pub project_key: Option<String>,
    /// Kind.
    pub kind: String,
    /// Status.
    pub status: String,
    /// Summary.
    pub summary: Option<String>,
    /// Snippet of the content.
    pub snippet: String,
    /// Full content, when requested.
    pub content: Option<String>,
    /// Tags.
    pub tags: Vec<String>,
    /// Entity key.
    pub entity_key: Option<String>,
    /// Claim key.
    pub claim_key: Option<String>,
    /// Observation time.
    pub observed_at: String,
    /// Source reference, when requested.
    pub source_ref_json: Option<String>,
    /// Stored metadata.
    pub metadata_json: Option<String>,
}

/// What one search returned.
pub struct SearchReport {
    /// Retrieval strategy.
    pub strategy: String,
    /// Whether a semantic search was attempted.
    pub semantic_attempted: bool,
    /// Why it was or was not.
    pub semantic_reason: String,
    /// Estimated number of matches.
    pub total_estimate: usize,
    /// Whether matches were cut off.
    pub truncated: bool,
    /// The results in rank order.
    pub results: Vec<SearchResult>,
}

/// A request for a prompt pack.
pub struct PackRequest {
    /// Title of the pack.
    pub title: String,
    /// Queries.
    pub queries: Vec<String>,
    /// Filters.
    pub filters: SearchFilters,
    /// Memories in the pack at most.
    pub max_memories: usize,
    /// Characters in the pack at most.
    pub max_chars: usize,
    /// Output format.
    pub format: String,
    /// Score that the best memory has to reach.
    pub min_score: Score,
    /// Width of the rerank pool; 0 for none.
    pub rerank_candidates: usize,
    /// How many queries come with an embedding, where embeddings were supplied.
    pub query_embeddings: Option<usize>,
    /// How many queries come with token embeddings, where these were supplied.
    pub query_token_embeddings: Option<usize>,
    /// The model of the token embeddings.
    pub token_model_id: Option<String>,
}

/// A prompt pack.
pub struct PackReport {
    /// Title.
    pub title: String,
    /// Format.
    pub format: String,
    /// The text of the pack.
    pub content: String,
    /// The memories in it, in order.
    pub memory_ids: Vec<String>,
    /// Their scores, in the same order.
    pub scores: Vec<Score>,
    /// Whether something was cut off.
    pub truncated: bool,
    /// The best score of the retrieval.
    pub top_score: Option<Score>,
}

/// The model of a [`PackReport`].
pub struct PackModel {
    /// Title.
    pub title: Seq<char>,
    /// Format.
    pub format: Seq<char>,
    /// The text of the pack.
    pub content: Seq<char>,
    /// The memories in it.
    pub memory_ids: Seq<Seq<char>>,
    /// Their scores.
    pub scores: Seq<Score>,
    /// Whether something was cut off.
    pub truncated: bool,
    /// The best score of the retrieval.
    pub top_score: Option<Score>,
}

impl View for PackReport {
    type V = PackModel;

    open spec fn view(&self) -> PackModel {
        PackModel {
            title: self.title@,
            format: self.format@,
            content: self.content@,
            memory_ids: views(self.memory_ids@),
            scores: self.scores@,
            truncated: self.truncated,
            top_score: self.top_score,
        }
    }
}

} // verus!
