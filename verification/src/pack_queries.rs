//! Requests for prompt packs: their limits, and the searches of their queries.

use vstd::prelude::*;

use crate::error::{invalid3, verdict, Error, Fault};
use crate::neighbors::{check_range, range_fault};
use crate::requests::{PackRequest, SearchReport};
use crate::search::{
    ranked_report, reports_ranked, PreparedSearchRequest, QueryEmbedding, SearchCandidate,
    SearchModel, SearchRequest,
};
use crate::text::{decimal, decimal_of};
use crate::validate::{first_of, refused_if};
use crate::vocabulary::{
    MAX_BATCH_QUERY_LIMIT, MAX_PACK_CHARS, MAX_PACK_MEMORIES, MAX_PACK_TITLE_CHARS,
    MAX_SEARCH_LIMIT, MAX_SEARCH_OFFSET,
};

verus! {

/// The fault of a request for a pack: a title that is too long, or more memories or
/// characters than a pack holds, or none at all.
pub open spec fn pack_fault(request: PackRequest) -> Option<Fault> {
    first_of(
        refused_if(
            request.title@.len() > MAX_PACK_TITLE_CHARS,
            "title must be at most "@ + decimal(MAX_PACK_TITLE_CHARS as nat) + " characters"@,
        ),
        first_of(
            range_fault("max_memories"@, request.max_memories as nat, MAX_PACK_MEMORIES as nat),
            range_fault("max_chars"@, request.max_chars as nat, MAX_PACK_CHARS as nat),
        ),
    )
}

/// Checks a request for a pack.
pub fn validate_pack_request(request: &PackRequest) -> (r: Result<(), Error>)
    ensures
        verdict(r) == pack_fault(*request),
{
    if request.title.as_str().unicode_len() > MAX_PACK_TITLE_CHARS {
        let number = decimal_of(MAX_PACK_TITLE_CHARS as u64);
        return Err(invalid3("title must be at most ", number.as_str(), " characters"));
    }
    if let Err(e) = check_range("max_memories", request.max_memories, MAX_PACK_MEMORIES) {
        return Err(e);
    }
    check_range("max_chars", request.max_chars, MAX_PACK_CHARS)
}

/// The search of a query of a pack. A query that comes with an embedding is searched
/// by meaning where the vectors of its size are indexed, and by its words elsewhere.
pub open spec fn pack_search(
    request: PackRequest,
    i: int,
    embedding: Option<QueryEmbedding>,
    indexed: bool,
) -> SearchModel {
    let by_meaning = embedding is Some && indexed;
    SearchModel {
        query: request.queries@[i]@,
        filters: request.filters@,
        limit: if request.max_memories < MAX_BATCH_QUERY_LIMIT {
            request.max_memories
        } else {
            MAX_BATCH_QUERY_LIMIT
        },
        offset: 0,
        snippet_chars: 240,
        include_content: false,
        include_source: false,
        semantic_fallback: if by_meaning {
            "fallback"@
        } else {
            "disabled"@
        },
        lexical_fallback: "conservative"@,
        embedding: if by_meaning {
            embedding
        } else {
            None
        },
        query_token_embedding: false,
        token_model_id: None,
        maxsim_shortlist: 0,
    }
}

/// Makes the search of a query of a pack. `indexed` tells whether the store has an
/// index for vectors of the size of the embedding.
pub fn pack_query_request(
    request: &PackRequest,
    i: usize,
    embedding: Option<QueryEmbedding>,
    indexed: bool,
) -> (r: SearchRequest)
    requires
        i < request.queries@.len(),
    ensures
        r@ == pack_search(*request, i as int, embedding, indexed),
{
    let limit: usize = if request.max_memories < MAX_BATCH_QUERY_LIMIT {
        request.max_memories
    } else {
        MAX_BATCH_QUERY_LIMIT
    };
    let by_meaning: bool = embedding.is_some() && indexed;
    SearchRequest {
        query: request.queries[i].clone(),
        filters: request.filters.clone(),
        limit,
        offset: 0,
        snippet_chars: 240,
        include_content: false,
        include_source: false,
        semantic_fallback: if by_meaning {
            "fallback".to_owned()
        } else {
            "disabled".to_owned()
        },
        lexical_fallback: "conservative".to_owned(),
        embedding: if by_meaning {
            embedding
        } else {
            None
        },
        query_token_embedding: false,
        token_model_id: None,
        maxsim_shortlist: 0,
    }
}

/// Reports what a query of a pack found by meaning.
pub fn pack_semantic_report(
    prepared: &PreparedSearchRequest,
    candidates: &Vec<SearchCandidate>,
) -> (r: SearchReport)
    requires
        prepared.limit <= MAX_SEARCH_LIMIT,
        prepared.offset <= MAX_SEARCH_OFFSET,
    ensures
        reports_ranked(prepared@, candidates@, r),
        r.strategy@ == "ann_pack_v0"@,
        r.semantic_attempted,
        r.semantic_reason@ == "query_embedding_provided"@,
{
    ranked_report(prepared, candidates, "ann_pack_v0", true, "query_embedding_provided")
}

} // verus!
