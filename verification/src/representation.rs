//! The alternate text under which a memory can be retrieved.

use vstd::prelude::*;

use crate::digest::{sha256_text, text_digest};
use crate::error::{concat3, invalid, invalid2, verdict, Error, Fault};
use crate::json::text_of;
use crate::text::{is_blank, text_eq, trim};
use crate::validate::{first_of, refused_if};

verus! {

/// The one supported kind of retrieval representation.
pub const CONTEXTUAL_CARD_V1: &'static str = "contextual-card-v1";

/// Longest retrieval representation in Unicode scalar values.
pub const MAX_RETRIEVAL_REPRESENTATION_CHARS: usize = 512;

/// An alternate text for retrieval.
pub struct RetrievalRepresentationInput {
    /// Kind of the representation.
    pub kind: String,
    /// The text.
    pub text: String,
}

/// A stored alternate text.
pub struct MemoryRepresentationRecord {
    /// The version it belongs to.
    pub version_id: String,
    /// Kind of the representation.
    pub kind: String,
    /// The text.
    pub text: String,
    /// Digest of the text.
    pub text_sha256: String,
    /// When it was stored.
    pub created_at: String,
}

/// The fault of a retrieval representation.
pub open spec fn representation_fault(kind: Seq<char>, text: Seq<char>) -> Option<Fault> {
    first_of(
        refused_if(
            kind != CONTEXTUAL_CARD_V1@,
            "unsupported retrieval representation kind: "@ + kind,
        ),
        first_of(
            refused_if(is_blank(text), "retrieval representation text must not be blank"@),
            refused_if(
                text.len() > MAX_RETRIEVAL_REPRESENTATION_CHARS,
                "retrieval representation text must not exceed 512 characters"@,
            ),
        ),
    )
}

/// Checks a retrieval representation.
pub fn validate_retrieval_representation(input: &RetrievalRepresentationInput) -> (r: Result<
    (),
    Error,
>)
    ensures
        verdict(r) == representation_fault(input.kind@, input.text@),
{
    if !text_eq(input.kind.as_str(), CONTEXTUAL_CARD_V1) {
        return Err(invalid2("unsupported retrieval representation kind: ", input.kind.as_str()));
    }
    if trim(input.text.as_str()).is_empty() {
        return Err(invalid("retrieval representation text must not be blank"));
    }
    if input.text.as_str().unicode_len() > MAX_RETRIEVAL_REPRESENTATION_CHARS {
        return Err(invalid("retrieval representation text must not exceed 512 characters"));
    }
    Ok(())
}

/// The alternate text for retrieval: the representation, else the summary.
pub open spec fn companion(
    summary: Option<Seq<char>>,
    representation: Option<RetrievalRepresentationInput>,
) -> Option<Seq<char>> {
    match representation {
        Some(input) => Some(input.text@),
        None => summary,
    }
}

/// Selects the one alternate text used by lexical and late-interaction retrieval.
pub fn retrieval_companion<'a>(
    summary: Option<&'a str>,
    representation: &'a Option<RetrievalRepresentationInput>,
) -> (r: Option<&'a str>)
    ensures
        text_of(r) == companion(text_of(summary), *representation),
{
    match representation {
        Some(input) => Some(input.text.as_str()),
        None => summary,
    }
}

/// The alternate text, an empty line and the content; the content alone where
/// there is no alternate text.
pub open spec fn document_text(content: Seq<char>, companion: Option<Seq<char>>) -> Seq<char> {
    match companion {
        Some(text) if text.len() > 0 => text + "\n\n"@ + content,
        _ => content,
    }
}

/// Composes the bounded alternate text with canonical content for token retrieval.
pub fn representation_document(content: &str, companion: Option<&str>) -> (r: String)
    ensures
        r@ == document_text(content@, text_of(companion)),
{
    match companion {
        Some(text) => if text.is_empty() {
            content.to_owned()
        } else {
            concat3(text, "\n\n", content)
        },
        None => content.to_owned(),
    }
}

/// The record that a checked representation of a version makes.
pub fn insert_representation(
    version_id: &str,
    input: &RetrievalRepresentationInput,
    now: &str,
) -> (r: Result<MemoryRepresentationRecord, Error>)
    ensures
        match r {
            Ok(record) => {
                &&& representation_fault(input.kind@, input.text@) is None
                &&& record.version_id@ == version_id@
                &&& record.kind@ == input.kind@
                &&& record.text@ == input.text@
                &&& record.text_sha256@ == text_digest(input.text@)
                &&& record.created_at@ == now@
            },
            Err(e) => representation_fault(input.kind@, input.text@) == Some(e@),
        },
{
    match validate_retrieval_representation(input) {
        Err(e) => {
            return Err(e);
        },
        Ok(_) => {},
    }
    Ok(
        MemoryRepresentationRecord {
            version_id: version_id.to_owned(),
            kind: input.kind.clone(),
            text: input.text.clone(),
            text_sha256: sha256_text(input.text.as_str()),
            created_at: now.to_owned(),
        },
    )
}

/// The content always ends a composed document, and an empty alternate text
/// leaves it alone.
pub proof fn law_document_keeps_content(content: Seq<char>, companion: Option<Seq<char>>)
    ensures
        crate::text::finishes_with(document_text(content, companion), content),
        companion == Some(Seq::<char>::empty()) ==> document_text(content, companion) == content,
{
    let whole = document_text(content, companion);
    assert(whole.subrange(whole.len() - content.len(), whole.len() as int) =~= content);
}

} // verus!
