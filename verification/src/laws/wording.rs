//! What the words of a query become, and what a candidate shows of itself.

use vstd::prelude::*;

use crate::order::{
    ascending, is_sorted_set, lemma_less_total, lemma_less_transitive, lemma_push_contains,
    sorted_set, text_less,
};
use crate::search::{
    candidate_signals, source_tier_of, PreparedSearchRequest, ScoreSignals, SearchCandidate,
    SourceTier,
};
use crate::terms::{
    search_fts_query, search_stopwords, search_term_stems, search_term_variants,
    search_terms, stems, variants_of, without_stopwords, words,
};
use crate::text::{is_space, joined, to_ascii_lower, trim, views};

verus! {

proof fn lemma_inserted(sorted: Seq<Seq<char>>, x: Seq<char>) -> (r: Seq<Seq<char>>)
    requires
        ascending(sorted),
    ensures
        ascending(r),
        forall|t: Seq<char>| #[trigger] r.contains(t) <==> sorted.contains(t) || t == x,
    decreases sorted.len(),
{
    if sorted.len() == 0 {
        let r = seq![x];
        assert(r[0] == x);
        r
    } else {
        let last = sorted.last();
        let rest = sorted.drop_last();
        assert(sorted =~= rest.push(last));
        lemma_less_total(last, x);
        if last == x {
            assert(sorted[sorted.len() - 1] == x);
            sorted
        } else if text_less(last, x) {
            let r = sorted.push(x);
            assert forall|i: int, j: int| 0 <= i < j < r.len() implies text_less(
                #[trigger] r[i],
                #[trigger] r[j],
            ) by {
                if j == sorted.len() && i < sorted.len() - 1 {
                    lemma_less_transitive(r[i], last, x);
                }
            }
            assert forall|t: Seq<char>| #[trigger] r.contains(t) <==> sorted.contains(t) || t
                == x by {
                lemma_push_contains(sorted, x, t);
            }
            r
        } else {
            let before = lemma_inserted(rest, x);
            let r = before.push(last);
            assert forall|i: int, j: int| 0 <= i < j < r.len() implies text_less(
                #[trigger] r[i],
                #[trigger] r[j],
            ) by {
                if j == before.len() {
                    assert(before.contains(before[i]));
                    if rest.contains(before[i]) {
                        let k = choose|k: int| 0 <= k < rest.len() && rest[k] == before[i];
                        assert(text_less(sorted[k], sorted[sorted.len() - 1]));
                    }
                }
            }
            assert forall|t: Seq<char>| #[trigger] r.contains(t) <==> sorted.contains(t) || t
                == x by {
                lemma_push_contains(before, last, t);
                lemma_push_contains(rest, last, t);
            }
            r
        }
    }
}

proof fn lemma_sorted(list: Seq<Seq<char>>)
    ensures
        is_sorted_set(sorted_set(list), list),
{
    let r = lemma_sorted_of(list);
    assert(is_sorted_set(r, list));
}

proof fn lemma_sorted_of(list: Seq<Seq<char>>) -> (r: Seq<Seq<char>>)
    ensures
        is_sorted_set(r, list),
    decreases list.len(),
{
    if list.len() == 0 {
        let r = Seq::<Seq<char>>::empty();
        assert forall|t: Seq<char>| #[trigger] r.contains(t) <==> list.contains(t) by {}
        r
    } else {
        let before = lemma_sorted_of(list.drop_last());
        let r = lemma_inserted(before, list.last());
        assert(list =~= list.drop_last().push(list.last()));
        assert forall|t: Seq<char>| #[trigger] r.contains(t) <==> list.contains(t) by {
            lemma_push_contains(list.drop_last(), list.last(), t);
            assert(before.contains(t) <==> list.drop_last().contains(t));
        }
        r
    }
}

/// Whether a word says nothing by itself; these are some of those words.
pub open spec fn says_nothing(word: Seq<char>) -> bool {
    word == "the"@ || word == "a"@ || word == "an"@ || word == "and"@ || word == "of"@ || word
        == "is"@ || word == "what"@ || word == "who"@ || word == "with"@ || word == "to"@
}

proof fn lemma_says_nothing(word: Seq<char>)
    requires
        says_nothing(word),
    ensures
        search_stopwords().contains(word),
{
    let all = search_stopwords();
    assert(all[0] == "a"@ && all[1] == "an"@ && all[2] == "and"@ && all[28] == "is"@);
    assert(all[31] == "of"@ && all[40] == "the"@ && all[47] == "to"@ && all[50] == "what"@);
    assert(all[52] == "who"@ && all[55] == "with"@);
}

proof fn lemma_without_stopwords(list: Seq<Seq<char>>)
    ensures
        forall|t: Seq<char>| #[trigger]
            without_stopwords(list).contains(t) <==> list.contains(t)
                && !search_stopwords().contains(t),
    decreases list.len(),
{
    if list.len() > 0 {
        let rest = list.drop_last();
        lemma_without_stopwords(rest);
        let before = without_stopwords(rest);
        assert(list =~= rest.push(list.last()));
        assert forall|t: Seq<char>| #[trigger] without_stopwords(list).contains(t)
            <==> list.contains(t) && !search_stopwords().contains(t) by {
            lemma_push_contains(rest, list.last(), t);
            lemma_push_contains(before, list.last(), t);
            assert(before.contains(t) <==> rest.contains(t) && !search_stopwords().contains(t));
        }
    }
}

/// The terms of a query are words of it. A word that says something is among them, and
/// one that says nothing only where no other word says anything.
pub proof fn law_terms_are_the_telling_words(query: &str, terms: Vec<String>, word: Seq<char>)
    requires
        call_ensures(search_terms, (query,), terms),
    ensures
        views(terms@).contains(word) ==> words(query@).contains(word),
        words(query@).contains(word) && !search_stopwords().contains(word) ==> views(
            terms@,
        ).contains(word),
        says_nothing(word) && views(terms@).contains(word) ==> forall|other: Seq<char>|
            #[trigger] words(query@).contains(other) ==> search_stopwords().contains(other),
        words(query@).len() > 0 ==> terms@.len() > 0,
{
    let all = sorted_set(words(query@));
    let list = views(terms@);
    let told = without_stopwords(all);
    assert(list.len() == terms@.len());
    lemma_sorted(words(query@));
    lemma_without_stopwords(all);
    assert(all.contains(word) <==> words(query@).contains(word));
    assert(told.contains(word) <==> all.contains(word) && !search_stopwords().contains(word));
    if told.len() == 0 {
        assert forall|other: Seq<char>| #[trigger] words(query@).contains(
            other,
        ) implies search_stopwords().contains(other) by {
            assert(all.contains(other));
            assert(!told.contains(other));
        }
    }
    if says_nothing(word) {
        lemma_says_nothing(word);
    }
    if words(query@).len() > 0 {
        let first = words(query@)[0];
        assert(words(query@).contains(first));
        assert(all.contains(first));
        let k = choose|k: int| 0 <= k < all.len() && all[k] == first;
        assert(all.len() > 0);
    }
}

/// Texts in order, each once, have the members of the list that they come from.
pub proof fn law_sorted_texts_keep_members(list: Seq<String>)
    ensures
        forall|t: Seq<char>| #[trigger]
            sorted_set(views(list)).contains(t) <==> views(list).contains(t),
        ascending(sorted_set(views(list))),
{
    lemma_sorted(views(list));
}

proof fn lemma_variants(term: Seq<char>, found: Seq<Seq<char>>)
    ensures
        variants_of(term, found).len() > 0,
        variants_of(term, found)[0] == term,
        forall|i: int|
            0 < i < variants_of(term, found).len() ==> (#[trigger] variants_of(term, found)[i]).len()
                >= 4 && found.contains(variants_of(term, found)[i]),
        forall|k: int|
            0 <= k < found.len() && (#[trigger] found[k]).len() >= 4 ==> variants_of(
                term,
                found,
            ).contains(found[k]),
    decreases found.len(),
{
    if found.len() == 0 {
        assert(seq![term][0] == term);
    } else {
        let rest = found.drop_last();
        lemma_variants(term, rest);
        let before = variants_of(term, rest);
        let after = variants_of(term, found);
        assert(found =~= rest.push(found.last()));
        assert forall|i: int| 0 < i < after.len() implies (#[trigger] after[i]).len() >= 4
            && found.contains(after[i]) by {
            lemma_push_contains(rest, found.last(), after[i]);
            if i < before.len() {
                assert(after[i] == before[i]);
            }
        }
        assert forall|k: int| 0 <= k < found.len() && (
        #[trigger] found[k]).len() >= 4 implies after.contains(found[k]) by {
            lemma_push_contains(before, found.last(), found[k]);
            if k < rest.len() {
                assert(rest[k] == found[k]);
                assert(before.contains(found[k]));
            } else if found.last() == term {
                assert(after[0] == term);
            }
        }
    }
}

/// A term is looked for as it is, and also by its stems, where it has at least five
/// characters and they have at least four.
pub proof fn law_terms_are_looked_for_by_stems(
    term: &str,
    variants: Vec<String>,
    found: Vec<String>,
    stem: Seq<char>,
)
    requires
        call_ensures(search_term_variants, (term,), variants),
        call_ensures(search_term_stems, (term,), found),
    ensures
        variants@.len() > 0 && variants@[0]@ == term@,
        term@.len() < 5 ==> variants@.len() == 1,
        crate::terms::prefixable(term@) && term@.len() >= 5 && views(found@).contains(stem)
            && stem.len() >= 4 ==> views(variants@).contains(stem),
{
    let list = views(variants@);
    assert(list.len() == variants@.len());
    lemma_variants(term@, stems(term@));
    assert(list[0] == variants@[0]@);
    if views(found@).contains(stem) {
        let k = choose|k: int| 0 <= k < stems(term@).len() && stems(term@)[k] == stem;
        assert(stems(term@)[k] == stem);
    }
}

/// Where sources may be seen a query is searched everywhere; where they may not, each of
/// its terms only in what is public.
pub proof fn law_queries_are_searched_in_public(
    terms: Vec<String>,
    include_source: bool,
    joiner: &str,
    query: String,
)
    requires
        call_ensures(search_fts_query, (&terms, include_source, joiner), query),
    ensures
        include_source ==> query@ == joined(views(terms@), joiner@),
        !include_source ==> query@ == joined(
            Seq::new(
                terms@.len(),
                |i: int| "{content retrieval_text tags metadata_text} : "@ + terms@[i]@,
            ),
            joiner@,
        ),
{
    let list = views(terms@);
    assert(list.len() == terms@.len());
    assert(list.map_values(|term: Seq<char>| crate::terms::public_columns() + term)
        =~= Seq::new(
        terms@.len(),
        |i: int| "{content retrieval_text tags metadata_text} : "@ + terms@[i]@,
    ));
}

/// A memory that was synthesised counts as harvested, whatever its source says; one that
/// was written by hand or through the protocol counts as explicit.
pub proof fn law_sources_have_tiers(source: Option<String>, tags: Vec<String>, tier: SourceTier)
    requires
        call_ensures(source_tier_of, (&source, &tags), tier),
    ensures
        views(tags@).contains("synthesis-derived"@) ==> tier == SourceTier::Harvested,
        source is Some && source->0@ == "synthesis"@ ==> tier == SourceTier::Harvested,
        source is Some && (source->0@ == "manual"@ || source->0@ == "mcp"@) && !views(
            tags@,
        ).contains("synthesis-derived"@) ==> tier == SourceTier::Explicit,
        source is None && !views(tags@).contains("synthesis-derived"@) ==> tier
            == SourceTier::Unknown,
{
    reveal_strlit("synthesis");
    reveal_strlit("manual");
    reveal_strlit("mcp");
    assert("synthesis"@.len() == 9 && "manual"@.len() == 6 && "mcp"@.len() == 3);
}

/// A candidate shows whether it is active, pinned and durable, and whether its kind, its
/// keys, its scope and one of its tags are among those that are asked for.
pub proof fn law_signals_tell_what_matches(
    c: SearchCandidate,
    p: PreparedSearchRequest,
    s: ScoreSignals,
)
    requires
        p.query_alias_shingles.wf(),
        call_ensures(candidate_signals, (&c, &p), s),
    ensures
        s.active <==> c.status@ == "active"@,
        s.pinned == c.pinned,
        s.durable <==> c.silo@ == "durable"@,
        s.kind <==> p@.filters.kinds.contains(c.kind@),
        s.scope <==> p@.filters.scopes.contains(c.scope@),
        s.entity <==> c.entity_key is Some && p@.filters.entity_keys.contains(c.entity_key->0@),
        s.claim <==> c.claim_key is Some && p@.filters.claim_keys.contains(c.claim_key->0@),
        s.tag <==> exists|i: int|
            0 <= i < c.tags@.len() && p@.filters.tags.contains((#[trigger] c.tags@[i])@),
{
    let tags = views(c.tags@);
    assert(tags.len() == c.tags@.len());
    if s.tag {
        let i = choose|i: int| 0 <= i < tags.len() && p@.filters.tags.contains(#[trigger] tags[i]);
        assert(p@.filters.tags.contains(c.tags@[i]@));
    }
    if exists|i: int| 0 <= i < c.tags@.len() && p@.filters.tags.contains((#[trigger] c.tags@[i])@) {
        let i = choose|i: int|
            0 <= i < c.tags@.len() && p@.filters.tags.contains((#[trigger] c.tags@[i])@);
        assert(p@.filters.tags.contains(tags[i]));
    }
}

proof fn lemma_start(s: Seq<char>) -> (k: int)
    ensures
        0 <= k <= s.len(),
        crate::text::trim_start(s) == s.skip(k),
        forall|i: int| 0 <= i < k ==> is_space(#[trigger] s[i]),
        k < s.len() ==> !is_space(s[k]),
    decreases s.len(),
{
    if s.len() > 0 && is_space(s.first()) {
        let rest = s.drop_first();
        let k = lemma_start(rest);
        assert(s.skip(k + 1) =~= rest.skip(k));
        assert forall|i: int| 0 <= i < k + 1 implies is_space(#[trigger] s[i]) by {
            if i > 0 {
                assert(rest[i - 1] == s[i]);
            }
        }
        k + 1
    } else {
        assert(s.skip(0) =~= s);
        0
    }
}

proof fn lemma_end(s: Seq<char>) -> (k: int)
    ensures
        0 <= k <= s.len(),
        crate::text::trim_end(s) == s.take(k),
        forall|i: int| k <= i < s.len() ==> is_space(#[trigger] s[i]),
        k > 0 ==> !is_space(s[k - 1]),
    decreases s.len(),
{
    if s.len() > 0 && is_space(s.last()) {
        let rest = s.drop_last();
        let k = lemma_end(rest);
        assert(s.take(k) =~= rest.take(k));
        assert forall|i: int| k <= i < s.len() implies is_space(#[trigger] s[i]) by {
            if i < rest.len() {
                assert(rest[i] == s[i]);
            }
        }
        k
    } else {
        assert(s.take(s.len() as int) =~= s);
        s.len() as int
    }
}

/// Trimming takes whitespace away at both ends, all of it and nothing else: blanks, tabs
/// and ends of lines are whitespace, and letters, digits and signs are not.
pub proof fn law_trimming_takes_whitespace_only(text: &str, core: &str) -> (ends: (int, int))
    requires
        call_ensures(trim, (text,), core),
    ensures
        0 <= ends.0 <= ends.1 <= text@.len(),
        core@ == text@.subrange(ends.0, ends.1),
        forall|i: int| 0 <= i < ends.0 || ends.1 <= i < text@.len() ==> is_space(
            #[trigger] text@[i],
        ),
        core@.len() > 0 ==> !is_space(core@[0]) && !is_space(core@.last()),
        is_space(' ') && is_space('\t') && is_space('\n') && is_space('\r'),
        forall|c: char| '!' <= c <= '~' ==> !(#[trigger] is_space(c)),
{
    let s = text@;
    let a = lemma_start(s);
    let rest = s.skip(a);
    let n = lemma_end(rest);
    assert(core@ =~= s.subrange(a, a + n));
    assert forall|i: int| 0 <= i < a || a + n <= i < s.len() implies is_space(
        #[trigger] s[i],
    ) by {
        if i >= a {
            assert(rest[i - a] == s[i]);
        }
    }
    if n > 0 {
        assert(rest[0] == s[a]);
        assert(core@.last() == rest[n - 1]);
    }
    (a, a + n)
}

/// Lower-casing keeps the length, takes each capital letter to the small one, and keeps
/// every other character.
pub proof fn law_lower_case_keeps_other_characters(text: &str, lowered: String)
    requires
        call_ensures(to_ascii_lower, (text,), lowered),
    ensures
        lowered@.len() == text@.len(),
        forall|i: int|
            0 <= i < text@.len() ==> if 'A' <= text@[i] <= 'Z' {
                #[trigger] lowered@[i] as u32 == text@[i] as u32 + 32
            } else {
                lowered@[i] == text@[i]
            },
{
}

} // verus!
