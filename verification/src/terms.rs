//! Search terms: words of a query, their stems and the full-text expressions
//! made of them.

use vstd::prelude::*;

use crate::error::{concat, concat3};
use crate::order::{sort_unique, sorted_set, TextSet};
use crate::pool::clone_texts;
use crate::text::{
    chars_of, finishes_with, is_blank, join, joined, list_contains, lower_char, strip_suffix, text_eq,
    to_lower_char, trim, views,
};
use crate::vocabulary::{MAX_REMEMBER_LEXICAL_TERMS, MAX_SEARCH_TERMS};

verus! {

/// Whether a character is a letter or a number in the sense of Unicode.
pub uninterp spec fn char_is_alphanumeric(c: char) -> bool;

/// `char::is_alphanumeric`: the Unicode derived property of letters and numbers.
#[verifier::external_body]
pub(crate) fn is_alphanumeric(c: char) -> (r: bool)
    ensures
        r == char_is_alphanumeric(c),
{
    c.is_alphanumeric()
}

/// Whether a character can be part of a word.
pub open spec fn word_char(c: char) -> bool {
    char_is_alphanumeric(c) || c == '_'
}

/// The finished words of a text and the word at its end, in ASCII lower case.
pub open spec fn split_words(s: Seq<char>) -> (Seq<Seq<char>>, Seq<char>)
    decreases s.len(),
{
    if s.len() == 0 {
        (Seq::empty(), Seq::empty())
    } else {
        let before = split_words(s.drop_last());
        if word_char(s.last()) {
            (before.0, before.1.push(lower_char(s.last())))
        } else if before.1.len() > 0 {
            (before.0.push(before.1), Seq::empty())
        } else {
            before
        }
    }
}

/// The words of a text in order, in ASCII lower case.
pub open spec fn words(s: Seq<char>) -> Seq<Seq<char>> {
    let parts = split_words(s);
    if parts.1.len() > 0 {
        parts.0.push(parts.1)
    } else {
        parts.0
    }
}

/// The words of a query in order: maximal runs of letters, numbers and
/// underscores, in ASCII lower case.
pub fn query_alias_words(query: &str) -> (r: Vec<String>)
    ensures
        views(r@) == words(query@),
{
    let chars = chars_of(query);
    let mut done: Vec<String> = Vec::new();
    let mut current = String::new();
    assert(views(done@) =~= Seq::empty());
    for i in 0..chars.len()
        invariant
            chars@ == query@,
            (views(done@), current@) == split_words(query@.take(i as int)),
    {
        let c = chars[i];
        proof {
            let next = query@.take(i + 1);
            assert(next.drop_last() =~= query@.take(i as int));
            assert(next.last() == c);
        }
        if is_alphanumeric(c) || c == '_' {
            current.push(to_lower_char(c));
        } else if !current.as_str().is_empty() {
            let ghost before = done@;
            done.push(current);
            assert(views(done@) =~= views(before).push(current@));
            current = String::new();
        }
    }
    assert(query@.take(query@.len() as int) =~= query@);
    if !current.as_str().is_empty() {
        let ghost before = done@;
        done.push(current);
        assert(views(done@) =~= views(before).push(current@));
    }
    done
}

/// Words that a search leaves out where others remain.
pub open spec fn search_stopwords() -> Seq<Seq<char>> {
    seq![
        "a"@, "an"@, "and"@, "are"@, "as"@, "at"@, "be"@, "been"@, "but"@, "by"@, "can"@, "could"@,
        "did"@, "do"@, "does"@, "for"@, "from"@, "had"@, "has"@, "have"@, "he"@, "her"@, "hers"@,
        "him"@, "his"@, "how"@, "i"@, "in"@, "is"@, "it"@, "its"@, "of"@, "on"@, "or"@, "our"@,
        "s"@, "she"@, "should"@, "t"@, "that"@, "the"@, "their"@, "them"@, "then"@, "there"@,
        "they"@, "this"@, "to"@, "was"@, "were"@, "what"@, "which"@, "who"@, "why"@, "will"@,
        "with"@, "would"@, "you"@, "your"@,
    ]
}

/// Whether a slice of literals holds the text.
pub fn one_of(list: &[&'static str], value: &str) -> (r: bool)
    ensures
        r == exists|i: int| 0 <= i < list@.len() && (#[trigger] list@[i])@ == value@,
{
    for i in 0..list.len()
        invariant
            forall|j: int| 0 <= j < i ==> (#[trigger] list@[j])@ != value@,
    {
        if text_eq(list[i], value) {
            return true;
        }
    }
    false
}

/// Whether a word is left out of a search where others remain.
pub fn is_search_stopword(term: &str) -> (r: bool)
    ensures
        r == search_stopwords().contains(term@),
{
    let list: [&'static str; 59] = [
        "a", "an", "and", "are", "as", "at", "be", "been", "but", "by", "can", "could", "did", "do",
        "does", "for", "from", "had", "has", "have", "he", "her", "hers", "him", "his", "how", "i",
        "in", "is", "it", "its", "of", "on", "or", "our", "s", "she", "should", "t", "that", "the",
        "their", "them", "then", "there", "they", "this", "to", "was", "were", "what", "which",
        "who", "why", "will", "with", "would", "you", "your",
    ];
    let r: bool = one_of(list.as_slice(), term);
    proof {
        let wanted = search_stopwords();
        assert forall|i: int| 0 <= i < 59 implies (#[trigger] list@[i])@ == wanted[i] by {}
        if r {
            let i = choose|i: int| 0 <= i < list@.len() && (#[trigger] list@[i])@ == term@;
            assert(wanted[i] == term@);
        }
        if wanted.contains(term@) {
            let i = choose|i: int| 0 <= i < wanted.len() && wanted[i] == term@;
            assert(list@[i]@ == term@);
        }
    }
    r
}

/// The members of a list that are no stopwords, in order.
pub open spec fn without_stopwords(list: Seq<Seq<char>>) -> Seq<Seq<char>>
    decreases list.len(),
{
    if list.len() == 0 {
        list
    } else {
        let before = without_stopwords(list.drop_last());
        if search_stopwords().contains(list.last()) {
            before
        } else {
            before.push(list.last())
        }
    }
}

/// The terms that a query is searched by: its words in ascending order, without
/// the stopwords unless nothing else is there.
pub open spec fn query_terms(query: Seq<char>) -> Seq<Seq<char>> {
    let all = sorted_set(words(query));
    let filtered = without_stopwords(all);
    if filtered.len() == 0 {
        all
    } else {
        filtered
    }
}

/// The search terms of a query.
pub fn search_terms(query: &str) -> (r: Vec<String>)
    ensures
        views(r@) == query_terms(query@),
{
    let list = query_alias_words(query);
    let terms = sort_unique(list.as_slice());
    let mut filtered: Vec<String> = Vec::new();
    let ghost all = views(terms@);
    assert(views(filtered@) =~= without_stopwords(all.take(0)));
    for i in 0..terms.len()
        invariant
            all == views(terms@),
            views(filtered@) == without_stopwords(all.take(i as int)),
    {
        proof {
            let next = all.take(i + 1);
            assert(next.drop_last() =~= all.take(i as int));
            assert(next.last() == terms@[i as int]@);
        }
        if !is_search_stopword(terms[i].as_str()) {
            let ghost before = filtered@;
            filtered.push(terms[i].clone());
            assert(views(filtered@) =~= views(before).push(terms@[i as int]@));
        }
    }
    assert(all.take(terms@.len() as int) =~= all);
    if filtered.len() == 0 {
        terms
    } else {
        filtered
    }
}

/// Whether every character can be part of a word.
pub open spec fn all_word_chars(s: Seq<char>) -> bool {
    forall|i: int| 0 <= i < s.len() ==> word_char(#[trigger] s[i])
}

/// Whether a term may be searched by its beginning.
pub open spec fn prefixable(term: Seq<char>) -> bool {
    term.len() >= 4 && all_word_chars(term)
}

/// Whether a term may be searched by its beginning.
pub fn is_prefixable_search_term(term: &str) -> (r: bool)
    ensures
        r == prefixable(term@),
{
    let chars = chars_of(term);
    if chars.len() < 4 {
        return false;
    }
    for i in 0..chars.len()
        invariant
            chars@ == term@,
            forall|j: int| 0 <= j < i ==> word_char(#[trigger] term@[j]),
    {
        if !(is_alphanumeric(chars[i]) || chars[i] == '_') {
            assert(!word_char(term@[i as int]));
            return false;
        }
    }
    true
}

/// A text without its last character where that character is doubled.
pub open spec fn undoubled(s: Seq<char>) -> Seq<char> {
    if s.len() >= 2 && s[s.len() - 1] == s[s.len() - 2] {
        s.drop_last()
    } else {
        s
    }
}

/// Drops the last character of a text where it is doubled.
pub fn trim_doubled_suffix(value: &str) -> (r: String)
    ensures
        r@ == undoubled(value@),
{
    let chars = chars_of(value);
    let n: usize = chars.len();
    if n >= 2 && chars[n - 1] == chars[n - 2] {
        let s = value.substring_char(0, n - 1);
        assert(value@.subrange(0, n - 1) =~= value@.drop_last());
        s.to_owned()
    } else {
        value.to_owned()
    }
}

/// A text without the `s` characters at its end.
pub open spec fn without_final_s(s: Seq<char>) -> Seq<char>
    decreases s.len(),
{
    if s.len() > 0 && s.last() == 's' {
        without_final_s(s.drop_last())
    } else {
        s
    }
}

/// Drops the `s` characters at the end of a text.
fn trim_final_s(value: &str) -> (r: String)
    ensures
        r@ == without_final_s(value@),
{
    let chars = chars_of(value);
    let mut n: usize = chars.len();
    assert(value@.take(n as int) =~= value@);
    while n > 0 && chars[n - 1] == 's'
        invariant
            chars@ == value@,
            n <= chars.len(),
            without_final_s(value@) == without_final_s(value@.take(n as int)),
        decreases n,
    {
        assert(value@.take(n as int).drop_last() =~= value@.take(n - 1));
        n = n - 1;
    }
    let s = value.substring_char(0, n);
    assert(value@.subrange(0, n as int) =~= value@.take(n as int));
    s.to_owned()
}

/// What stands before a suffix.
pub open spec fn before_suffix(term: Seq<char>, suffix: Seq<char>) -> Seq<char> {
    term.take(term.len() - suffix.len())
}

/// The stem after a `y` ending: `ies` and `ied` become `y`.
pub open spec fn y_stem(term: Seq<char>, suffix: Seq<char>) -> Seq<Seq<char>> {
    if finishes_with(term, suffix) && term.len() > suffix.len() {
        seq![before_suffix(term, suffix).push('y')]
    } else {
        Seq::empty()
    }
}

/// The stem before a verbal ending, a doubled consonant undone.
pub open spec fn verb_stem(term: Seq<char>, suffix: Seq<char>) -> Seq<Seq<char>> {
    if finishes_with(term, suffix) && term.len() >= suffix.len() + 4 {
        seq![undoubled(before_suffix(term, suffix))]
    } else {
        Seq::empty()
    }
}

/// The stem before `es`.
pub open spec fn es_stem(term: Seq<char>) -> Seq<Seq<char>> {
    if finishes_with(term, "es"@) && term.len() >= 6 {
        seq![before_suffix(term, "es"@)]
    } else {
        Seq::empty()
    }
}

/// The stem before a plural `s`.
pub open spec fn s_stem(term: Seq<char>) -> Seq<Seq<char>> {
    if finishes_with(term, "s"@) && !finishes_with(term, "ss"@) && without_final_s(term).len() >= 4 {
        seq![without_final_s(term)]
    } else {
        Seq::empty()
    }
}

/// The stem before the `e` of `ate`, `ize` and `ise`.
pub open spec fn e_stem(term: Seq<char>) -> Seq<Seq<char>> {
    if (finishes_with(term, "ate"@) || finishes_with(term, "ize"@) || finishes_with(term, "ise"@))
        && term.len() >= 5 {
        seq![term.drop_last()]
    } else {
        Seq::empty()
    }
}

/// All stems of a term.
pub open spec fn stems(term: Seq<char>) -> Seq<Seq<char>> {
    y_stem(term, "ies"@) + y_stem(term, "ied"@) + verb_stem(term, "ing"@) + verb_stem(term, "ed"@)
        + es_stem(term) + s_stem(term) + e_stem(term)
}

/// Appends a stem to a list.
fn push_stem(list: &mut Vec<String>, stem: String)
    ensures
        views(final(list)@) == views(old(list)@) + seq![stem@],
{
    let ghost before = list@;
    list.push(stem);
    assert(views(list@) =~= views(before) + seq![stem@]);
}

/// The stem after a `y` ending, appended to a list.
fn push_y_stem(list: &mut Vec<String>, term: &str, suffix: &str)
    ensures
        views(final(list)@) == views(old(list)@) + y_stem(term@, suffix@),
{
    assert(views(list@) + Seq::<Seq<char>>::empty() =~= views(list@));
    match strip_suffix(term, suffix) {
        Some(stem) => {
            if !stem.is_empty() {
                let mut owned = stem.to_owned();
                owned.push('y');
                push_stem(list, owned);
            }
        },
        None => {},
    }
}

/// The stem before a verbal ending, appended to a list.
fn push_verb_stem(list: &mut Vec<String>, term: &str, suffix: &str)
    ensures
        views(final(list)@) == views(old(list)@) + verb_stem(term@, suffix@),
{
    assert(views(list@) + Seq::<Seq<char>>::empty() =~= views(list@));
    match strip_suffix(term, suffix) {
        Some(stem) => {
            if stem.unicode_len() >= 4 {
                push_stem(list, trim_doubled_suffix(stem));
            }
        },
        None => {},
    }
}

/// The stems of a term: its forms without common English endings.
pub fn search_term_stems(term: &str) -> (r: Vec<String>)
    ensures
        views(r@) == stems(term@),
{
    proof {
        reveal_strlit("es");
        reveal_strlit("s");
        reveal_strlit("ate");
        reveal_strlit("ize");
        reveal_strlit("ise");
    }
    let mut list: Vec<String> = Vec::new();
    assert(views(list@) + y_stem(term@, "ies"@) =~= y_stem(term@, "ies"@));
    push_y_stem(&mut list, term, "ies");
    push_y_stem(&mut list, term, "ied");
    push_verb_stem(&mut list, term, "ing");
    push_verb_stem(&mut list, term, "ed");
    let ghost four = views(list@);
    assert(four + Seq::<Seq<char>>::empty() =~= four);
    match strip_suffix(term, "es") {
        Some(stem) => {
            if stem.unicode_len() >= 4 {
                push_stem(&mut list, stem.to_owned());
            }
        },
        None => {},
    }
    let ghost five = views(list@);
    assert(five == four + es_stem(term@));
    assert(five + Seq::<Seq<char>>::empty() =~= five);
    let plural: bool = match strip_suffix(term, "s") {
        Some(_) => match strip_suffix(term, "ss") {
            Some(_) => false,
            None => true,
        },
        None => false,
    };
    if plural {
        let stem = trim_final_s(term);
        if stem.as_str().unicode_len() >= 4 {
            push_stem(&mut list, stem);
        }
    }
    let ghost six = views(list@);
    assert(six == five + s_stem(term@));
    assert(six + Seq::<Seq<char>>::empty() =~= six);
    let silent: bool = strip_suffix(term, "ate").is_some() || strip_suffix(term, "ize").is_some()
        || strip_suffix(term, "ise").is_some();
    if silent {
        let n: usize = term.unicode_len();
        if n >= 5 {
            assert(term@.subrange(0, n - 1) =~= term@.drop_last());
            push_stem(&mut list, term.substring_char(0, n - 1).to_owned());
        }
    }
    list
}

/// A list with one more member, unless it holds it already.
pub open spec fn with_unique(list: Seq<Seq<char>>, value: Seq<char>) -> Seq<Seq<char>> {
    if list.contains(value) {
        list
    } else {
        list.push(value)
    }
}

/// Appends a text unless the list holds it already.
pub fn push_unique(values: &mut Vec<String>, value: String)
    ensures
        views(final(values)@) == with_unique(views(old(values)@), value@),
{
    let ghost before = values@;
    if !list_contains(values.as_slice(), value.as_str()) {
        values.push(value);
        assert(views(values@) =~= views(before).push(value@));
    }
}

/// The term and those of `found` that are long enough and differ from it.
pub open spec fn variants_of(term: Seq<char>, found: Seq<Seq<char>>) -> Seq<Seq<char>>
    decreases found.len(),
{
    if found.len() == 0 {
        seq![term]
    } else {
        let before = variants_of(term, found.drop_last());
        if found.last().len() >= 4 && found.last() != term {
            with_unique(before, found.last())
        } else {
            before
        }
    }
}

/// The forms by which a term is searched.
pub open spec fn term_variants(term: Seq<char>) -> Seq<Seq<char>> {
    if term.len() < 5 || !prefixable(term) {
        seq![term]
    } else {
        variants_of(term, stems(term))
    }
}

/// The forms by which a term is searched: the term, and its stems of four
/// characters or more where the term is long enough.
pub fn search_term_variants(term: &str) -> (r: Vec<String>)
    ensures
        views(r@) == term_variants(term@),
{
    let mut variants: Vec<String> = Vec::new();
    variants.push(term.to_owned());
    assert(views(variants@) =~= seq![term@]);
    if term.unicode_len() < 5 || !is_prefixable_search_term(term) {
        return variants;
    }
    let found = search_term_stems(term);
    let ghost models = views(found@);
    for i in 0..found.len()
        invariant
            models == views(found@),
            views(variants@) == variants_of(term@, models.take(i as int)),
    {
        proof {
            let next = models.take(i + 1);
            assert(next.drop_last() =~= models.take(i as int));
            assert(next.last() == found@[i as int]@);
        }
        if found[i].as_str().unicode_len() >= 4 && !text_eq(found[i].as_str(), term) {
            push_unique(&mut variants, found[i].clone());
        }
    }
    assert(models.take(found@.len() as int) =~= models);
    variants
}

/// Variants as one full-text expression.
pub open spec fn expression(variants: Seq<Seq<char>>) -> Seq<char> {
    if variants.len() == 1 {
        variants[0]
    } else {
        "("@ + joined(variants, " OR "@) + ")"@
    }
}

/// Writes variants as one full-text expression.
pub fn search_term_expression(variants: &Vec<String>) -> (r: String)
    ensures
        r@ == expression(views(variants@)),
{
    if variants.len() == 1 {
        variants[0].clone()
    } else {
        let list = join(variants.as_slice(), " OR ");
        concat3("(", list.as_str(), ")")
    }
}

/// The expression of each term.
pub open spec fn variant_terms(terms: Seq<Seq<char>>) -> Seq<Seq<char>> {
    terms.map_values(|term: Seq<char>| expression(term_variants(term)))
}

/// The full-text expression of each term.
pub fn search_variant_terms(terms: &Vec<String>) -> (r: Vec<String>)
    ensures
        views(r@) == variant_terms(views(terms@)),
{
    let mut out: Vec<String> = Vec::new();
    let ghost wanted = variant_terms(views(terms@));
    for i in 0..terms.len()
        invariant
            wanted == variant_terms(views(terms@)),
            views(out@) == wanted.take(i as int),
    {
        let variants = search_term_variants(terms[i].as_str());
        let ghost before = out@;
        out.push(search_term_expression(&variants));
        assert(views(out@) =~= views(before).push(wanted[i as int]));
        assert(wanted.take(i + 1) =~= wanted.take(i as int).push(wanted[i as int]));
    }
    assert(wanted.take(terms@.len() as int) =~= wanted);
    out
}

/// `variants` and the beginnings of those among `all` that may be searched so.
pub open spec fn with_prefixes(all: Seq<Seq<char>>, variants: Seq<Seq<char>>) -> Seq<Seq<char>>
    decreases all.len(),
{
    if all.len() == 0 {
        variants
    } else {
        let before = with_prefixes(all.drop_last(), variants);
        if prefixable(all.last()) {
            with_unique(before, all.last() + "*"@)
        } else {
            before
        }
    }
}

/// The variants of a term and their beginnings.
pub open spec fn prefix_variants(term: Seq<char>) -> Seq<Seq<char>> {
    with_prefixes(term_variants(term), term_variants(term))
}

/// Whether one of the texts may be searched by its beginning.
pub open spec fn any_prefixable(list: Seq<Seq<char>>) -> bool {
    exists|i: int| 0 <= i < list.len() && prefixable(#[trigger] list[i])
}

/// The prefix expressions of all terms; nothing where no term allows one.
pub open spec fn prefix_terms(terms: Seq<Seq<char>>) -> Seq<Seq<char>> {
    if exists|i: int| 0 <= i < terms.len() && any_prefixable(term_variants(#[trigger] terms[i])) {
        terms.map_values(|term: Seq<char>| expression(prefix_variants(term)))
    } else {
        Seq::empty()
    }
}

/// The variants of a term and their beginnings, and whether there is any.
fn prefixed_variants(term: &str) -> (r: (Vec<String>, bool))
    ensures
        views(r.0@) == prefix_variants(term@),
        r.1 == any_prefixable(term_variants(term@)),
{
    let all = search_term_variants(term);
    let mut variants = clone_texts(&all);
    let ghost models = views(all@);
    let mut found: bool = false;
    for i in 0..all.len()
        invariant
            models == views(all@),
            views(variants@) == with_prefixes(models.take(i as int), models),
            found == any_prefixable(models.take(i as int)),
    {
        proof {
            let next = models.take(i + 1);
            assert(next.drop_last() =~= models.take(i as int));
            assert(next.last() == all@[i as int]@);
            let now = models.take(i as int);
            if any_prefixable(now) {
                let k = choose|k: int| 0 <= k < now.len() && prefixable(#[trigger] now[k]);
                assert(next[k] == now[k]);
            }
            if prefixable(all@[i as int]@) {
                assert(prefixable(next[i as int]));
            } else if any_prefixable(next) {
                let k = choose|k: int| 0 <= k < next.len() && prefixable(#[trigger] next[k]);
                assert(now[k] == next[k]);
            }
        }
        if is_prefixable_search_term(all[i].as_str()) {
            found = true;
            push_unique(&mut variants, concat(all[i].as_str(), "*"));
        }
    }
    assert(models.take(all@.len() as int) =~= models);
    (variants, found)
}

/// The prefix expressions of all terms; nothing where no term allows one.
pub fn search_prefix_terms(terms: &Vec<String>) -> (r: Vec<String>)
    ensures
        views(r@) == prefix_terms(views(terms@)),
{
    let mut out: Vec<String> = Vec::new();
    let mut has_prefix: bool = false;
    let ghost models = views(terms@);
    let ghost wanted = models.map_values(|term: Seq<char>| expression(prefix_variants(term)));
    for i in 0..terms.len()
        invariant
            models == views(terms@),
            wanted == models.map_values(|term: Seq<char>| expression(prefix_variants(term))),
            views(out@) == wanted.take(i as int),
            has_prefix == exists|k: int|
                0 <= k < i && any_prefixable(term_variants(#[trigger] models[k])),
    {
        let pair = prefixed_variants(terms[i].as_str());
        assert(models[i as int] == terms@[i as int]@);
        if pair.1 {
            has_prefix = true;
        }
        let ghost before = out@;
        out.push(search_term_expression(&pair.0));
        assert(views(out@) =~= views(before).push(wanted[i as int]));
        assert(wanted.take(i + 1) =~= wanted.take(i as int).push(wanted[i as int]));
    }
    assert(wanted.take(terms@.len() as int) =~= wanted);
    if has_prefix {
        out
    } else {
        let none: Vec<String> = Vec::new();
        assert(views(none@) =~= Seq::empty());
        none
    }
}

/// The column filter of a search that leaves source references out.
pub open spec fn public_columns() -> Seq<char> {
    "{content retrieval_text tags metadata_text} : "@
}

/// A full-text query over the terms.
pub open spec fn fts_query(terms: Seq<Seq<char>>, include_source: bool, joiner: Seq<char>) -> Seq<
    char,
> {
    if include_source {
        joined(terms, joiner)
    } else {
        joined(terms.map_values(|term: Seq<char>| public_columns() + term), joiner)
    }
}

/// Writes a full-text query over the terms.
pub fn search_fts_query(terms: &Vec<String>, include_source: bool, joiner: &str) -> (r: String)
    ensures
        r@ == fts_query(views(terms@), include_source, joiner@),
{
    if include_source {
        return join(terms.as_slice(), joiner);
    }
    let mut parts: Vec<String> = Vec::new();
    let ghost wanted = views(terms@).map_values(|term: Seq<char>| public_columns() + term);
    for i in 0..terms.len()
        invariant
            wanted == views(terms@).map_values(|term: Seq<char>| public_columns() + term),
            views(parts@) == wanted.take(i as int),
    {
        let ghost before = parts@;
        parts.push(
            concat("{content retrieval_text tags metadata_text} : ", terms[i].as_str()),
        );
        assert(views(parts@) =~= views(before).push(wanted[i as int]));
        assert(wanted.take(i + 1) =~= wanted.take(i as int).push(wanted[i as int]));
    }
    assert(wanted.take(terms@.len() as int) =~= wanted);
    join(parts.as_slice(), joiner)
}

/// The longest multi-word alias that is looked for, in words.
pub const MAX_ALIAS_SHINGLE_WORDS: usize = 3;

/// Words `start` up to `end` with one space between them.
pub open spec fn span_text(list: Seq<Seq<char>>, start: int, end: int) -> Seq<char> {
    joined(list.subrange(start, end), " "@)
}

/// Joins words `start` up to `end` with one space between them.
pub fn join_span(list: &Vec<String>, start: usize, end: usize) -> (r: String)
    requires
        start <= end <= list@.len(),
    ensures
        r@ == span_text(views(list@), start as int, end as int),
{
    let part = vstd::slice::slice_subrange(list.as_slice(), start, end);
    assert(views(part@) =~= views(list@).subrange(start as int, end as int));
    join(part, " ")
}

/// Whether a text is made of one to three neighbouring words of the list, the
/// first of them before `starts` or, at `starts`, with fewer than `spans` words.
pub open spec fn is_shingle_before(
    list: Seq<Seq<char>>,
    text: Seq<char>,
    starts: int,
    spans: int,
) -> bool {
    exists|start: int, span: int|
        0 <= start && 1 <= span <= MAX_ALIAS_SHINGLE_WORDS && start + span <= list.len() && (start
            < starts || (start == starts && span < spans)) && text == #[trigger] span_text(
            list,
            start,
            start + span,
        )
}

/// Whether a text is made of one to three neighbouring words of the list.
pub open spec fn is_shingle(list: Seq<Seq<char>>, text: Seq<char>) -> bool {
    is_shingle_before(list, text, list.len() as int, 1)
}

/// The set of all runs of one to three neighbouring words of a query.
pub fn query_alias_shingles(query: &str) -> (r: TextSet)
    ensures
        r.wf(),
        forall|t: Seq<char>| #[trigger] r@.contains(t) <==> is_shingle(words(query@), t),
{
    let list = query_alias_words(query);
    let ghost models = words(query@);
    let mut set = TextSet::new();
    let mut start: usize = 0;
    while start < list.len()
        invariant
            models == views(list@),
            start <= list.len(),
            set.wf(),
            forall|t: Seq<char>| #[trigger]
                set@.contains(t) <==> is_shingle_before(models, t, start as int, 1),
        decreases list.len() - start,
    {
        let mut span: usize = 1;
        while span <= MAX_ALIAS_SHINGLE_WORDS
            invariant
                models == views(list@),
                start < list.len(),
                1 <= span <= MAX_ALIAS_SHINGLE_WORDS + 1,
                set.wf(),
                forall|t: Seq<char>| #[trigger]
                    set@.contains(t) <==> is_shingle_before(models, t, start as int, span as int),
            decreases MAX_ALIAS_SHINGLE_WORDS + 1 - span,
        {
            let ghost before = set@;
            if span <= list.len() - start {
                let text = join_span(&list, start, start + span);
                let ghost added = text@;
                set.insert(text);
                proof {
                    assert forall|t: Seq<char>| #[trigger]
                        set@.contains(t) <==> is_shingle_before(
                        models,
                        t,
                        start as int,
                        span + 1,
                    ) by {
                        assert(before.contains(t) <==> is_shingle_before(
                            models,
                            t,
                            start as int,
                            span as int,
                        ));
                        assert(added == span_text(models, start as int, start + span));
                        lemma_shingle_step(models, t, start as int, span as int);
                    }
                }
            } else {
                proof {
                    assert forall|t: Seq<char>| #[trigger]
                        set@.contains(t) <==> is_shingle_before(
                        models,
                        t,
                        start as int,
                        span + 1,
                    ) by {
                        lemma_shingle_step(models, t, start as int, span as int);
                    }
                }
            }
            span = span + 1;
        }
        proof {
            assert forall|t: Seq<char>| #[trigger]
                set@.contains(t) <==> is_shingle_before(models, t, start + 1, 1) by {
                lemma_shingle_row(models, t, start as int);
            }
        }
        start = start + 1;
    }
    set
}

proof fn lemma_shingle_step(list: Seq<Seq<char>>, t: Seq<char>, start: int, span: int)
    requires
        0 <= start < list.len(),
        1 <= span <= MAX_ALIAS_SHINGLE_WORDS,
    ensures
        is_shingle_before(list, t, start, span + 1) <==> is_shingle_before(list, t, start, span)
            || (start + span <= list.len() && t == span_text(list, start, start + span)),
{
    if is_shingle_before(list, t, start, span + 1) {
        let (a, b) = choose|a: int, b: int|
            0 <= a && 1 <= b <= MAX_ALIAS_SHINGLE_WORDS && a + b <= list.len() && (a < start || (a
                == start && b < span + 1)) && t == #[trigger] span_text(list, a, a + b);
        if !(a == start && b == span) {
            assert(t == span_text(list, a, a + b));
            assert(is_shingle_before(list, t, start, span));
        }
    }
    if is_shingle_before(list, t, start, span) {
        let (a, b) = choose|a: int, b: int|
            0 <= a && 1 <= b <= MAX_ALIAS_SHINGLE_WORDS && a + b <= list.len() && (a < start || (a
                == start && b < span)) && t == #[trigger] span_text(list, a, a + b);
        assert(t == span_text(list, a, a + b));
    }
}

proof fn lemma_shingle_row(list: Seq<Seq<char>>, t: Seq<char>, start: int)
    requires
        0 <= start < list.len(),
    ensures
        is_shingle_before(list, t, start + 1, 1) <==> is_shingle_before(
            list,
            t,
            start,
            MAX_ALIAS_SHINGLE_WORDS + 1,
        ),
{
    if is_shingle_before(list, t, start + 1, 1) {
        let (a, b) = choose|a: int, b: int|
            0 <= a && 1 <= b <= MAX_ALIAS_SHINGLE_WORDS && a + b <= list.len() && (a < start + 1
                || (a == start + 1 && b < 1)) && t == #[trigger] span_text(list, a, a + b);
        assert(t == span_text(list, a, a + b));
    }
    if is_shingle_before(list, t, start, MAX_ALIAS_SHINGLE_WORDS + 1) {
        let (a, b) = choose|a: int, b: int|
            0 <= a && 1 <= b <= MAX_ALIAS_SHINGLE_WORDS && a + b <= list.len() && (a < start || (a
                == start && b < MAX_ALIAS_SHINGLE_WORDS + 1)) && t == #[trigger] span_text(
                list,
                a,
                a + b,
            );
        assert(t == span_text(list, a, a + b));
    }
}

/// The first `max` members of a list that have at least `min` characters.
pub open spec fn long_members(list: Seq<Seq<char>>, min: nat, max: nat) -> Seq<Seq<char>>
    decreases list.len(),
{
    if list.len() == 0 {
        list
    } else {
        let before = long_members(list.drop_last(), min, max);
        if list.last().len() >= min && before.len() < max {
            before.push(list.last())
        } else {
            before
        }
    }
}

/// A bounded list is bounded.
pub proof fn lemma_long_members_bound(list: Seq<Seq<char>>, min: nat, max: nat)
    ensures
        long_members(list, min, max).len() <= max,
    decreases list.len(),
{
    if list.len() > 0 {
        lemma_long_members_bound(list.drop_last(), min, max);
    }
}

/// The first `max` members of a list that have at least `min` characters.
fn take_long(list: &Vec<String>, min: usize, max: usize) -> (r: Vec<String>)
    ensures
        views(r@) == long_members(views(list@), min as nat, max as nat),
{
    let mut out: Vec<String> = Vec::new();
    let ghost models = views(list@);
    assert(views(out@) =~= long_members(models.take(0), min as nat, max as nat));
    for i in 0..list.len()
        invariant
            models == views(list@),
            views(out@) == long_members(models.take(i as int), min as nat, max as nat),
    {
        proof {
            let next = models.take(i + 1);
            assert(next.drop_last() =~= models.take(i as int));
            assert(next.last() == list@[i as int]@);
        }
        if list[i].as_str().unicode_len() >= min && out.len() < max {
            let ghost before = out@;
            out.push(list[i].clone());
            assert(views(out@) =~= views(before).push(list@[i as int]@));
        }
    }
    assert(models.take(list@.len() as int) =~= models);
    out
}

/// The terms by which two contents are compared, in ascending order.
pub open spec fn comparison_terms(value: Seq<char>) -> Seq<Seq<char>> {
    long_members(query_terms(value), 3, (MAX_SEARCH_TERMS * 2) as nat)
}

/// The terms by which two contents are compared: the first search terms of
/// three characters or more.
pub fn lexical_terms(value: &str) -> (r: Vec<String>)
    ensures
        views(r@) == comparison_terms(value@),
{
    let list = search_terms(value);
    take_long(&list, 3, MAX_SEARCH_TERMS * 2)
}

/// The full-text query that looks for contents with some of the terms.
pub open spec fn candidate_query(terms: Seq<Seq<char>>) -> Seq<char> {
    fts_query(long_members(terms, 4, MAX_REMEMBER_LEXICAL_TERMS as nat), false, " OR "@)
}

/// The full-text query that looks for contents with some of the terms: up to
/// twelve of those with four characters or more.
pub fn remember_candidate_fts_query(terms: &Vec<String>) -> (r: String)
    ensures
        r@ == candidate_query(views(terms@)),
{
    let list = take_long(terms, 4, MAX_REMEMBER_LEXICAL_TERMS);
    search_fts_query(&list, false, " OR ")
}

/// The stems of a term that differ from it and may be searched by their beginning.
pub open spec fn token_stems(term: Seq<char>, found: Seq<Seq<char>>) -> Seq<Seq<char>>
    decreases found.len(),
{
    if found.len() == 0 {
        found
    } else {
        let before = token_stems(term, found.drop_last());
        if found.last() != term && prefixable(found.last()) {
            with_unique(before, found.last())
        } else {
            before
        }
    }
}

/// The stems of a term under which it is indexed as well.
pub open spec fn term_tokens(term: Seq<char>) -> Seq<Seq<char>> {
    token_stems(term, stems(term))
}

/// The stems of a term under which it is indexed as well.
pub fn normalized_search_tokens_for_term(term: &str) -> (r: Vec<String>)
    ensures
        views(r@) == term_tokens(term@),
{
    let mut tokens: Vec<String> = Vec::new();
    let found = search_term_stems(term);
    let ghost models = views(found@);
    assert(views(tokens@) =~= token_stems(term@, models.take(0)));
    for i in 0..found.len()
        invariant
            models == views(found@),
            views(tokens@) == token_stems(term@, models.take(i as int)),
    {
        proof {
            let next = models.take(i + 1);
            assert(next.drop_last() =~= models.take(i as int));
            assert(next.last() == found@[i as int]@);
        }
        if !text_eq(found[i].as_str(), term) && is_prefixable_search_term(found[i].as_str()) {
            push_unique(&mut tokens, found[i].clone());
        }
    }
    assert(models.take(found@.len() as int) =~= models);
    tokens
}

/// The tokens of all terms, one after the other.
pub open spec fn all_tokens(terms: Seq<Seq<char>>) -> Seq<Seq<char>>
    decreases terms.len(),
{
    if terms.len() == 0 {
        terms
    } else {
        all_tokens(terms.drop_last()) + term_tokens(terms.last())
    }
}

/// The tokens of all values, one after the other.
pub open spec fn value_tokens(values: Seq<Seq<char>>) -> Seq<Seq<char>>
    decreases values.len(),
{
    if values.len() == 0 {
        values
    } else {
        value_tokens(values.drop_last()) + all_tokens(query_terms(values.last()))
    }
}

/// Appends the members of one list to another.
fn append_texts(list: &mut Vec<String>, more: &Vec<String>)
    ensures
        views(final(list)@) == views(old(list)@) + views(more@),
{
    let ghost before = views(list@);
    assert(before + views(more@).take(0) =~= before);
    for i in 0..more.len()
        invariant
            views(list@) == before + views(more@).take(i as int),
    {
        let ghost now = list@;
        list.push(more[i].clone());
        assert(views(list@) =~= views(now).push(more@[i as int]@));
        assert(before + views(more@).take(i + 1) =~= (before + views(more@).take(i as int)).push(
            more@[i as int]@,
        ));
    }
    assert(views(more@).take(more@.len() as int) =~= views(more@));
}

/// The tokens under which the values are indexed as well: the stems of their
/// search terms, each once, in ascending order, with one space between them.
pub fn normalized_search_token_text(values: &Vec<String>) -> (r: String)
    ensures
        r@ == joined(sorted_set(value_tokens(views(values@))), " "@),
{
    let mut tokens: Vec<String> = Vec::new();
    let ghost models = views(values@);
    assert(views(tokens@) =~= value_tokens(models.take(0)));
    for v in 0..values.len()
        invariant
            models == views(values@),
            views(tokens@) == value_tokens(models.take(v as int)),
    {
        let terms = search_terms(values[v].as_str());
        let ghost base = views(tokens@);
        let ghost term_models = views(terms@);
        assert(base + all_tokens(term_models.take(0)) =~= base);
        for i in 0..terms.len()
            invariant
                term_models == views(terms@),
                views(tokens@) == base + all_tokens(term_models.take(i as int)),
        {
            let found = normalized_search_tokens_for_term(terms[i].as_str());
            append_texts(&mut tokens, &found);
            proof {
                let next = term_models.take(i + 1);
                assert(next.drop_last() =~= term_models.take(i as int));
                assert(next.last() == terms@[i as int]@);
                assert(base + all_tokens(term_models.take(i as int)) + views(found@) =~= base
                    + all_tokens(next));
            }
        }
        proof {
            assert(term_models.take(terms@.len() as int) =~= term_models);
            let next = models.take(v + 1);
            assert(next.drop_last() =~= models.take(v as int));
            assert(next.last() == values@[v as int]@);
        }
    }
    assert(models.take(values@.len() as int) =~= models);
    let list = sort_unique(tokens.as_slice());
    join(list.as_slice(), " ")
}

/// The texts that are there, in order.
pub open spec fn present(list: Seq<Option<Seq<char>>>) -> Seq<Seq<char>>
    decreases list.len(),
{
    if list.len() == 0 {
        Seq::empty()
    } else {
        match list.last() {
            Some(text) => present(list.drop_last()).push(text),
            None => present(list.drop_last()),
        }
    }
}

/// The keys of a memory with one space between them.
pub open spec fn key_text(
    project: Option<Seq<char>>,
    entity: Option<Seq<char>>,
    claim: Option<Seq<char>>,
) -> Seq<char> {
    joined(present(seq![project, entity, claim]), " "@)
}

/// The metadata text that a memory is indexed under.
pub open spec fn metadata_text(
    project: Option<Seq<char>>,
    entity: Option<Seq<char>>,
    claim: Option<Seq<char>>,
    content: Seq<char>,
    summary: Option<Seq<char>>,
    tags: Seq<char>,
) -> Seq<char> {
    let keys = key_text(project, entity, claim);
    let tokens = joined(
        sorted_set(value_tokens(present(seq![Some(content), summary, Some(tags), Some(keys)]))),
        " "@,
    );
    if is_blank(keys) && is_blank(tokens) {
        Seq::empty()
    } else if is_blank(keys) {
        tokens
    } else if is_blank(tokens) {
        keys
    } else {
        keys + " "@ + tokens
    }
}

/// The model of an optional slice.
pub open spec fn slice_model(value: Option<&str>) -> Option<Seq<char>> {
    crate::json::text_of(value)
}

/// Appends a text that is there.
fn push_present(list: &mut Vec<String>, value: Option<&str>)
    ensures
        views(final(list)@) == match slice_model(value) {
            Some(text) => views(old(list)@).push(text),
            None => views(old(list)@),
        },
{
    match value {
        Some(text) => {
            let ghost before = list@;
            list.push(text.to_owned());
            assert(views(list@) =~= views(before).push(text@));
        },
        None => {},
    }
}

proof fn lemma_present_push(list: Seq<Option<Seq<char>>>, value: Option<Seq<char>>)
    ensures
        present(list.push(value)) == match value {
            Some(text) => present(list).push(text),
            None => present(list),
        },
{
    assert(list.push(value).drop_last() =~= list);
}

/// The metadata text that a memory is indexed under: its keys, and the stems of
/// the terms of its content, summary, tags and keys.
pub fn memory_fts_metadata_text(
    project_key: Option<&str>,
    entity_key: Option<&str>,
    claim_key: Option<&str>,
    content: &str,
    summary: Option<&str>,
    tags_text: &str,
) -> (r: String)
    ensures
        r@ == metadata_text(
            slice_model(project_key),
            slice_model(entity_key),
            slice_model(claim_key),
            content@,
            slice_model(summary),
            tags_text@,
        ),
{
    let ghost p = slice_model(project_key);
    let ghost e = slice_model(entity_key);
    let ghost c = slice_model(claim_key);
    let ghost s = slice_model(summary);
    let ghost none = Seq::<Option<Seq<char>>>::empty();
    let mut keys: Vec<String> = Vec::new();
    assert(views(keys@) =~= present(none));
    push_present(&mut keys, project_key);
    push_present(&mut keys, entity_key);
    push_present(&mut keys, claim_key);
    proof {
        lemma_present_push(none, p);
        lemma_present_push(none.push(p), e);
        lemma_present_push(none.push(p).push(e), c);
        assert(none.push(p).push(e).push(c) =~= seq![p, e, c]);
    }
    let base = join(keys.as_slice(), " ");
    let mut values: Vec<String> = Vec::new();
    assert(views(values@) =~= present(none));
    push_present(&mut values, Some(content));
    push_present(&mut values, summary);
    push_present(&mut values, Some(tags_text));
    push_present(&mut values, Some(base.as_str()));
    proof {
        let x = Some(content@);
        let t = Some(tags_text@);
        let b = Some(base@);
        lemma_present_push(none, x);
        lemma_present_push(none.push(x), s);
        lemma_present_push(none.push(x).push(s), t);
        lemma_present_push(none.push(x).push(s).push(t), b);
        assert(none.push(x).push(s).push(t).push(b) =~= seq![x, s, t, b]);
    }
    let tokens = normalized_search_token_text(&values);
    let no_keys: bool = trim(base.as_str()).is_empty();
    let no_tokens: bool = trim(tokens.as_str()).is_empty();
    if no_keys && no_tokens {
        String::new()
    } else if no_keys {
        tokens
    } else if no_tokens {
        base
    } else {
        concat3(base.as_str(), " ", tokens.as_str())
    }
}

} // verus!
