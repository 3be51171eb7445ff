//! Active memories that a new memory may duplicate or update.

use vstd::prelude::*;

use crate::json::text_of_string;
use crate::order::{sort_unique, sorted_set};
use crate::pool::{clone_text, clone_texts};
use crate::ranking::{key_models, positions, sort_order, sorting, KeyModel, SortKey, SortText};
use crate::terms::{candidate_query, comparison_terms, lexical_terms, remember_candidate_fts_query};
use crate::text::{bounded_char_slice, char_window, list_contains, text_eq, views};
use crate::vocabulary::MAX_REMEMBER_CANDIDATES;

verus! {

/// A ratio of two counts; the second is not zero.
#[derive(Debug, Clone, Copy)]
pub struct Ratio {
    /// What is counted.
    pub part: usize,
    /// Out of how many.
    pub whole: usize,
}

/// Whether one ratio is greater than another.
pub open spec fn ratio_above(a: Ratio, b: Ratio) -> bool {
    a.part * b.whole > b.part * a.whole
}

fn is_above(a: Ratio, b: Ratio) -> (r: bool)
    ensures
        r == ratio_above(a, b),
{
    proof {
        lemma_product_fits(a.part as int, b.whole as int);
        lemma_product_fits(b.part as int, a.whole as int);
    }
    a.part as u128 * b.whole as u128 > b.part as u128 * a.whole as u128
}

proof fn lemma_product_fits(a: int, b: int)
    requires
        0 <= a <= usize::MAX,
        0 <= b <= usize::MAX,
    ensures
        0 <= a * b <= u128::MAX,
{
    assert(0 <= a * b <= 0xffff_ffff_ffff_ffff * 0xffff_ffff_ffff_ffff) by (nonlinear_arith)
        requires
            0 <= a <= 0xffff_ffff_ffff_ffff,
            0 <= b <= 0xffff_ffff_ffff_ffff,
    ;
}

/// The place of a ratio in units of one part in 2^40, rounded down. Ratios of
/// counts below 2^20 that differ have different places.
pub open spec fn ratio_place(ratio: Ratio) -> int {
    if ratio.whole == 0 {
        0
    } else {
        (ratio.part * 0x100_0000_0000) / (ratio.whole as int)
    }
}

/// Ratios of counts below 2^20 are ordered as their places are.
pub proof fn law_ratio_place_is_faithful(a: Ratio, b: Ratio)
    requires
        0 < a.whole <= 0x10_0000,
        0 < b.whole <= 0x10_0000,
    ensures
        ratio_above(a, b) <==> ratio_place(a) > ratio_place(b),
{
    if ratio_above(a, b) {
        lemma_place_gap(a, b);
    }
    if ratio_above(b, a) {
        lemma_place_gap(b, a);
    }
    if !ratio_above(a, b) && !ratio_above(b, a) {
        let unit: int = 0x100_0000_0000;
        let p = a.part as int;
        let q = a.whole as int;
        let s = b.part as int;
        let t = b.whole as int;
        assert(p * t == s * q);
        let x = (p * unit) / q;
        let y = (s * unit) / t;
        lemma_floor(p * unit, q);
        lemma_floor(s * unit, t);
        assert(x <= y) by (nonlinear_arith)
            requires
                p * t == s * q,
                x * q <= p * unit,
                s * unit < (y + 1) * t,
                q > 0,
                t > 0,
                unit > 0,
        {
            assert(x * q * t <= p * unit * t);
            assert(p * unit * t == s * q * unit);
            assert(s * unit * q < (y + 1) * t * q);
            assert(x * (q * t) < (y + 1) * (q * t));
        }
        assert(y <= x) by (nonlinear_arith)
            requires
                p * t == s * q,
                y * t <= s * unit,
                p * unit < (x + 1) * q,
                q > 0,
                t > 0,
                unit > 0,
        {
            assert(y * t * q <= s * unit * q);
            assert(s * unit * q == p * t * unit);
            assert(p * unit * t < (x + 1) * q * t);
            assert(y * (q * t) < (x + 1) * (q * t));
        }
    }
}

proof fn lemma_floor(n: int, d: int)
    requires
        d > 0,
    ensures
        (n / d) * d <= n,
        n < (n / d + 1) * d,
{
    assert((n / d) * d <= n && n < (n / d + 1) * d) by (nonlinear_arith)
        requires
            d > 0,
    ;
}

proof fn lemma_place_gap(a: Ratio, b: Ratio)
    requires
        0 < a.whole <= 0x10_0000,
        0 < b.whole <= 0x10_0000,
        ratio_above(a, b),
    ensures
        ratio_place(a) > ratio_place(b),
{
    let unit: int = 0x100_0000_0000;
    let p = a.part as int;
    let q = a.whole as int;
    let s = b.part as int;
    let t = b.whole as int;
    let x = (p * unit) / q;
    let y = (s * unit) / t;
    lemma_floor(p * unit, q);
    lemma_floor(s * unit, t);
    assert(p * t >= s * q + 1);
    assert(q * t <= unit) by (nonlinear_arith)
        requires
            0 < q <= 0x10_0000,
            0 < t <= 0x10_0000,
            unit == 0x100_0000_0000int,
    ;
    assert(x >= y + 1) by (nonlinear_arith)
        requires
            p * t >= s * q + 1,
            y * t <= s * unit,
            p * unit < (x + 1) * q,
            q * t <= unit,
            q > 0,
            t > 0,
            unit > 0,
    {
        assert(y * t * q <= s * unit * q);
        assert(p * t * unit >= (s * q + 1) * unit);
        assert(p * unit * t < (x + 1) * q * t);
        assert((y + 1) * (q * t) <= s * q * unit + unit);
        assert((y + 1) * (q * t) < (x + 1) * (q * t));
    }
}

/// An active memory that may be related to a new one.
pub struct RememberCandidateRow {
    /// Memory id.
    pub memory_id: String,
    /// Space.
    pub space: String,
    /// Silo.
    pub silo: String,
    /// Kind.
    pub kind: String,
    /// Status.
    pub status: String,
    /// Entity key.
    pub entity_key: Option<String>,
    /// Claim key.
    pub claim_key: Option<String>,
    /// Content of the active version.
    pub content: String,
    /// Summary of the active version.
    pub summary: Option<String>,
    /// Digest of the content.
    pub content_sha256: String,
}

/// A related memory, as reported.
pub struct RememberCandidate {
    /// Memory id.
    pub memory_id: String,
    /// How it is related.
    pub relationship: &'static str,
    /// How strongly.
    pub score: Ratio,
    /// What it matched on, in ascending order.
    pub matched_on: Vec<String>,
    /// Space.
    pub space: String,
    /// Silo.
    pub silo: String,
    /// Kind.
    pub kind: String,
    /// Status.
    pub status: String,
    /// Summary.
    pub summary: Option<String>,
    /// Start of the summary or the content.
    pub snippet: String,
    /// Digest of the content.
    pub content_sha256: String,
    /// Entity key.
    pub entity_key: Option<String>,
    /// Claim key.
    pub claim_key: Option<String>,
}

/// The model of a related memory.
pub struct RelatedModel {
    /// Memory id.
    pub memory_id: Seq<char>,
    /// How it is related.
    pub relationship: Seq<char>,
    /// How strongly.
    pub score: Ratio,
    /// What it matched on.
    pub matched_on: Seq<Seq<char>>,
    /// Space.
    pub space: Seq<char>,
    /// Silo.
    pub silo: Seq<char>,
    /// Kind.
    pub kind: Seq<char>,
    /// Status.
    pub status: Seq<char>,
    /// Summary.
    pub summary: Option<Seq<char>>,
    /// Start of the summary or the content.
    pub snippet: Seq<char>,
    /// Digest of the content.
    pub content_sha256: Seq<char>,
    /// Entity key.
    pub entity_key: Option<Seq<char>>,
    /// Claim key.
    pub claim_key: Option<Seq<char>>,
}

impl View for RememberCandidate {
    type V = RelatedModel;

    open spec fn view(&self) -> RelatedModel {
        RelatedModel {
            memory_id: self.memory_id@,
            relationship: self.relationship@,
            score: self.score,
            matched_on: views(self.matched_on@),
            space: self.space@,
            silo: self.silo@,
            kind: self.kind@,
            status: self.status@,
            summary: text_of_string(self.summary),
            snippet: self.snippet@,
            content_sha256: self.content_sha256@,
            entity_key: text_of_string(self.entity_key),
            claim_key: text_of_string(self.claim_key),
        }
    }
}

/// The models of related memories.
pub open spec fn related_models(list: Seq<RememberCandidate>) -> Seq<RelatedModel> {
    list.map_values(|c: RememberCandidate| c@)
}

/// How urgent a relationship is; less is more.
pub open spec fn priority(relationship: Seq<char>) -> int {
    if relationship == "duplicate"@ {
        0
    } else if relationship == "update_candidate"@ {
        1
    } else {
        2
    }
}

/// How urgent a relationship is.
pub fn relationship_priority(relationship: &str) -> (r: u8)
    ensures
        r == priority(relationship@),
{
    if text_eq(relationship, "duplicate") {
        0
    } else if text_eq(relationship, "update_candidate") {
        1
    } else {
        2
    }
}

/// What is known of a related memory while the sources are walked.
pub struct Accumulated {
    /// The row.
    pub row: RememberCandidateRow,
    /// The strongest relationship.
    pub relationship: Seq<char>,
    /// Its strength.
    pub score: Ratio,
    /// What it matched on, as found.
    pub labels: Seq<Seq<char>>,
}

/// The first position of a memory in a list.
pub open spec fn find_memory(list: Seq<Accumulated>, id: Seq<char>) -> Option<int>
    decreases list.len(),
{
    if list.len() == 0 {
        None
    } else {
        match find_memory(list.drop_last(), id) {
            Some(i) => Some(i),
            None => if list.last().row.memory_id@ == id {
                Some(list.len() - 1)
            } else {
                None
            },
        }
    }
}

/// A list of related memories after one more match: an excluded memory is passed
/// over, a new one is appended, and a known one keeps the stronger relationship.
pub open spec fn with_match(
    list: Seq<Accumulated>,
    excluded: Seq<Seq<char>>,
    row: RememberCandidateRow,
    relationship: Seq<char>,
    score: Ratio,
    label: Seq<char>,
) -> Seq<Accumulated> {
    if excluded.contains(row.memory_id@) {
        list
    } else {
        match find_memory(list, row.memory_id@) {
            None => list.push(Accumulated { row, relationship, score, labels: seq![label] }),
            Some(i) => {
                let known = list[i];
                let stronger = priority(relationship) < priority(known.relationship) || (priority(
                    relationship,
                ) == priority(known.relationship) && ratio_above(score, known.score));
                list.update(
                    i,
                    Accumulated {
                        row: known.row,
                        relationship: if stronger {
                            relationship
                        } else {
                            known.relationship
                        },
                        score: if stronger {
                            score
                        } else {
                            known.score
                        },
                        labels: known.labels.push(label),
                    },
                )
            },
        }
    }
}

/// A list of related memories after the rows of one source.
pub open spec fn with_rows(
    list: Seq<Accumulated>,
    excluded: Seq<Seq<char>>,
    rows: Seq<RememberCandidateRow>,
    relationship: Seq<char>,
    score: Ratio,
    label: Seq<char>,
) -> Seq<Accumulated>
    decreases rows.len(),
{
    if rows.len() == 0 {
        list
    } else {
        with_match(
            with_rows(list, excluded, rows.drop_last(), relationship, score, label),
            excluded,
            rows.last(),
            relationship,
            score,
            label,
        )
    }
}

/// How many members of one list another has.
pub open spec fn overlap(a: Seq<Seq<char>>, b: Seq<Seq<char>>) -> nat
    decreases a.len(),
{
    if a.len() == 0 {
        0
    } else {
        overlap(a.drop_last(), b) + if b.contains(a.last()) {
            1nat
        } else {
            0
        }
    }
}

/// How alike two sets of terms are: shared terms out of all terms.
pub open spec fn similarity(a: Seq<Seq<char>>, b: Seq<Seq<char>>) -> Ratio {
    if a.len() == 0 || b.len() == 0 {
        Ratio { part: 0, whole: 1 }
    } else {
        Ratio {
            part: overlap(a, b) as usize,
            whole: (a.len() + b.len() - overlap(a, b)) as usize,
        }
    }
}

/// The floor of likeness: thirty-five in a hundred.
pub open spec fn alike(ratio: Ratio) -> bool {
    ratio.part * 20 >= ratio.whole * 7
}

/// A likeness as reported: at most ninety-four in a hundred.
pub open spec fn capped(ratio: Ratio) -> Ratio {
    if ratio_above(ratio, Ratio { part: 94, whole: 100 }) {
        Ratio { part: 94, whole: 100 }
    } else {
        ratio
    }
}

/// A list of related memories after the rows of a search by terms.
pub open spec fn with_lexical_rows(
    list: Seq<Accumulated>,
    excluded: Seq<Seq<char>>,
    rows: Seq<RememberCandidateRow>,
    terms: Seq<Seq<char>>,
) -> Seq<Accumulated>
    decreases rows.len(),
{
    if rows.len() == 0 {
        list
    } else {
        let before = with_lexical_rows(list, excluded, rows.drop_last(), terms);
        let likeness = similarity(terms, comparison_terms(rows.last().content@));
        if alike(likeness) {
            with_match(
                before,
                excluded,
                rows.last(),
                "related_candidate"@,
                capped(likeness),
                "lexical_similarity"@,
            )
        } else {
            before
        }
    }
}

/// Whether contents are searched by terms: there are enough of them, and the
/// query says something.
pub open spec fn lexical_search(terms: Seq<Seq<char>>) -> bool {
    terms.len() >= 3 && candidate_query(terms).len() > 0
}

/// The full-text query for contents alike, where one is made.
pub fn lexical_candidate_query(content: &str) -> (r: Option<String>)
    ensures
        r is Some == lexical_search(comparison_terms(content@)),
        r matches Some(query) ==> query@ == candidate_query(comparison_terms(content@)),
{
    let terms = lexical_terms(content);
    assert(views(terms@).len() == terms@.len());
    if terms.len() < 3 {
        return None;
    }
    let query = remember_candidate_fts_query(&terms);
    if query.as_str().is_empty() {
        None
    } else {
        Some(query)
    }
}

/// The rows that each source of related memories gave.
pub struct RelatedRows {
    /// Active memories with the same content.
    pub exact: Vec<RememberCandidateRow>,
    /// Active memories with the same claim key.
    pub claim: Vec<RememberCandidateRow>,
    /// Active memories of the kind with the same entity key.
    pub entity: Vec<RememberCandidateRow>,
    /// Active memories that the full-text query found.
    pub lexical: Vec<RememberCandidateRow>,
}

/// All related memories, as found.
pub open spec fn accumulated(
    rows: RelatedRows,
    excluded: Seq<Seq<char>>,
    has_claim: bool,
    has_entity: bool,
    terms: Seq<Seq<char>>,
) -> Seq<Accumulated> {
    let exact = with_rows(
        Seq::empty(),
        excluded,
        rows.exact@,
        "duplicate"@,
        Ratio { part: 1, whole: 1 },
        "content_sha256"@,
    );
    let claimed = if has_claim {
        with_rows(
            exact,
            excluded,
            rows.claim@,
            "update_candidate"@,
            Ratio { part: 95, whole: 100 },
            "claim_key"@,
        )
    } else {
        exact
    };
    let named = if has_entity {
        with_rows(
            claimed,
            excluded,
            rows.entity@,
            "update_candidate"@,
            Ratio { part: 75, whole: 100 },
            "entity_key_kind"@,
        )
    } else {
        claimed
    };
    if lexical_search(terms) {
        with_lexical_rows(named, excluded, rows.lexical@, terms)
    } else {
        named
    }
}

/// A related memory, as reported.
pub open spec fn reported(known: Accumulated) -> RelatedModel {
    RelatedModel {
        memory_id: known.row.memory_id@,
        relationship: known.relationship,
        score: known.score,
        matched_on: sorted_set(known.labels),
        space: known.row.space@,
        silo: known.row.silo@,
        kind: known.row.kind@,
        status: known.row.status@,
        summary: text_of_string(known.row.summary),
        snippet: char_window(
            match text_of_string(known.row.summary) {
                Some(summary) => summary,
                None => known.row.content@,
            },
            0,
            240,
        ),
        content_sha256: known.row.content_sha256@,
        entity_key: text_of_string(known.row.entity_key),
        claim_key: text_of_string(known.row.claim_key),
    }
}

/// The sort key of a related memory: urgency, strength, id.
pub open spec fn related_key(known: Accumulated) -> KeyModel {
    KeyModel {
        numbers: seq![priority(known.relationship) as i128, (-ratio_place(known.score)) as i128],
        texts: seq![(known.row.memory_id@, false)],
    }
}

/// The related memories in the order of urgency.
pub open spec fn ranked_related(list: Seq<Accumulated>) -> Seq<RelatedModel> {
    let order = sorting(list.map_values(|k: Accumulated| related_key(k)));
    Seq::new(order.len(), |i: int| reported(list[order[i]]))
}

/// The related memories that are reported, and whether there were more.
pub open spec fn detected(list: Seq<Accumulated>) -> (Seq<RelatedModel>, bool) {
    let all = ranked_related(list);
    if all.len() > MAX_REMEMBER_CANDIDATES {
        (all.take(MAX_REMEMBER_CANDIDATES as int), true)
    } else {
        (all, false)
    }
}

struct Entry<'a> {
    row: &'a RememberCandidateRow,
    relationship: &'static str,
    score: Ratio,
    labels: Vec<String>,
}

impl<'a> Entry<'a> {
    spec fn model(&self) -> Accumulated {
        Accumulated {
            row: *self.row,
            relationship: self.relationship@,
            score: self.score,
            labels: views(self.labels@),
        }
    }
}

spec fn entries<'a>(list: Seq<Entry<'a>>) -> Seq<Accumulated> {
    list.map_values(|e: Entry<'a>| e.model())
}

proof fn lemma_find_memory(list: Seq<Accumulated>, id: Seq<char>, i: int)
    requires
        0 <= i <= list.len(),
        forall|j: int| 0 <= j < i ==> (#[trigger] list[j]).row.memory_id@ != id,
        i < list.len() ==> list[i].row.memory_id@ == id,
    ensures
        find_memory(list, id) == if i < list.len() {
            Some(i)
        } else {
            None
        },
    decreases list.len(),
{
    if list.len() > 0 {
        let rest = list.drop_last();
        assert forall|j: int| 0 <= j < rest.len() implies rest[j] == list[j] by {}
        if i < list.len() {
            lemma_find_memory(rest, id, i);
        } else {
            lemma_find_memory(rest, id, i - 1);
            assert(list[list.len() - 1].row.memory_id@ != id);
        }
    }
}

fn merge_remember_candidate<'a>(
    list: &mut Vec<Entry<'a>>,
    excluded: &Vec<String>,
    row: &'a RememberCandidateRow,
    relationship: &'static str,
    score: Ratio,
    label: &str,
)
    ensures
        entries(final(list)@) == with_match(
            entries(old(list)@),
            views(excluded@),
            *row,
            relationship@,
            score,
            label@,
        ),
{
    if list_contains(excluded.as_slice(), row.memory_id.as_str()) {
        return;
    }
    let ghost before = entries(list@);
    let n: usize = list.len();
    let mut i: usize = 0;
    while i < n && !text_eq(list[i].row.memory_id.as_str(), row.memory_id.as_str())
        invariant
            i <= n,
            n == list@.len(),
            before == entries(list@),
            forall|j: int| 0 <= j < i ==> (#[trigger] before[j]).row.memory_id@ != row.memory_id@,
        decreases n - i,
    {
        assert(before[i as int].row.memory_id@ != row.memory_id@);
        i = i + 1;
    }
    proof {
        if i < n {
            assert(before[i as int].row.memory_id@ == row.memory_id@);
        }
        lemma_find_memory(before, row.memory_id@, i as int);
    }
    if i == n {
        let mut labels: Vec<String> = Vec::new();
        labels.push(label.to_owned());
        assert(views(labels@) =~= seq![label@]);
        let ghost old_list = list@;
        list.push(Entry { row, relationship, score, labels });
        assert(entries(list@) =~= entries(old_list).push(
            Accumulated {
                row: *row,
                relationship: relationship@,
                score,
                labels: seq![label@],
            },
        ));
    } else {
        let new_priority: u8 = relationship_priority(relationship);
        let old_priority: u8 = relationship_priority(list[i].relationship);
        let stronger: bool = new_priority < old_priority || (new_priority == old_priority
            && is_above(score, list[i].score));
        let mut labels = clone_texts(&list[i].labels);
        let ghost old_labels = labels@;
        labels.push(label.to_owned());
        assert(views(labels@) =~= views(old_labels).push(label@));
        let entry = Entry {
            row: list[i].row,
            relationship: if stronger {
                relationship
            } else {
                list[i].relationship
            },
            score: if stronger {
                score
            } else {
                list[i].score
            },
            labels,
        };
        let ghost model = entry.model();
        list.set(i, entry);
        assert(entries(list@) =~= before.update(i as int, model));
    }
}

fn merge_rows<'a>(
    list: &mut Vec<Entry<'a>>,
    excluded: &Vec<String>,
    rows: &'a Vec<RememberCandidateRow>,
    relationship: &'static str,
    score: Ratio,
    label: &str,
)
    ensures
        entries(final(list)@) == with_rows(
            entries(old(list)@),
            views(excluded@),
            rows@,
            relationship@,
            score,
            label@,
        ),
{
    let ghost start = entries(list@);
    assert(rows@.take(0) =~= Seq::empty());
    for i in 0..rows.len()
        invariant
            start == entries(old(list)@),
            entries(list@) == with_rows(
                start,
                views(excluded@),
                rows@.take(i as int),
                relationship@,
                score,
                label@,
            ),
    {
        assert(rows@.take(i + 1).drop_last() =~= rows@.take(i as int));
        assert(rows@.take(i + 1).last() == rows@[i as int]);
        merge_remember_candidate(list, excluded, &rows[i], relationship, score, label);
    }
    assert(rows@.take(rows@.len() as int) =~= rows@);
}

/// How alike two sets of terms are.
pub fn jaccard_similarity(left: &Vec<String>, right: &Vec<String>) -> (r: Ratio)
    requires
        left@.len() + right@.len() <= usize::MAX,
    ensures
        r == similarity(views(left@), views(right@)),
        r.part <= left@.len(),
        r.whole <= left@.len() + right@.len() + 1,
{
    let ghost a = views(left@);
    let ghost b = views(right@);
    if left.len() == 0 || right.len() == 0 {
        return Ratio { part: 0, whole: 1 };
    }
    let mut shared: usize = 0;
    assert(a.take(0) =~= Seq::empty());
    for i in 0..left.len()
        invariant
            a == views(left@),
            b == views(right@),
            shared == overlap(a.take(i as int), b),
            shared <= i,
    {
        assert(a.take(i + 1).drop_last() =~= a.take(i as int));
        assert(a.take(i + 1).last() == left@[i as int]@);
        if list_contains(right.as_slice(), left[i].as_str()) {
            shared = shared + 1;
        }
    }
    assert(a.take(left@.len() as int) =~= a);
    Ratio { part: shared, whole: left.len() + right.len() - shared }
}

fn merge_lexical_rows<'a>(
    list: &mut Vec<Entry<'a>>,
    excluded: &Vec<String>,
    rows: &'a Vec<RememberCandidateRow>,
    terms: &Vec<String>,
)
    requires
        terms@.len() <= 128,
    ensures
        entries(final(list)@) == with_lexical_rows(
            entries(old(list)@),
            views(excluded@),
            rows@,
            views(terms@),
        ),
{
    let ghost start = entries(list@);
    assert(rows@.take(0) =~= Seq::empty());
    for i in 0..rows.len()
        invariant
            start == entries(old(list)@),
            terms@.len() <= 128,
            entries(list@) == with_lexical_rows(
                start,
                views(excluded@),
                rows@.take(i as int),
                views(terms@),
            ),
    {
        assert(rows@.take(i + 1).drop_last() =~= rows@.take(i as int));
        assert(rows@.take(i + 1).last() == rows@[i as int]);
        let row = &rows[i];
        let row_terms = lexical_terms(row.content.as_str());
        proof {
            crate::terms::lemma_long_members_bound(crate::terms::query_terms(row.content@), 3, 128);
            assert(views(row_terms@).len() == row_terms@.len());
        }
        let likeness = jaccard_similarity(terms, &row_terms);
        if likeness.part * 20 >= likeness.whole * 7 {
            let score = if is_above(likeness, Ratio { part: 94, whole: 100 }) {
                Ratio { part: 94, whole: 100 }
            } else {
                likeness
            };
            merge_remember_candidate(
                list,
                excluded,
                row,
                "related_candidate",
                score,
                "lexical_similarity",
            );
        }
    }
    assert(rows@.take(rows@.len() as int) =~= rows@);
}

fn report_candidate(entry: &Entry<'_>) -> (r: RememberCandidate)
    ensures
        r@ == reported(entry.model()),
{
    let row = entry.row;
    let snippet = match &row.summary {
        Some(summary) => bounded_char_slice(summary.as_str(), 0, 240),
        None => bounded_char_slice(row.content.as_str(), 0, 240),
    };
    RememberCandidate {
        memory_id: row.memory_id.clone(),
        relationship: entry.relationship,
        score: entry.score,
        matched_on: sort_unique(entry.labels.as_slice()),
        space: row.space.clone(),
        silo: row.silo.clone(),
        kind: row.kind.clone(),
        status: row.status.clone(),
        summary: clone_text(&row.summary),
        snippet,
        content_sha256: row.content_sha256.clone(),
        entity_key: clone_text(&row.entity_key),
        claim_key: clone_text(&row.claim_key),
    }
}

fn place_of(ratio: Ratio) -> (r: i128)
    ensures
        r == ratio_place(ratio),
        0 <= r <= 0x1_0000_0000_0000_0000_0000_0000_0000,
{
    if ratio.whole == 0 {
        0
    } else {
        let part: i128 = ratio.part as i128;
        let whole: i128 = ratio.whole as i128;
        let scaled: i128 = part * 0x100_0000_0000;
        proof {
            let n = scaled as int;
            let d = whole as int;
            assert(0 <= n / d <= n) by (nonlinear_arith)
                requires
                    n >= 0,
                    d >= 1,
            ;
        }
        scaled / whole
    }
}

fn related_order(list: &Vec<Entry<'_>>) -> (r: Vec<usize>)
    ensures
        positions(r@) == sorting(entries(list@).map_values(|k: Accumulated| related_key(k))),
        r@.len() == list@.len(),
        forall|i: int| 0 <= i < r@.len() ==> (#[trigger] r@[i]) < list@.len(),
{
    let ghost wanted = entries(list@).map_values(|k: Accumulated| related_key(k));
    let mut keys: Vec<SortKey> = Vec::new();
    assert(key_models(keys@) =~= wanted.take(0));
    for i in 0..list.len()
        invariant
            wanted == entries(list@).map_values(|k: Accumulated| related_key(k)),
            key_models(keys@) == wanted.take(i as int),
    {
        let entry = &list[i];
        let mut numbers: Vec<i128> = Vec::new();
        numbers.push(relationship_priority(entry.relationship) as i128);
        numbers.push(-place_of(entry.score));
        let mut texts: Vec<SortText> = Vec::new();
        texts.push(SortText { text: entry.row.memory_id.clone(), descending: false });
        let key = SortKey { numbers, texts };
        proof {
            assert(key@.numbers =~= wanted[i as int].numbers);
            assert(key@.texts =~= wanted[i as int].texts);
        }
        let ghost before = keys@;
        keys.push(key);
        assert(key_models(keys@) =~= key_models(before).push(wanted[i as int]));
        assert(wanted.take(i + 1) =~= wanted.take(i as int).push(wanted[i as int]));
    }
    assert(wanted.take(list@.len() as int) =~= wanted);
    let order = sort_order(keys.as_slice());
    proof {
        assert forall|i: int| 0 <= i < order@.len() implies (#[trigger] order@[i])
            < list@.len() by {
            assert(positions(order@)[i] == order@[i]);
        }
    }
    order
}

/// Finds the active memories that a new memory may duplicate or update: the
/// strongest relationship of each, most urgent first, at most five.
pub fn detect_remember_candidates(
    rows: &RelatedRows,
    excluded: &Vec<String>,
    has_claim: bool,
    has_entity: bool,
    content: &str,
) -> (r: (Vec<RememberCandidate>, bool))
    ensures
        (related_models(r.0@), r.1) == detected(
            accumulated(
                *rows,
                views(excluded@),
                has_claim,
                has_entity,
                comparison_terms(content@),
            ),
        ),
{
    let terms = lexical_terms(content);
    let ghost models = views(terms@);
    let mut list: Vec<Entry<'_>> = Vec::new();
    assert(entries(list@) =~= Seq::empty());
    merge_rows(
        &mut list,
        excluded,
        &rows.exact,
        "duplicate",
        Ratio { part: 1, whole: 1 },
        "content_sha256",
    );
    if has_claim {
        merge_rows(
            &mut list,
            excluded,
            &rows.claim,
            "update_candidate",
            Ratio { part: 95, whole: 100 },
            "claim_key",
        );
    }
    if has_entity {
        merge_rows(
            &mut list,
            excluded,
            &rows.entity,
            "update_candidate",
            Ratio { part: 75, whole: 100 },
            "entity_key_kind",
        );
    }
    proof {
        crate::terms::lemma_long_members_bound(crate::terms::query_terms(content@), 3, 128);
        assert(models.len() == terms@.len());
    }
    if lexical_candidate_query(content).is_some() {
        merge_lexical_rows(&mut list, excluded, &rows.lexical, &terms);
    }
    let ghost all = entries(list@);
    let order = related_order(&list);
    let ghost wanted = ranked_related(all);
    assert(wanted.len() == order@.len()) by {
        assert(positions(order@).len() == order@.len());
    }
    assert forall|i: int| 0 <= i < order@.len() implies wanted[i] == reported(
        all[order@[i] as int],
    ) by {
        assert(positions(order@)[i] == order@[i]);
    }
    let truncated: bool = order.len() > MAX_REMEMBER_CANDIDATES;
    let count: usize = if truncated {
        MAX_REMEMBER_CANDIDATES
    } else {
        order.len()
    };
    let mut out: Vec<RememberCandidate> = Vec::new();
    assert(related_models(out@) =~= wanted.take(0));
    for i in 0..count
        invariant
            count <= order@.len(),
            wanted.len() == order@.len(),
            all == entries(list@),
            forall|k: int| 0 <= k < order@.len() ==> (#[trigger] order@[k]) < list@.len(),
            forall|k: int|
                0 <= k < order@.len() ==> #[trigger] wanted[k] == reported(all[order@[k] as int]),
            related_models(out@) == wanted.take(i as int),
    {
        let ghost before = out@;
        assert(wanted[i as int] == reported(all[order@[i as int] as int]));
        let candidate = report_candidate(&list[order[i]]);
        assert(candidate@ == wanted[i as int]);
        out.push(candidate);
        assert(related_models(out@) =~= related_models(before).push(wanted[i as int]));
        assert(wanted.take(i + 1) =~= wanted.take(i as int).push(wanted[i as int]));
    }
    assert(!truncated ==> wanted.take(count as int) =~= wanted);
    (out, truncated)
}

} // verus!
