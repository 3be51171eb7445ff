//! Which memories a search or a listing is about.

use vstd::prelude::*;

use crate::error::{concat, concat4, invalid2, verdict, Error, Fault};
use crate::pool::clone_texts;
use crate::requests::{FiltersModel, SearchFilters};
use crate::text::{
    decimal, decimal_of, join, joined, parts_by, split_by, text_eq, trim, trimmed, views,
};
use crate::validate::{
    filter_values_fault, first_of, normal_tags, normalize_filter_values, normalized_tags,
    refused_if, trimmed_all,
};
use crate::vocabulary::{
    is_supported_kind, is_supported_scope, is_supported_status, supported_kind, supported_scope,
    supported_status, ALL_SPACES, DEFAULT_SPACE, STATUS_ACTIVE,
};

verus! {

/// Whether a list of spaces names all of them.
pub open spec fn names_all_spaces(spaces: Seq<Seq<char>>) -> bool {
    exists|i: int| 0 <= i < spaces.len() && trimmed(#[trigger] spaces[i]) == ALL_SPACES@
}

/// The spaces that a list of spaces stands for: none, for no restriction, where
/// it names all of them; the default one where it is empty.
pub open spec fn resolved_spaces(spaces: Seq<Seq<char>>) -> Seq<Seq<char>> {
    if names_all_spaces(spaces) {
        Seq::empty()
    } else if spaces.len() == 0 {
        seq![DEFAULT_SPACE@]
    } else {
        spaces
    }
}

/// Finds the spaces that a list of spaces stands for.
pub fn resolve_space_filter(spaces: &Vec<String>) -> (r: Vec<String>)
    ensures
        views(r@) == resolved_spaces(views(spaces@)),
{
    let ghost all = views(spaces@);
    for i in 0..spaces.len()
        invariant
            all == views(spaces@),
            forall|k: int| 0 <= k < i ==> trimmed(#[trigger] all[k]) != ALL_SPACES@,
    {
        assert(all[i as int] == spaces@[i as int]@);
        if text_eq(trim(spaces[i].as_str()), ALL_SPACES) {
            let none: Vec<String> = Vec::new();
            assert(trimmed(all[i as int]) == ALL_SPACES@);
            assert(views(none@) =~= Seq::empty());
            return none;
        }
    }
    assert(!names_all_spaces(all));
    assert(all.len() == spaces@.len());
    if spaces.len() == 0 {
        let mut list: Vec<String> = Vec::new();
        list.push(DEFAULT_SPACE.to_owned());
        assert(views(list@) =~= seq![DEFAULT_SPACE@]);
        list
    } else {
        clone_texts(spaces)
    }
}

/// A list of spaces without the sign for all of them is never widened: it stands
/// for itself, or for the default space where it is empty.
pub proof fn law_spaces_are_never_widened(spaces: Seq<Seq<char>>)
    ensures
        resolved_spaces(spaces).len() == 0 <==> names_all_spaces(spaces),
        !names_all_spaces(spaces) && spaces.len() > 0 ==> resolved_spaces(spaces) == spaces,
{
}

/// The fault of filter values, in the order of the filters.
pub open spec fn filters_fault(f: FiltersModel) -> Option<Fault> {
    first_of(
        filter_values_fault(f.spaces),
        first_of(
            filter_values_fault(f.silos),
            first_of(
                filter_values_fault(f.scopes),
                first_of(
                    filter_values_fault(f.projects),
                    first_of(
                        filter_values_fault(f.kinds),
                        first_of(
                            filter_values_fault(f.statuses),
                            first_of(
                                filter_values_fault(f.entity_keys),
                                first_of(
                                    filter_values_fault(f.claim_keys),
                                    filter_values_fault(f.tags),
                                ),
                            ),
                        ),
                    ),
                ),
            ),
        ),
    )
}

/// Filters with values without surrounding white space.
pub open spec fn trimmed_filters(f: FiltersModel) -> FiltersModel {
    FiltersModel {
        spaces: trimmed_all(f.spaces),
        silos: trimmed_all(f.silos),
        scopes: trimmed_all(f.scopes),
        projects: trimmed_all(f.projects),
        kinds: trimmed_all(f.kinds),
        statuses: trimmed_all(f.statuses),
        entity_keys: trimmed_all(f.entity_keys),
        claim_keys: trimmed_all(f.claim_keys),
        tags: trimmed_all(f.tags),
        hide_expired: f.hide_expired,
    }
}

/// Brings filters into normal form.
pub fn normalize_search_filters(filters: SearchFilters) -> (r: Result<SearchFilters, Error>)
    ensures
        match r {
            Ok(normal) => filters_fault(filters@) is None && normal@ == trimmed_filters(filters@),
            Err(e) => filters_fault(filters@) == Some(e@),
        },
{
    let spaces = match normalize_filter_values(&filters.spaces) {
        Ok(list) => list,
        Err(e) => {
            return Err(e);
        },
    };
    let silos = match normalize_filter_values(&filters.silos) {
        Ok(list) => list,
        Err(e) => {
            return Err(e);
        },
    };
    let scopes = match normalize_filter_values(&filters.scopes) {
        Ok(list) => list,
        Err(e) => {
            return Err(e);
        },
    };
    let projects = match normalize_filter_values(&filters.projects) {
        Ok(list) => list,
        Err(e) => {
            return Err(e);
        },
    };
    let kinds = match normalize_filter_values(&filters.kinds) {
        Ok(list) => list,
        Err(e) => {
            return Err(e);
        },
    };
    let statuses = match normalize_filter_values(&filters.statuses) {
        Ok(list) => list,
        Err(e) => {
            return Err(e);
        },
    };
    let entity_keys = match normalize_filter_values(&filters.entity_keys) {
        Ok(list) => list,
        Err(e) => {
            return Err(e);
        },
    };
    let claim_keys = match normalize_filter_values(&filters.claim_keys) {
        Ok(list) => list,
        Err(e) => {
            return Err(e);
        },
    };
    let tags = match normalize_filter_values(&filters.tags) {
        Ok(list) => list,
        Err(e) => {
            return Err(e);
        },
    };
    Ok(
        SearchFilters {
            spaces,
            silos,
            scopes,
            projects,
            kinds,
            statuses,
            entity_keys,
            claim_keys,
            tags,
            hide_expired: filters.hide_expired,
        },
    )
}

/// The words that a memory is described with.
pub enum Vocabulary {
    /// Scopes.
    Scope,
    /// Kinds.
    Kind,
    /// Statuses.
    Status,
}

/// Whether a word belongs to a vocabulary.
pub open spec fn known_word(vocabulary: Vocabulary, word: Seq<char>) -> bool {
    match vocabulary {
        Vocabulary::Scope => supported_scope(word),
        Vocabulary::Kind => supported_kind(word),
        Vocabulary::Status => supported_status(word),
    }
}

/// The name of a vocabulary in messages.
pub open spec fn unknown_word_message(vocabulary: Vocabulary) -> Seq<char> {
    match vocabulary {
        Vocabulary::Scope => "unsupported scope: "@,
        Vocabulary::Kind => "unsupported kind: "@,
        Vocabulary::Status => "unsupported status: "@,
    }
}

/// The fault of the first word outside a vocabulary.
pub open spec fn words_fault(vocabulary: Vocabulary, words: Seq<Seq<char>>) -> Option<Fault>
    decreases words.len(),
{
    if words.len() == 0 {
        None
    } else {
        first_of(
            words_fault(vocabulary, words.drop_last()),
            refused_if(
                !known_word(vocabulary, words.last()),
                unknown_word_message(vocabulary) + words.last(),
            ),
        )
    }
}

proof fn lemma_words_prefix(vocabulary: Vocabulary, words: Seq<Seq<char>>, n: int)
    requires
        0 <= n <= words.len(),
        words_fault(vocabulary, words.take(n)) is Some,
    ensures
        words_fault(vocabulary, words) == words_fault(vocabulary, words.take(n)),
    decreases words.len() - n,
{
    if n < words.len() {
        assert(words.take(n + 1).drop_last() =~= words.take(n));
        lemma_words_prefix(vocabulary, words, n + 1);
    } else {
        assert(words.take(n) =~= words);
    }
}

fn check_words(vocabulary: Vocabulary, words: &Vec<String>) -> (r: Result<(), Error>)
    ensures
        verdict(r) == words_fault(vocabulary, views(words@)),
{
    let ghost all = views(words@);
    for i in 0..words.len()
        invariant
            all == views(words@),
            words_fault(vocabulary, all.take(i as int)) is None,
    {
        proof {
            assert(all.take(i + 1).drop_last() =~= all.take(i as int));
            assert(all.take(i + 1).last() == words@[i as int]@);
            if words_fault(vocabulary, all.take(i + 1)) is Some {
                lemma_words_prefix(vocabulary, all, i + 1);
            }
        }
        let word = words[i].as_str();
        match vocabulary {
            Vocabulary::Scope => if !is_supported_scope(word) {
                return Err(invalid2("unsupported scope: ", word));
            },
            Vocabulary::Kind => if !is_supported_kind(word) {
                return Err(invalid2("unsupported kind: ", word));
            },
            Vocabulary::Status => if !is_supported_status(word) {
                return Err(invalid2("unsupported status: ", word));
            },
        }
    }
    assert(all.take(words@.len() as int) =~= all);
    Ok(())
}

/// The fault of filters in normal form.
pub open spec fn filter_words_fault(f: FiltersModel) -> Option<Fault> {
    first_of(
        words_fault(Vocabulary::Scope, f.scopes),
        first_of(
            words_fault(Vocabulary::Kind, f.kinds),
            first_of(
                words_fault(Vocabulary::Status, f.statuses),
                crate::records::fault_of(normal_tags(f.tags)),
            ),
        ),
    )
}

/// Checks filters in normal form.
pub fn validate_search_filters(filters: &SearchFilters) -> (r: Result<(), Error>)
    ensures
        verdict(r) == filter_words_fault(filters@),
{
    if let Err(e) = check_words(Vocabulary::Scope, &filters.scopes) {
        return Err(e);
    }
    if let Err(e) = check_words(Vocabulary::Kind, &filters.kinds) {
        return Err(e);
    }
    if let Err(e) = check_words(Vocabulary::Status, &filters.statuses) {
        return Err(e);
    }
    match normalized_tags(filters.tags.as_slice()) {
        Ok(_) => Ok(()),
        Err(e) => Err(e),
    }
}

/// Filters before they are brought into normal form: spaces resolved, and the
/// active status where none is named.
pub open spec fn completed_filters(f: FiltersModel) -> FiltersModel {
    FiltersModel {
        spaces: resolved_spaces(f.spaces),
        statuses: if f.statuses.len() == 0 {
            seq![STATUS_ACTIVE@]
        } else {
            f.statuses
        },
        ..f
    }
}

/// What filters stand for, or what is wrong with them.
pub open spec fn prepared_filters(f: FiltersModel) -> Result<FiltersModel, Fault> {
    let completed = completed_filters(f);
    let normal = trimmed_filters(completed);
    match first_of(filters_fault(completed), filter_words_fault(normal)) {
        Some(fault) => Err(fault),
        None => Ok(normal),
    }
}

/// Completes and checks filters.
pub fn prepare_filters(filters: &SearchFilters) -> (r: Result<SearchFilters, Error>)
    ensures
        match r {
            Ok(normal) => prepared_filters(filters@) is Ok && prepared_filters(filters@)->Ok_0
                == normal@,
            Err(e) => prepared_filters(filters@) is Err && prepared_filters(filters@)->Err_0 == e@,
        },
{
    let mut completed = filters.clone();
    completed.spaces = resolve_space_filter(&filters.spaces);
    assert(views(filters.statuses@).len() == filters.statuses@.len());
    assert(views(completed.statuses@).len() == completed.statuses@.len());
    assert(completed@.statuses == filters@.statuses);
    if filters.statuses.len() == 0 {
        completed.statuses.push(STATUS_ACTIVE.to_owned());
        assert(views(completed.statuses@) =~= seq![STATUS_ACTIVE@]);
    }
    assert(completed@ == completed_filters(filters@));
    let normal = match normalize_search_filters(completed) {
        Ok(normal) => normal,
        Err(e) => {
            return Err(e);
        },
    };
    if let Err(e) = validate_search_filters(&normal) {
        return Err(e);
    }
    Ok(normal)
}

/// Filters that leave out what is no longer current.
pub open spec fn current_only(f: FiltersModel) -> FiltersModel {
    FiltersModel { hide_expired: true, ..f }
}

/// The filters of a search: what is past its validity or its expiry never comes
/// back.
pub fn prepare_recall_filters(filters: &SearchFilters) -> (r: Result<SearchFilters, Error>)
    ensures
        match r {
            Ok(normal) => prepared_filters(current_only(filters@)) is Ok && prepared_filters(
                current_only(filters@),
            )->Ok_0 == normal@,
            Err(e) => prepared_filters(current_only(filters@)) is Err && prepared_filters(
                current_only(filters@),
            )->Err_0 == e@,
        },
{
    let mut current = filters.clone();
    current.hide_expired = true;
    assert(current@ == current_only(filters@));
    prepare_filters(&current)
}

/// What a search takes as its filters never holds a memory that is no longer
/// current, and is always about a status.
pub proof fn law_recall_is_current(f: FiltersModel)
    requires
        prepared_filters(current_only(f)) is Ok,
    ensures
        prepared_filters(current_only(f))->Ok_0.hide_expired,
        prepared_filters(current_only(f))->Ok_0.statuses.len() > 0,
        forall|i: int|
            0 <= i < prepared_filters(current_only(f))->Ok_0.statuses.len() ==> supported_status(
                #[trigger] prepared_filters(current_only(f))->Ok_0.statuses[i],
            ),
{
    let normal = prepared_filters(current_only(f))->Ok_0;
    assert forall|i: int| 0 <= i < normal.statuses.len() implies supported_status(
        #[trigger] normal.statuses[i],
    ) by {
        lemma_known_words(Vocabulary::Status, normal.statuses, i);
    }
}

proof fn lemma_known_words(vocabulary: Vocabulary, words: Seq<Seq<char>>, i: int)
    requires
        words_fault(vocabulary, words) is None,
        0 <= i < words.len(),
    ensures
        known_word(vocabulary, words[i]),
    decreases words.len(),
{
    if i < words.len() - 1 {
        lemma_known_words(vocabulary, words.drop_last(), i);
    }
}

/// The values that a statement is run with, handed out with their placeholders.
/// The first placeholders may be reserved for values that come before them.
pub struct SqlArgs {
    reserved: usize,
    values: Vec<String>,
}

/// The model of [`SqlArgs`].
pub struct ArgsModel {
    /// How many values come before.
    pub reserved: nat,
    /// The values.
    pub values: Seq<Seq<char>>,
}

impl View for SqlArgs {
    type V = ArgsModel;

    closed spec fn view(&self) -> ArgsModel {
        ArgsModel { reserved: self.reserved as nat, values: views(self.values@) }
    }
}

/// The placeholder of the value at a place, counted from one.
pub open spec fn placeholder(n: nat) -> Seq<char> {
    "?"@ + decimal(n)
}

/// The placeholders of some values after the first `before` ones.
pub open spec fn placeholder_run(before: nat, n: nat) -> Seq<char> {
    joined(Seq::new(n, |i: int| placeholder((before + i + 1) as nat)), ","@)
}

impl ArgsModel {
    /// How many values a statement is run with so far.
    pub open spec fn count(self) -> nat {
        self.reserved + self.values.len()
    }

    /// With more values.
    pub open spec fn with(self, values: Seq<Seq<char>>) -> ArgsModel {
        ArgsModel { reserved: self.reserved, values: self.values + values }
    }
}

impl SqlArgs {
    /// No values, after some that are bound elsewhere.
    pub fn with_reserved(reserved: usize) -> (r: Self)
        ensures
            r@ == (ArgsModel { reserved: reserved as nat, values: Seq::empty() }),
    {
        let values: Vec<String> = Vec::new();
        assert(views(values@) =~= Seq::empty());
        SqlArgs { reserved, values }
    }

    /// Adds a value: its placeholder.
    pub fn push(&mut self, value: &str) -> (r: String)
        requires
            old(self)@.count() < u64::MAX,
        ensures
            final(self)@ == old(self)@.with(seq![value@]),
            r@ == placeholder(old(self)@.count() + 1),
    {
        let ghost before = self.values@;
        let number: u64 = self.reserved as u64 + self.values.len() as u64 + 1;
        self.values.push(value.to_owned());
        assert(views(self.values@) =~= views(before) + seq![value@]);
        let digits = decimal_of(number);
        concat("?", digits.as_str())
    }

    /// Adds values: their placeholders.
    pub fn placeholder_list(&mut self, values: &Vec<String>) -> (r: String)
        requires
            old(self)@.count() + values@.len() < u64::MAX,
        ensures
            final(self)@ == old(self)@.with(views(values@)),
            r@ == placeholder_run(old(self)@.count(), values@.len()),
    {
        let ghost start = self@;
        let ghost all = views(values@);
        let ghost wanted = Seq::new(
            values@.len(),
            |i: int| placeholder((start.count() + i + 1) as nat),
        );
        let mut parts: Vec<String> = Vec::new();
        proof {
            assert(views(parts@) =~= wanted.take(0));
            assert(start.with(all.take(0)).values =~= start.values);
        }
        for i in 0..values.len()
            invariant
                all == views(values@),
                start.count() + values@.len() < u64::MAX,
                wanted == Seq::new(
                    values@.len(),
                    |i: int| placeholder((start.count() + i + 1) as nat),
                ),
                self@ == start.with(all.take(i as int)),
                views(parts@) == wanted.take(i as int),
        {
            let ghost before = parts@;
            let part = self.push(values[i].as_str());
            let ghost text = part@;
            parts.push(part);
            proof {
                assert(text == wanted[i as int]);
                assert(views(parts@) =~= views(before).push(wanted[i as int]));
                assert(wanted.take(i + 1) =~= wanted.take(i as int).push(wanted[i as int]));
                assert(start.values + all.take(i as int) + seq![values@[i as int]@]
                    =~= start.values + all.take(i + 1));
            }
        }
        assert(wanted.take(values@.len() as int) =~= wanted);
        assert(all.take(values@.len() as int) =~= all);
        join(parts.as_slice(), ",")
    }

    /// The values in the order of their placeholders.
    pub fn into_values(self) -> (r: Vec<String>)
        ensures
            views(r@) == self@.values,
    {
        self.values
    }
}

/// Conditions, with the values that they are about.
pub struct Conditions {
    /// The conditions.
    pub texts: Seq<Seq<char>>,
    /// The values.
    pub args: ArgsModel,
}

/// Conditions with one more: that a column has one of the given values, where
/// any is given.
pub open spec fn with_in(c: Conditions, column: Seq<char>, values: Seq<Seq<char>>) -> Conditions {
    if values.len() == 0 {
        c
    } else {
        Conditions {
            texts: c.texts.push(
                column + " IN ("@ + placeholder_run(c.args.count(), values.len()) + ")"@,
            ),
            args: c.args.with(values),
        }
    }
}

/// The condition on tags up to its values.
pub const TAGGED: &'static str = "EXISTS (SELECT 1 FROM memory_tags mt WHERE mt.memory_id = m.id AND mt.tag IN (";

/// Conditions with one more: that a memory has one of the given tags, where any
/// is given.
pub open spec fn with_tags(c: Conditions, tags: Seq<Seq<char>>) -> Conditions {
    if tags.len() == 0 {
        c
    } else {
        Conditions {
            texts: c.texts.push(TAGGED@ + placeholder_run(c.args.count(), tags.len()) + "))"@),
            args: c.args.with(tags),
        }
    }
}

/// The condition that a memory is not past its validity.
pub const STILL_VALID: &'static str = "(m.valid_to IS NULL OR julianday(m.valid_to) >= julianday('now'))";

/// The condition that a memory has not expired.
pub const NOT_EXPIRED: &'static str = "(m.expires_at IS NULL OR julianday(m.expires_at) > julianday('now'))";

/// The conditions of filters, after the given values.
pub open spec fn filter_conditions(f: FiltersModel, args: ArgsModel) -> Conditions {
    let c0 = Conditions { texts: Seq::empty(), args };
    let c1 = with_in(c0, "m.space_name"@, f.spaces);
    let c2 = with_in(c1, "m.silo_name"@, f.silos);
    let c3 = with_in(c2, "m.scope"@, f.scopes);
    let c4 = with_in(c3, "m.project_key"@, f.projects);
    let c5 = with_in(c4, "m.kind"@, f.kinds);
    let c6 = with_in(c5, "m.status"@, f.statuses);
    let c7 = with_in(c6, "m.entity_key"@, f.entity_keys);
    let c8 = with_in(c7, "m.claim_key"@, f.claim_keys);
    let c9 = with_tags(c8, normal_tags(f.tags)->Ok_0);
    if f.hide_expired {
        Conditions { texts: c9.texts.push(STILL_VALID@).push(NOT_EXPIRED@), args: c9.args }
    } else {
        c9
    }
}

/// How many values filters hold.
pub open spec fn filter_size(f: FiltersModel) -> nat {
    f.spaces.len() + f.silos.len() + f.scopes.len() + f.projects.len() + f.kinds.len()
        + f.statuses.len() + f.entity_keys.len() + f.claim_keys.len() + f.tags.len()
}

fn push_in_predicate(
    predicates: &mut Vec<String>,
    column: &str,
    values: &Vec<String>,
    args: &mut SqlArgs,
)
    requires
        old(args)@.count() + values@.len() < u64::MAX,
    ensures
        ({
            let c = with_in(
                Conditions { texts: views(old(predicates)@), args: old(args)@ },
                column@,
                views(values@),
            );
            &&& views(final(predicates)@) == c.texts
            &&& final(args)@ == c.args
        }),
{
    assert(views(values@).len() == values@.len());
    if values.len() > 0 {
        let ghost before = predicates@;
        let run = args.placeholder_list(values);
        let text = concat4(column, " IN (", run.as_str(), ")");
        let ghost added = text@;
        predicates.push(text);
        assert(views(predicates@) =~= views(before).push(added));
    }
}

/// Bringing tags into normal form keeps their number.
pub proof fn lemma_normal_tags_len(tags: Seq<Seq<char>>, seen: Seq<Seq<char>>)
    requires
        crate::validate::tags_from(tags, seen) is Ok,
    ensures
        crate::validate::tags_from(tags, seen)->Ok_0.len() == seen.len() + tags.len(),
    decreases tags.len(),
{
    if tags.len() > 0 {
        lemma_normal_tags_len(tags.skip(1), seen.push(trimmed(tags[0])));
    }
}

/// The conditions of filters; their values join the given ones.
pub fn filter_predicates(filters: &SearchFilters, args: &mut SqlArgs) -> (r: Vec<String>)
    requires
        normal_tags(filters@.tags) is Ok,
        old(args)@.count() + filter_size(filters@) < u64::MAX,
    ensures
        views(r@) == filter_conditions(filters@, old(args)@).texts,
        final(args)@ == filter_conditions(filters@, old(args)@).args,
{
    proof {
        assert(filters@.spaces.len() == filters.spaces@.len());
        assert(filters@.silos.len() == filters.silos@.len());
        assert(filters@.scopes.len() == filters.scopes@.len());
        assert(filters@.projects.len() == filters.projects@.len());
        assert(filters@.kinds.len() == filters.kinds@.len());
        assert(filters@.statuses.len() == filters.statuses@.len());
        assert(filters@.entity_keys.len() == filters.entity_keys@.len());
        assert(filters@.claim_keys.len() == filters.claim_keys@.len());
        assert(filters@.tags.len() == filters.tags@.len());
        lemma_normal_tags_len(filters@.tags, Seq::empty());
    }
    let mut predicates: Vec<String> = Vec::new();
    assert(views(predicates@) =~= Seq::empty());
    push_in_predicate(&mut predicates, "m.space_name", &filters.spaces, args);
    push_in_predicate(&mut predicates, "m.silo_name", &filters.silos, args);
    push_in_predicate(&mut predicates, "m.scope", &filters.scopes, args);
    push_in_predicate(&mut predicates, "m.project_key", &filters.projects, args);
    push_in_predicate(&mut predicates, "m.kind", &filters.kinds, args);
    push_in_predicate(&mut predicates, "m.status", &filters.statuses, args);
    push_in_predicate(&mut predicates, "m.entity_key", &filters.entity_keys, args);
    push_in_predicate(&mut predicates, "m.claim_key", &filters.claim_keys, args);
    let tags = match normalized_tags(filters.tags.as_slice()) {
        Ok(tags) => tags,
        Err(_) => Vec::new(),
    };
    assert(views(tags@) == normal_tags(filters@.tags)->Ok_0);
    assert(views(tags@).len() == tags@.len());
    if tags.len() > 0 {
        let ghost before = predicates@;
        let run = args.placeholder_list(&tags);
        let text = crate::error::concat3(TAGGED, run.as_str(), "))");
        let ghost added = text@;
        predicates.push(text);
        assert(views(predicates@) =~= views(before).push(added));
    }
    if filters.hide_expired {
        let ghost before = predicates@;
        predicates.push(STILL_VALID.to_owned());
        predicates.push(NOT_EXPIRED.to_owned());
        assert(views(predicates@) =~= views(before).push(STILL_VALID@).push(NOT_EXPIRED@));
    }
    predicates
}

/// Conditions at once; one that always holds where there is none.
pub open spec fn all_of(texts: Seq<Seq<char>>) -> Seq<char> {
    if texts.len() == 0 {
        "1=1"@
    } else {
        joined(texts, " AND "@)
    }
}

/// The conditions of filters at once.
pub fn filters_where_clause(filters: &SearchFilters, args: &mut SqlArgs) -> (r: String)
    requires
        normal_tags(filters@.tags) is Ok,
        old(args)@.count() + filter_size(filters@) < u64::MAX,
    ensures
        r@ == all_of(filter_conditions(filters@, old(args)@).texts),
        final(args)@ == filter_conditions(filters@, old(args)@).args,
{
    let predicates = filter_predicates(filters, args);
    assert(views(predicates@).len() == predicates@.len());
    if predicates.len() == 0 {
        "1=1".to_owned()
    } else {
        join(predicates.as_slice(), " AND ")
    }
}

/// The values of filters stand in the order of the filters, after the ones that
/// were there.
pub proof fn law_filter_values_in_order(f: FiltersModel, args: ArgsModel)
    requires
        normal_tags(f.tags) is Ok,
    ensures
        filter_conditions(f, args).args.reserved == args.reserved,
        filter_conditions(f, args).args.values == args.values + f.spaces + f.silos + f.scopes
            + f.projects + f.kinds + f.statuses + f.entity_keys + f.claim_keys + normal_tags(
            f.tags,
        )->Ok_0,
{
    let v1 = args.values + f.spaces;
    let v2 = v1 + f.silos;
    let v3 = v2 + f.scopes;
    let v4 = v3 + f.projects;
    let v5 = v4 + f.kinds;
    let v6 = v5 + f.statuses;
    let v7 = v6 + f.entity_keys;
    let v8 = v7 + f.claim_keys;
    let v9 = v8 + normal_tags(f.tags)->Ok_0;
    if f.spaces.len() == 0 {
        assert(v1 =~= args.values);
    }
    if f.silos.len() == 0 {
        assert(v2 =~= v1);
    }
    if f.scopes.len() == 0 {
        assert(v3 =~= v2);
    }
    if f.projects.len() == 0 {
        assert(v4 =~= v3);
    }
    if f.kinds.len() == 0 {
        assert(v5 =~= v4);
    }
    if f.statuses.len() == 0 {
        assert(v6 =~= v5);
    }
    if f.entity_keys.len() == 0 {
        assert(v7 =~= v6);
    }
    if f.claim_keys.len() == 0 {
        assert(v8 =~= v7);
    }
    if normal_tags(f.tags)->Ok_0.len() == 0 {
        assert(v9 =~= v8);
    }
}

/// The tags of a memory, from the text in which the database joins them.
pub open spec fn tags_of(tags: Seq<char>) -> Seq<Seq<char>> {
    if tags.len() == 0 {
        Seq::empty()
    } else {
        parts_by(tags, '\u{1f}')
    }
}

/// Splits the tags of a memory.
pub fn split_tags(tags: &str) -> (r: Vec<String>)
    ensures
        views(r@) == tags_of(tags@),
{
    if tags.is_empty() {
        let none: Vec<String> = Vec::new();
        assert(views(none@) =~= Seq::empty());
        none
    } else {
        split_by(tags, '\u{1f}')
    }
}

} // verus!
