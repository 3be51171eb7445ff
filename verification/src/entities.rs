//! Requests to write the graph: entities with their aliases, and relationships.

use vstd::prelude::*;

use crate::error::{concat3, invalid, invalid2, invalid4, not_found, Error, Fault};
use crate::json::{as_text, text_of, text_of_string};
use crate::pool::clone_text;
use crate::ranking::{
    in_unit_range, is_in_unit_range, key_models, positions, sort_order, sorting, KeyModel, Score,
    SortKey, SortText,
};
use crate::remember::{document_of, JsonDocument};
use crate::spaces::{normalize_space_name, space_name_fault};
use crate::text::{decimal, decimal_of, is_blank, text_eq, trim, trimmed, views};
use crate::validate::{first_of, refused_if};
use crate::vocabulary::{
    is_supported_entity_status, supported_entity_status, DEFAULT_SPACE, MAX_ENTITY_ALIASES,
    MAX_METADATA_VALUE_CHARS, MAX_SOURCE_REF_JSON_CHARS,
};
use crate::writing::{alias_form, normalized_alias, text_or, text_or_default};

verus! {

/// The message about a value that is blank or too long.
pub open spec fn bounded_message(name: Seq<char>, max: nat) -> Seq<char> {
    name + " must be non-empty and at most "@ + decimal(max) + " characters"@
}

/// The fault of an optional value.
pub open spec fn bounded_fault(name: Seq<char>, value: Option<Seq<char>>, max: nat) -> Option<Fault> {
    match value {
        Some(text) => refused_if(
            is_blank(text) || trimmed(text).len() > max,
            bounded_message(name, max),
        ),
        None => None,
    }
}

/// The fault of an optional value of the graph.
pub open spec fn graph_value_fault(name: Seq<char>, value: Option<Seq<char>>) -> Option<Fault> {
    bounded_fault(name, value, MAX_METADATA_VALUE_CHARS as nat)
}

/// An optional value without surrounding white space.
pub open spec fn core_of(value: Option<Seq<char>>) -> Option<Seq<char>> {
    match value {
        Some(text) => Some(trimmed(text)),
        None => None,
    }
}

/// Brings an optional value into normal form.
pub fn normalize_bounded(name: &str, value: Option<&str>, max: usize) -> (r: Result<
    Option<String>,
    Error,
>)
    ensures
        match r {
            Ok(core) => bounded_fault(name@, text_of(value), max as nat) is None && text_of_string(
                core,
            ) == core_of(text_of(value)),
            Err(e) => bounded_fault(name@, text_of(value), max as nat) == Some(e@),
        },
{
    match value {
        None => Ok(None),
        Some(text) => {
            let core = trim(text);
            if core.is_empty() || core.unicode_len() > max {
                let number = decimal_of(max as u64);
                return Err(
                    invalid4(
                        name,
                        " must be non-empty and at most ",
                        number.as_str(),
                        " characters",
                    ),
                );
            }
            Ok(Some(core.to_owned()))
        },
    }
}

/// Brings an optional value of the graph into normal form.
pub fn normalize_optional_graph_value(name: &str, value: Option<&str>) -> (r: Result<
    Option<String>,
    Error,
>)
    ensures
        match r {
            Ok(core) => graph_value_fault(name@, text_of(value)) is None && text_of_string(core)
                == core_of(text_of(value)),
            Err(e) => graph_value_fault(name@, text_of(value)) == Some(e@),
        },
{
    normalize_bounded(name, value, MAX_METADATA_VALUE_CHARS)
}

/// Brings a value of the graph into normal form.
pub fn normalize_required_graph_value(name: &str, value: &str) -> (r: Result<String, Error>)
    ensures
        match r {
            Ok(core) => graph_value_fault(name@, Some(value@)) is None && core@ == trimmed(value@),
            Err(e) => graph_value_fault(name@, Some(value@)) == Some(e@),
        },
{
    match normalize_optional_graph_value(name, Some(value)) {
        Ok(Some(core)) => Ok(core),
        Ok(None) => Ok(String::new()),
        Err(e) => Err(e),
    }
}

/// An alias, with the form in which it is looked up.
pub struct PreparedEntityAlias {
    /// The alias.
    pub alias: String,
    /// The form in which it is looked up.
    pub normalized_alias: String,
}

/// The model of an alias.
pub struct AliasModel {
    /// The alias.
    pub alias: Seq<char>,
    /// The form in which it is looked up.
    pub form: Seq<char>,
}

/// The models of aliases.
pub open spec fn alias_models(list: Seq<PreparedEntityAlias>) -> Seq<AliasModel> {
    list.map_values(
        |a: PreparedEntityAlias| AliasModel { alias: a.alias@, form: a.normalized_alias@ },
    )
}

/// The forms of aliases.
pub open spec fn forms(list: Seq<AliasModel>) -> Seq<Seq<char>> {
    list.map_values(|a: AliasModel| a.form)
}

/// Aliases with one more.
pub open spec fn with_alias(list: Seq<AliasModel>, value: Seq<char>) -> Result<
    Seq<AliasModel>,
    Fault,
> {
    let alias = trimmed(value);
    let form = alias_form(alias);
    if graph_value_fault("alias"@, Some(value)) is Some {
        Err(graph_value_fault("alias"@, Some(value))->0)
    } else if form.len() == 0 {
        Err(Fault::InvalidRequest("alias must contain searchable text"@))
    } else if forms(list).contains(form) {
        Err(Fault::InvalidRequest("aliases contain duplicate normalized value: "@ + form))
    } else {
        Ok(list.push(AliasModel { alias, form }))
    }
}

/// The aliases of values: each form may stand once only.
pub open spec fn aliases_of(values: Seq<Seq<char>>) -> Result<Seq<AliasModel>, Fault>
    decreases values.len(),
{
    if values.len() == 0 {
        Ok(Seq::empty())
    } else {
        match aliases_of(values.drop_last()) {
            Err(fault) => Err(fault),
            Ok(list) => with_alias(list, values.last()),
        }
    }
}

/// The sort key of an alias: by form, then by alias.
pub open spec fn alias_key(a: AliasModel) -> KeyModel {
    KeyModel { numbers: Seq::empty(), texts: seq![(a.form, false), (a.alias, false)] }
}

/// The sort keys of aliases.
pub open spec fn alias_keys(list: Seq<AliasModel>) -> Seq<KeyModel> {
    list.map_values(|a: AliasModel| alias_key(a))
}

/// Aliases in order.
pub open spec fn sorted_aliases(list: Seq<AliasModel>) -> Seq<AliasModel> {
    let order = sorting(alias_keys(list));
    Seq::new(order.len(), |i: int| list[order[i]])
}

/// The aliases of a request in normal form: in order.
pub open spec fn normal_aliases(values: Seq<Seq<char>>) -> Result<Seq<AliasModel>, Fault> {
    if values.len() > MAX_ENTITY_ALIASES {
        Err(
            Fault::InvalidRequest(
                "aliases must contain at most "@ + decimal(MAX_ENTITY_ALIASES as nat) + " values"@,
            ),
        )
    } else {
        match aliases_of(values) {
            Err(fault) => Err(fault),
            Ok(list) => Ok(sorted_aliases(list)),
        }
    }
}

proof fn lemma_aliases_prefix(values: Seq<Seq<char>>, n: int)
    requires
        0 <= n <= values.len(),
        aliases_of(values.take(n)) is Err,
    ensures
        aliases_of(values) == aliases_of(values.take(n)),
    decreases values.len() - n,
{
    if n < values.len() {
        assert(values.take(n + 1).drop_last() =~= values.take(n));
        lemma_aliases_prefix(values, n + 1);
    } else {
        assert(values.take(n) =~= values);
    }
}

fn has_form(list: &Vec<PreparedEntityAlias>, form: &str) -> (r: bool)
    ensures
        r == forms(alias_models(list@)).contains(form@),
{
    let ghost all = forms(alias_models(list@));
    for i in 0..list.len()
        invariant
            all == forms(alias_models(list@)),
            forall|k: int| 0 <= k < i ==> #[trigger] all[k] != form@,
    {
        assert(all[i as int] == list@[i as int].normalized_alias@);
        if text_eq(list[i].normalized_alias.as_str(), form) {
            return true;
        }
    }
    assert(all.len() == list@.len());
    false
}

fn sort_aliases(list: &Vec<PreparedEntityAlias>) -> (r: Vec<PreparedEntityAlias>)
    ensures
        alias_models(r@) == sorted_aliases(alias_models(list@)),
{
    let ghost models = alias_models(list@);
    let ghost wanted_keys = alias_keys(models);
    let mut keys: Vec<SortKey> = Vec::new();
    assert(key_models(keys@) =~= wanted_keys.take(0));
    for i in 0..list.len()
        invariant
            models == alias_models(list@),
            wanted_keys == alias_keys(models),
            key_models(keys@) == wanted_keys.take(i as int),
    {
        let numbers: Vec<i128> = Vec::new();
        let mut texts: Vec<SortText> = Vec::new();
        texts.push(SortText { text: list[i].normalized_alias.clone(), descending: false });
        texts.push(SortText { text: list[i].alias.clone(), descending: false });
        let key = SortKey { numbers, texts };
        proof {
            assert(key@.numbers =~= wanted_keys[i as int].numbers);
            assert(key@.texts =~= wanted_keys[i as int].texts);
        }
        let ghost before = keys@;
        keys.push(key);
        assert(key_models(keys@) =~= key_models(before).push(wanted_keys[i as int]));
        assert(wanted_keys.take(i + 1) =~= wanted_keys.take(i as int).push(
            wanted_keys[i as int],
        ));
    }
    assert(wanted_keys.take(list@.len() as int) =~= wanted_keys);
    let order = sort_order(keys.as_slice());
    let ghost wanted = sorted_aliases(models);
    let mut out: Vec<PreparedEntityAlias> = Vec::new();
    assert(alias_models(out@) =~= wanted.take(0));
    for i in 0..order.len()
        invariant
            models == alias_models(list@),
            wanted == sorted_aliases(models),
            wanted_keys == alias_keys(models),
            positions(order@) == sorting(wanted_keys),
            crate::ranking::is_sorting(positions(order@), wanted_keys),
            wanted_keys.len() == list@.len(),
            alias_models(out@) == wanted.take(i as int),
    {
        let at: usize = order[i];
        assert(positions(order@)[i as int] == at);
        let ghost before = out@;
        out.push(
            PreparedEntityAlias {
                alias: list[at].alias.clone(),
                normalized_alias: list[at].normalized_alias.clone(),
            },
        );
        assert(wanted[i as int] == models[at as int]);
        assert(alias_models(out@) =~= alias_models(before).push(wanted[i as int]));
        assert(wanted.take(i + 1) =~= wanted.take(i as int).push(wanted[i as int]));
    }
    assert(positions(order@).len() == order@.len());
    assert(wanted.take(order@.len() as int) =~= wanted);
    out
}

/// Brings the aliases of a request into normal form.
pub fn normalize_entity_aliases(values: &Vec<String>) -> (r: Result<
    Vec<PreparedEntityAlias>,
    Error,
>)
    ensures
        match r {
            Ok(list) => normal_aliases(views(values@)) is Ok && alias_models(list@)
                == normal_aliases(views(values@))->Ok_0,
            Err(e) => normal_aliases(views(values@)) is Err && normal_aliases(views(values@))->Err_0
                == e@,
        },
{
    let ghost all = views(values@);
    if values.len() > MAX_ENTITY_ALIASES {
        let number = decimal_of(MAX_ENTITY_ALIASES as u64);
        let message = concat3("aliases must contain at most ", number.as_str(), " values");
        return Err(invalid(message.as_str()));
    }
    let mut list: Vec<PreparedEntityAlias> = Vec::new();
    assert(alias_models(list@) =~= Seq::empty());
    for i in 0..values.len()
        invariant
            all == views(values@),
            all.len() <= MAX_ENTITY_ALIASES,
            aliases_of(all.take(i as int)) is Ok,
            aliases_of(all.take(i as int))->Ok_0 == alias_models(list@),
    {
        proof {
            assert(all.take(i + 1).drop_last() =~= all.take(i as int));
            assert(all.take(i + 1).last() == all[i as int]);
            if aliases_of(all.take(i + 1)) is Err {
                lemma_aliases_prefix(all, i + 1);
            }
        }
        let alias = match normalize_required_graph_value("alias", values[i].as_str()) {
            Ok(alias) => alias,
            Err(e) => {
                return Err(e);
            },
        };
        let form = normalized_alias(alias.as_str());
        if form.as_str().is_empty() {
            return Err(invalid("alias must contain searchable text"));
        }
        if has_form(&list, form.as_str()) {
            return Err(invalid2("aliases contain duplicate normalized value: ", form.as_str()));
        }
        let ghost before = alias_models(list@);
        let ghost model = AliasModel { alias: alias@, form: form@ };
        list.push(PreparedEntityAlias { alias, normalized_alias: form });
        assert(alias_models(list@) =~= before.push(model));
    }
    assert(all.take(values@.len() as int) =~= all);
    Ok(sort_aliases(&list))
}

/// Request to create or update an entity.
pub struct EntityUpsertRequest {
    /// Space.
    pub space: Option<String>,
    /// Key.
    pub entity_key: String,
    /// Type.
    pub entity_type: Option<String>,
    /// Name.
    pub canonical_name: String,
    /// Aliases.
    pub aliases: Vec<String>,
    /// Status.
    pub status: Option<String>,
    /// Confidence.
    pub confidence: Score,
    /// Source episode.
    pub source_episode_id: Option<String>,
    /// Metadata.
    pub metadata_json: Option<JsonDocument>,
    /// Whether the source comes back.
    pub include_source: bool,
}

/// A request that was checked.
pub struct PreparedEntityUpsertRequest {
    /// Space.
    pub space: String,
    /// Key.
    pub entity_key: String,
    /// Type.
    pub entity_type: String,
    /// Name.
    pub canonical_name: String,
    /// Aliases in order.
    pub aliases: Vec<PreparedEntityAlias>,
    /// Status.
    pub status: String,
    /// Confidence.
    pub confidence: Score,
    /// Source episode.
    pub source_episode_id: Option<String>,
    /// Metadata.
    pub metadata_json: Option<String>,
    /// Whether the source comes back.
    pub include_source: bool,
}

/// The fault of optional metadata.
pub open spec fn graph_metadata_fault(document: Option<JsonDocument>) -> Option<Fault> {
    refused_if(
        crate::integrity::bad_document(document),
        "metadata_json must be a valid JSON object"@,
    )
}

/// Checks optional metadata: its text.
pub fn normalize_optional_json_object(document: &Option<JsonDocument>) -> (r: Result<
    Option<String>,
    Error,
>)
    ensures
        match r {
            Ok(text) => graph_metadata_fault(*document) is None && text_of_string(text)
                == document_of(*document),
            Err(e) => graph_metadata_fault(*document) == Some(e@),
        },
{
    match document {
        None => Ok(None),
        Some(d) => if d.text.as_str().unicode_len() > MAX_SOURCE_REF_JSON_CHARS || !d.is_object() {
            Err(invalid("metadata_json must be a valid JSON object"))
        } else {
            Ok(Some(d.text.clone()))
        },
    }
}

/// The fault of a request to write an entity.
pub open spec fn entity_request_fault(request: EntityUpsertRequest) -> Option<Fault> {
    let status = text_or(core_of(text_of_string(request.status)), "active"@);
    first_of(
        space_name_fault(text_of_string(request.space)),
        first_of(
            graph_value_fault("entity_key"@, Some(request.entity_key@)),
            first_of(
                graph_value_fault("entity_type"@, text_of_string(request.entity_type)),
                first_of(
                    graph_value_fault("canonical_name"@, Some(request.canonical_name@)),
                    first_of(
                        graph_value_fault("status"@, text_of_string(request.status)),
                        first_of(
                            refused_if(
                                !supported_entity_status(status),
                                "unsupported entity status: "@ + status,
                            ),
                            first_of(
                                refused_if(
                                    !in_unit_range(request.confidence),
                                    "confidence must be between 0.0 and 1.0"@,
                                ),
                                first_of(
                                    graph_value_fault(
                                        "source_episode_id"@,
                                        text_of_string(request.source_episode_id),
                                    ),
                                    first_of(
                                        graph_metadata_fault(request.metadata_json),
                                        crate::records::fault_of(
                                            normal_aliases(views(request.aliases@)),
                                        ),
                                    ),
                                ),
                            ),
                        ),
                    ),
                ),
            ),
        ),
    )
}

/// Whether a prepared request is what a request asks for.
pub open spec fn prepares_entity(
    request: EntityUpsertRequest,
    r: PreparedEntityUpsertRequest,
) -> bool {
    &&& r.space@ == text_or(text_of_string(request.space), DEFAULT_SPACE@)
    &&& r.entity_key@ == trimmed(request.entity_key@)
    &&& r.entity_type@ == text_or(core_of(text_of_string(request.entity_type)), "Entity"@)
    &&& r.canonical_name@ == trimmed(request.canonical_name@)
    &&& alias_models(r.aliases@) == normal_aliases(views(request.aliases@))->Ok_0
    &&& r.status@ == text_or(core_of(text_of_string(request.status)), "active"@)
    &&& r.confidence == request.confidence
    &&& text_of_string(r.source_episode_id) == core_of(text_of_string(request.source_episode_id))
    &&& text_of_string(r.metadata_json) == document_of(request.metadata_json)
    &&& r.include_source == request.include_source
}

/// Checks a request to write an entity.
pub fn prepare_entity_upsert_request(request: &EntityUpsertRequest) -> (r: Result<
    PreparedEntityUpsertRequest,
    Error,
>)
    ensures
        match r {
            Ok(prepared) => entity_request_fault(*request) is None && prepares_entity(
                *request,
                prepared,
            ),
            Err(e) => entity_request_fault(*request) == Some(e@),
        },
{
    let space = match normalize_space_name(as_text(&request.space)) {
        Ok(space) => space,
        Err(e) => {
            return Err(e);
        },
    };
    let entity_key = match normalize_required_graph_value(
        "entity_key",
        request.entity_key.as_str(),
    ) {
        Ok(value) => value,
        Err(e) => {
            return Err(e);
        },
    };
    let entity_type = match normalize_optional_graph_value(
        "entity_type",
        as_text(&request.entity_type),
    ) {
        Ok(value) => value,
        Err(e) => {
            return Err(e);
        },
    };
    let canonical_name = match normalize_required_graph_value(
        "canonical_name",
        request.canonical_name.as_str(),
    ) {
        Ok(value) => value,
        Err(e) => {
            return Err(e);
        },
    };
    let status = match normalize_optional_graph_value("status", as_text(&request.status)) {
        Ok(value) => text_or_default(&value, "active"),
        Err(e) => {
            return Err(e);
        },
    };
    if !is_supported_entity_status(status.as_str()) {
        return Err(invalid2("unsupported entity status: ", status.as_str()));
    }
    if !is_in_unit_range(request.confidence) {
        return Err(invalid("confidence must be between 0.0 and 1.0"));
    }
    let source_episode_id = match normalize_optional_graph_value(
        "source_episode_id",
        as_text(&request.source_episode_id),
    ) {
        Ok(value) => value,
        Err(e) => {
            return Err(e);
        },
    };
    let metadata_json = match normalize_optional_json_object(&request.metadata_json) {
        Ok(value) => value,
        Err(e) => {
            return Err(e);
        },
    };
    let aliases = match normalize_entity_aliases(&request.aliases) {
        Ok(list) => list,
        Err(e) => {
            return Err(e);
        },
    };
    Ok(
        PreparedEntityUpsertRequest {
            space: text_or_default(&space, DEFAULT_SPACE),
            entity_key,
            entity_type: text_or_default(&entity_type, "Entity"),
            canonical_name,
            aliases,
            status,
            confidence: request.confidence,
            source_episode_id,
            metadata_json,
            include_source: request.include_source,
        },
    )
}

/// What the store knows of an entity that is written.
pub struct EntityFacts {
    /// Whether the space exists.
    pub space_exists: bool,
    /// Whether the source episode is in the space.
    pub source_episode_exists: bool,
    /// The entity with the key.
    pub existing_id: Option<String>,
    /// Its source episode.
    pub existing_source: Option<String>,
    /// Its metadata.
    pub existing_metadata: Option<String>,
    /// An id for a new entity.
    pub new_id: String,
}

/// What is written for an entity.
pub struct EntityUpsertPlan {
    /// Id of the entity.
    pub entity_id: String,
    /// Whether it is new.
    pub created: bool,
    /// Source episode: the one that is there stays where none is named.
    pub source_episode_id: Option<String>,
    /// Metadata: what is there stays where none is given.
    pub metadata_json: Option<String>,
    /// Aliases that are written: the name is one of them.
    pub aliases: Vec<PreparedEntityAlias>,
}

/// A text where there is one, else another.
pub open spec fn or_kept(value: Option<Seq<char>>, kept: Option<Seq<char>>) -> Option<Seq<char>> {
    if value is Some {
        value
    } else {
        kept
    }
}

/// A copy of a text where there is one, else of another.
pub fn or_kept_text(value: &Option<String>, kept: &Option<String>) -> (r: Option<String>)
    ensures
        text_of_string(r) == or_kept(text_of_string(*value), text_of_string(*kept)),
{
    match value {
        Some(text) => Some(text.clone()),
        None => clone_text(kept),
    }
}

/// Whether a plan writes a checked entity.
pub open spec fn plans_entity(
    prepared: PreparedEntityUpsertRequest,
    facts: EntityFacts,
    plan: EntityUpsertPlan,
) -> bool {
    &&& plan.created == facts.existing_id is None
    &&& plan.entity_id@ == text_or(text_of_string(facts.existing_id), facts.new_id@)
    &&& text_of_string(plan.source_episode_id) == or_kept(
        text_of_string(prepared.source_episode_id),
        text_of_string(facts.existing_source),
    )
    &&& text_of_string(plan.metadata_json) == or_kept(
        text_of_string(prepared.metadata_json),
        text_of_string(facts.existing_metadata),
    )
    &&& alias_models(plan.aliases@) == written_aliases(
        alias_models(prepared.aliases@),
        prepared.canonical_name@,
    )
}

/// Aliases without those of a form.
pub open spec fn without_form(list: Seq<AliasModel>, form: Seq<char>) -> Seq<AliasModel>
    decreases list.len(),
{
    if list.len() == 0 {
        list
    } else if list.last().form == form {
        without_form(list.drop_last(), form)
    } else {
        without_form(list.drop_last(), form).push(list.last())
    }
}

/// The aliases that are written for an entity: its name takes the place of an
/// alias with the same form.
pub open spec fn written_aliases(list: Seq<AliasModel>, name: Seq<char>) -> Seq<AliasModel> {
    without_form(list, alias_form(name)).push(AliasModel { alias: name, form: alias_form(name) })
}

/// The fault of an entity against what the store knows.
pub open spec fn entity_facts_fault(
    space: Seq<char>,
    source_episode_id: Option<Seq<char>>,
    facts: EntityFacts,
) -> Option<Fault> {
    if !facts.space_exists {
        Some(Fault::NotFound("space"@, space))
    } else {
        match source_episode_id {
            Some(id) => if facts.source_episode_exists {
                None
            } else {
                Some(Fault::NotFound("source_episode"@, id))
            },
            None => None,
        }
    }
}

fn aliases_with_name(list: &Vec<PreparedEntityAlias>, name: &str) -> (r: Vec<PreparedEntityAlias>)
    ensures
        alias_models(r@) == written_aliases(alias_models(list@), name@),
{
    let form = normalized_alias(name);
    let ghost models = alias_models(list@);
    let mut out: Vec<PreparedEntityAlias> = Vec::new();
    assert(alias_models(out@) =~= without_form(models.take(0), form@));
    for i in 0..list.len()
        invariant
            models == alias_models(list@),
            alias_models(out@) == without_form(models.take(i as int), form@),
    {
        assert(models.take(i + 1).drop_last() =~= models.take(i as int));
        assert(models.take(i + 1).last() == models[i as int]);
        if !text_eq(list[i].normalized_alias.as_str(), form.as_str()) {
            let ghost before = out@;
            out.push(
                PreparedEntityAlias {
                    alias: list[i].alias.clone(),
                    normalized_alias: list[i].normalized_alias.clone(),
                },
            );
            assert(alias_models(out@) =~= alias_models(before).push(models[i as int]));
        }
    }
    assert(models.take(list@.len() as int) =~= models);
    let ghost before = out@;
    let ghost last = AliasModel { alias: name@, form: form@ };
    out.push(PreparedEntityAlias { alias: name.to_owned(), normalized_alias: form });
    assert(alias_models(out@) =~= alias_models(before).push(last));
    out
}

/// Decides what is written for an entity that was checked.
pub fn upsert_entity_tx(prepared: &PreparedEntityUpsertRequest, facts: &EntityFacts) -> (r: Result<
    EntityUpsertPlan,
    Error,
>)
    ensures
        match r {
            Ok(plan) => {
                &&& entity_facts_fault(
                    prepared.space@,
                    text_of_string(prepared.source_episode_id),
                    *facts,
                ) is None
                &&& plans_entity(*prepared, *facts, plan)
            },
            Err(e) => entity_facts_fault(
                prepared.space@,
                text_of_string(prepared.source_episode_id),
                *facts,
            ) == Some(e@),
        },
{
    if !facts.space_exists {
        return Err(not_found("space", prepared.space.as_str()));
    }
    if let Some(id) = &prepared.source_episode_id {
        if !facts.source_episode_exists {
            return Err(not_found("source_episode", id.as_str()));
        }
    }
    Ok(
        EntityUpsertPlan {
            entity_id: text_or_default(&facts.existing_id, facts.new_id.as_str()),
            created: facts.existing_id.is_none(),
            source_episode_id: or_kept_text(&prepared.source_episode_id, &facts.existing_source),
            metadata_json: or_kept_text(&prepared.metadata_json, &facts.existing_metadata),
            aliases: aliases_with_name(&prepared.aliases, prepared.canonical_name.as_str()),
        },
    )
}

/// Checks a request to write an entity, and decides what is written.
pub fn upsert_entity(request: &EntityUpsertRequest, facts: &EntityFacts) -> (r: Result<
    (PreparedEntityUpsertRequest, EntityUpsertPlan),
    Error,
>)
    ensures
        match r {
            Ok((prepared, plan)) => {
                &&& entity_request_fault(*request) is None
                &&& entity_facts_fault(
                    text_or(text_of_string(request.space), DEFAULT_SPACE@),
                    core_of(text_of_string(request.source_episode_id)),
                    *facts,
                ) is None
                &&& prepares_entity(*request, prepared)
                &&& plans_entity(prepared, *facts, plan)
                &&& plan.created == facts.existing_id is None
                &&& plan.entity_id@ == text_or(text_of_string(facts.existing_id), facts.new_id@)
                &&& alias_models(plan.aliases@) == written_aliases(
                    normal_aliases(views(request.aliases@))->Ok_0,
                    trimmed(request.canonical_name@),
                )
            },
            Err(e) => first_of(
                entity_request_fault(*request),
                entity_facts_fault(
                    text_or(text_of_string(request.space), DEFAULT_SPACE@),
                    core_of(text_of_string(request.source_episode_id)),
                    *facts,
                ),
            ) == Some(e@),
        },
{
    let prepared = match prepare_entity_upsert_request(request) {
        Ok(prepared) => prepared,
        Err(e) => {
            return Err(e);
        },
    };
    match upsert_entity_tx(&prepared, facts) {
        Ok(plan) => Ok((prepared, plan)),
        Err(e) => Err(e),
    }
}

/// What the store holds of an entity.
#[verifier::ext_equal]
pub struct StoredEntity {
    /// Id.
    pub id: Seq<char>,
    /// Type.
    pub entity_type: Seq<char>,
    /// Name.
    pub canonical_name: Seq<char>,
    /// Status.
    pub status: Seq<char>,
    /// Confidence.
    pub confidence: Score,
    /// Source episode.
    pub source_episode_id: Option<Seq<char>>,
    /// Metadata.
    pub metadata_json: Option<Seq<char>>,
    /// Aliases by their forms.
    pub aliases: Map<Seq<char>, Seq<char>>,
}

/// Aliases after more of them were written, each in place of one with its form.
pub open spec fn put_aliases(
    aliases: Map<Seq<char>, Seq<char>>,
    more: Seq<AliasModel>,
) -> Map<Seq<char>, Seq<char>>
    decreases more.len(),
{
    if more.len() == 0 {
        aliases
    } else {
        put_aliases(aliases, more.drop_last()).insert(more.last().form, more.last().alias)
    }
}

/// The entities of a store, by space and key, after one was written.
pub open spec fn entities_after(
    entities: Map<(Seq<char>, Seq<char>), StoredEntity>,
    prepared: PreparedEntityUpsertRequest,
    plan: EntityUpsertPlan,
) -> Map<(Seq<char>, Seq<char>), StoredEntity> {
    let place = (prepared.space@, prepared.entity_key@);
    entities.insert(
        place,
        StoredEntity {
            id: plan.entity_id@,
            entity_type: prepared.entity_type@,
            canonical_name: prepared.canonical_name@,
            status: prepared.status@,
            confidence: prepared.confidence,
            source_episode_id: text_of_string(plan.source_episode_id),
            metadata_json: text_of_string(plan.metadata_json),
            aliases: put_aliases(
                if entities.dom().contains(place) {
                    entities[place].aliases
                } else {
                    Map::empty()
                },
                alias_models(plan.aliases@),
            ),
        },
    )
}

/// Whether facts of an entity are read from the entities of a store.
pub open spec fn reads_entities(
    facts: EntityFacts,
    prepared: PreparedEntityUpsertRequest,
    entities: Map<(Seq<char>, Seq<char>), StoredEntity>,
) -> bool {
    let place = (prepared.space@, prepared.entity_key@);
    if entities.dom().contains(place) {
        &&& text_of_string(facts.existing_id) == Some(entities[place].id)
        &&& text_of_string(facts.existing_source) == entities[place].source_episode_id
        &&& text_of_string(facts.existing_metadata) == entities[place].metadata_json
    } else {
        &&& facts.existing_id is None
        &&& facts.existing_source is None
        &&& facts.existing_metadata is None
    }
}

proof fn lemma_put_twice(
    aliases: Map<Seq<char>, Seq<char>>,
    list: Seq<AliasModel>,
    more: Seq<AliasModel>,
    form: Seq<char>,
)
    requires
        list.len() <= more.len(),
        list == more.take(list.len() as int),
    ensures
        ({
            let once = put_aliases(aliases, more);
            let twice = put_aliases(once, list);
            &&& once.dom().contains(form) ==> twice.dom().contains(form)
            &&& forms(list).contains(form) ==> twice.dom().contains(form) && twice[form]
                == put_aliases(aliases, list)[form]
            &&& !forms(list).contains(form) ==> twice.dom().contains(form) == once.dom().contains(
                form,
            ) && twice[form] == once[form]
        }),
    decreases list.len(),
{
    if list.len() > 0 {
        let rest = list.drop_last();
        assert(rest =~= more.take(rest.len() as int));
        lemma_put_twice(aliases, rest, more, form);
        crate::order::lemma_push_contains(forms(rest), list.last().form, form);
        assert(forms(list) =~= forms(rest).push(list.last().form));
    } else {
        assert(forms(list) =~= Seq::empty());
    }
}

proof fn lemma_put_is_idempotent(aliases: Map<Seq<char>, Seq<char>>, list: Seq<AliasModel>)
    ensures
        put_aliases(put_aliases(aliases, list), list) == put_aliases(aliases, list),
{
    let once = put_aliases(aliases, list);
    let twice = put_aliases(once, list);
    assert(list =~= list.take(list.len() as int));
    assert forall|form: Seq<char>| #[trigger] twice.dom().contains(form) == once.dom().contains(
        form,
    ) by {
        lemma_put_twice(aliases, list, list, form);
        lemma_put_names(aliases, list, form);
    }
    assert forall|form: Seq<char>| once.dom().contains(form) implies #[trigger] twice[form]
        == once[form] by {
        lemma_put_twice(aliases, list, list, form);
    }
    assert(twice =~= once);
}

proof fn lemma_put_names(
    aliases: Map<Seq<char>, Seq<char>>,
    list: Seq<AliasModel>,
    form: Seq<char>,
)
    ensures
        forms(list).contains(form) ==> put_aliases(aliases, list).dom().contains(form),
    decreases list.len(),
{
    if list.len() > 0 {
        let rest = list.drop_last();
        lemma_put_names(aliases, rest, form);
        crate::order::lemma_push_contains(forms(rest), list.last().form, form);
        assert(forms(list) =~= forms(rest).push(list.last().form));
    } else {
        assert(forms(list) =~= Seq::empty());
    }
}

/// Writing an entity twice is writing it once: it is created exactly where the
/// space has no entity of the key, and the same request again creates nothing, keeps
/// the id, and leaves the store as it is, aliases included. Metadata that is not
/// given stays as it was.
pub proof fn law_entity_upsert_is_idempotent(
    prepared: PreparedEntityUpsertRequest,
    entities: Map<(Seq<char>, Seq<char>), StoredEntity>,
    facts: EntityFacts,
    plan: EntityUpsertPlan,
    later: EntityFacts,
    again: EntityUpsertPlan,
)
    requires
        reads_entities(facts, prepared, entities),
        plans_entity(prepared, facts, plan),
        reads_entities(later, prepared, entities_after(entities, prepared, plan)),
        plans_entity(prepared, later, again),
    ensures
        plan.created <==> !entities.dom().contains((prepared.space@, prepared.entity_key@)),
        !again.created,
        again.entity_id@ == plan.entity_id@,
        alias_models(again.aliases@) == alias_models(plan.aliases@),
        entities_after(entities_after(entities, prepared, plan), prepared, again)
            == entities_after(entities, prepared, plan),
        prepared.metadata_json is None && !plan.created ==> text_of_string(plan.metadata_json)
            == entities[(prepared.space@, prepared.entity_key@)].metadata_json,
{
    let place = (prepared.space@, prepared.entity_key@);
    let after = entities_after(entities, prepared, plan);
    let before = if entities.dom().contains(place) {
        entities[place].aliases
    } else {
        Map::empty()
    };
    lemma_put_is_idempotent(before, alias_models(plan.aliases@));
    let twice = entities_after(after, prepared, again);
    assert(twice[place] == after[place]);
    assert(twice =~= after);
}

proof fn lemma_without_form(list: Seq<AliasModel>, form: Seq<char>, i: int)
    requires
        0 <= i < without_form(list, form).len(),
    ensures
        without_form(list, form)[i].form != form,
    decreases list.len(),
{
    if list.len() > 0 {
        let rest = without_form(list.drop_last(), form);
        if i < rest.len() {
            lemma_without_form(list.drop_last(), form, i);
        }
    }
}

/// The name of an entity is its only alias with the form of the name.
pub proof fn law_name_is_an_alias_once(list: Seq<AliasModel>, name: Seq<char>)
    ensures
        ({
            let written = written_aliases(list, name);
            &&& written.last() == (AliasModel { alias: name, form: alias_form(name) })
            &&& forall|i: int|
                0 <= i < written.len() - 1 ==> (#[trigger] written[i]).form != alias_form(name)
        }),
{
    let kept = without_form(list, alias_form(name));
    let written = written_aliases(list, name);
    assert forall|i: int| 0 <= i < written.len() - 1 implies (#[trigger] written[i]).form
        != alias_form(name) by {
        lemma_without_form(list, alias_form(name), i);
        assert(written[i] == kept[i]);
    }
}

proof fn lemma_forms_distinct(values: Seq<Seq<char>>)
    requires
        aliases_of(values) is Ok,
    ensures
        forms(aliases_of(values)->Ok_0).no_duplicates(),
    decreases values.len(),
{
    if values.len() > 0 {
        let rest = values.drop_last();
        lemma_forms_distinct(rest);
        let list = aliases_of(rest)->Ok_0;
        let more = aliases_of(values)->Ok_0;
        assert(forms(more) =~= forms(list).push(alias_form(trimmed(values.last()))));
        assert forall|i: int, j: int| 0 <= i < forms(more).len() && 0 <= j < forms(more).len() && i
            != j implies forms(more)[i] != forms(more)[j] by {
            if i < list.len() && j < list.len() {
                assert(forms(list)[i] != forms(list)[j]);
            } else if i < list.len() {
                assert(forms(list).contains(forms(list)[i]));
            } else {
                assert(forms(list).contains(forms(list)[j]));
            }
        }
    }
}

/// The aliases of an accepted request are looked up by different forms.
pub proof fn law_alias_forms_are_distinct(values: Seq<Seq<char>>)
    requires
        normal_aliases(values) is Ok,
    ensures
        forms(normal_aliases(values)->Ok_0).no_duplicates(),
{
    lemma_forms_distinct(values);
    let list = aliases_of(values)->Ok_0;
    let keys = alias_keys(list);
    crate::ranking::law_sorting_exists(keys);
    let order = sorting(keys);
    crate::ranking::law_sorting_is_injective(order, keys);
    let sorted = sorted_aliases(list);
    assert forall|i: int, j: int| 0 <= i < forms(sorted).len() && 0 <= j < forms(sorted).len() && i
        != j implies forms(sorted)[i] != forms(sorted)[j] by {
        assert(forms(sorted)[i] == forms(list)[order[i]]);
        assert(forms(sorted)[j] == forms(list)[order[j]]);
        assert(order[i] != order[j]);
    }
}

} // verus!
