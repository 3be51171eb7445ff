//! Spaces and their silos.

use vstd::prelude::*;

use crate::error::{invalid, invalid2, invalid4, Error, Fault};
use crate::json::{as_text, text_of, text_of_string};
use crate::remember::JsonDocument;
use crate::text::{decimal, decimal_of, text_eq};
use crate::validate::{canonical, first_of, is_canonical, refused_if};
use crate::vocabulary::{
    ALL_SPACES, DEFAULT_DURABLE_SILO, DEFAULT_SPACE, MAX_METADATA_VALUE_CHARS, MAX_SILO_LIST_LIMIT,
    MAX_SOURCE_REF_JSON_CHARS, MAX_SPACE_LIST_LIMIT, MAX_SUMMARY_CHARS, SCOPE_WORKSPACE,
    SHORT_TERM_SILO,
};

verus! {

/// Request to create a space.
pub struct SpaceCreateRequest {
    /// Name.
    pub name: String,
    /// Name for people.
    pub display_name: Option<String>,
    /// Description.
    pub description: Option<String>,
    /// Silo that is used where none is named.
    pub default_silo: Option<String>,
    /// Ontology.
    pub ontology: Option<String>,
    /// Configuration.
    pub config_json: Option<JsonDocument>,
    /// Whether an existing space is fine.
    pub if_not_exists: bool,
}

/// A space, as listed.
pub struct SpaceRecord {
    /// Name.
    pub name: String,
    /// Name for people.
    pub display_name: Option<String>,
    /// Description.
    pub description: Option<String>,
    /// Default silo.
    pub default_silo: String,
    /// Ontology.
    pub ontology: Option<String>,
    /// Configuration.
    pub config_json: Option<String>,
    /// When it was made.
    pub created_at: String,
    /// When it was last changed.
    pub updated_at: String,
    /// Memories in it.
    pub memory_count: i64,
    /// Active memories in it.
    pub active_count: i64,
    /// Silos in it.
    pub silo_count: i64,
}

/// A silo, as listed.
pub struct SiloRecord {
    /// Space.
    pub space: String,
    /// Name.
    pub name: String,
    /// Description.
    pub description: Option<String>,
    /// How long its memories are kept.
    pub retention_policy: String,
    /// Scope of memories without one.
    pub default_scope: String,
    /// Configuration.
    pub config_json: Option<String>,
    /// When it was made.
    pub created_at: String,
    /// When it was last changed.
    pub updated_at: String,
    /// Memories in it.
    pub memory_count: i64,
    /// Active memories in it.
    pub active_count: i64,
    /// Whether it is the default of its space.
    pub is_default: bool,
}

/// The listed spaces.
pub struct SpaceListReport {
    /// The spaces by name.
    pub spaces: Vec<SpaceRecord>,
    /// Whether there are more.
    pub truncated: bool,
}

/// The listed silos of a space.
pub struct SiloListReport {
    /// The space.
    pub space: String,
    /// The silos.
    pub silos: Vec<SiloRecord>,
    /// Whether there are more.
    pub truncated: bool,
}

/// The fault of the name of a space or silo.
pub open spec fn component_fault(name: Seq<char>, value: Seq<char>) -> Option<Fault> {
    first_of(
        refused_if(
            !is_canonical(value, MAX_METADATA_VALUE_CHARS as nat),
            name + " must be canonical, non-empty, and at most 256 characters"@,
        ),
        refused_if(
            value == ALL_SPACES@,
            name + " must not be the reserved all-spaces sentinel \"*\""@,
        ),
    )
}

/// Checks the name of a space or silo. The marker of all spaces is never one.
pub fn normalize_required_space_component(name: &str, value: &str) -> (r: Result<String, Error>)
    ensures
        match r {
            Ok(text) => component_fault(name@, value@) is None && text@ == value@,
            Err(e) => component_fault(name@, value@) == Some(e@),
        },
{
    if !canonical(value, MAX_METADATA_VALUE_CHARS) {
        return Err(
            invalid2(name, " must be canonical, non-empty, and at most 256 characters"),
        );
    }
    if text_eq(value, ALL_SPACES) {
        return Err(invalid2(name, " must not be the reserved all-spaces sentinel \"*\""));
    }
    Ok(value.to_owned())
}

/// The fault of an optional space name.
pub open spec fn space_name_fault(value: Option<Seq<char>>) -> Option<Fault> {
    match value {
        Some(text) => component_fault("space"@, text),
        None => None,
    }
}

/// Checks an optional space name.
pub fn normalize_space_name(value: Option<&str>) -> (r: Result<Option<String>, Error>)
    ensures
        match r {
            Ok(text) => space_name_fault(text_of(value)) is None && text_of_string(text) == text_of(
                value,
            ),
            Err(e) => space_name_fault(text_of(value)) == Some(e@),
        },
{
    match value {
        Some(text) => match normalize_required_space_component("space", text) {
            Ok(name) => Ok(Some(name)),
            Err(e) => Err(e),
        },
        None => Ok(None),
    }
}

/// The fault of an optional text for people.
pub open spec fn human_text_fault(name: Seq<char>, value: Option<Seq<char>>, max: nat) -> Option<
    Fault,
> {
    match value {
        Some(text) => refused_if(
            !is_canonical(text, max),
            name + " must be canonical, non-empty, and at most "@ + decimal(max) + " characters"@,
        ),
        None => None,
    }
}

/// Checks an optional text for people.
pub fn normalize_optional_human_text(name: &str, value: Option<&str>, max_chars: usize) -> (r:
    Result<Option<String>, Error>)
    ensures
        match r {
            Ok(text) => human_text_fault(name@, text_of(value), max_chars as nat) is None
                && text_of_string(text) == text_of(value),
            Err(e) => human_text_fault(name@, text_of(value), max_chars as nat) == Some(e@),
        },
{
    match value {
        None => Ok(None),
        Some(text) => {
            if !canonical(text, max_chars) {
                let number = decimal_of(max_chars as u64);
                Err(
                    invalid4(
                        name,
                        " must be canonical, non-empty, and at most ",
                        number.as_str(),
                        " characters",
                    ),
                )
            } else {
                Ok(Some(text.to_owned()))
            }
        },
    }
}

/// The first fault of a request to create a space.
pub open spec fn space_request_fault(request: SpaceCreateRequest) -> Option<Fault> {
    first_of(
        component_fault("space"@, request.name@),
        first_of(
            space_name_fault(text_of_string(request.default_silo)),
            first_of(
                human_text_fault(
                    "display_name"@,
                    text_of_string(request.display_name),
                    MAX_METADATA_VALUE_CHARS as nat,
                ),
                first_of(
                    human_text_fault(
                        "description"@,
                        text_of_string(request.description),
                        MAX_SUMMARY_CHARS as nat,
                    ),
                    first_of(
                        human_text_fault(
                            "ontology"@,
                            text_of_string(request.ontology),
                            MAX_SOURCE_REF_JSON_CHARS as nat,
                        ),
                        match request.config_json {
                            Some(document) => refused_if(
                                document.text@.len() > MAX_SOURCE_REF_JSON_CHARS
                                    || !document.holds_object(),
                                "config_json must be a valid JSON object"@,
                            ),
                            None => None,
                        },
                    ),
                ),
            ),
        ),
    )
}

/// A checked request to create a space.
pub struct NormalizedSpaceCreateRequest {
    /// Name.
    pub name: String,
    /// Name for people.
    pub display_name: Option<String>,
    /// Description.
    pub description: Option<String>,
    /// Default silo.
    pub default_silo: String,
    /// Ontology.
    pub ontology: Option<String>,
    /// Configuration.
    pub config_json: Option<String>,
    /// Whether an existing space is fine.
    pub if_not_exists: bool,
}

/// The default silo of a new space.
pub open spec fn chosen_silo(request: SpaceCreateRequest) -> Seq<char> {
    match text_of_string(request.default_silo) {
        Some(silo) => silo,
        None => DEFAULT_DURABLE_SILO@,
    }
}

/// Checks a request to create a space.
pub fn validate_space_create_request(request: &SpaceCreateRequest) -> (r: Result<
    NormalizedSpaceCreateRequest,
    Error,
>)
    ensures
        match r {
            Ok(n) => {
                &&& space_request_fault(*request) is None
                &&& n.name@ == request.name@
                &&& text_of_string(n.display_name) == text_of_string(request.display_name)
                &&& text_of_string(n.description) == text_of_string(request.description)
                &&& n.default_silo@ == chosen_silo(*request)
                &&& text_of_string(n.ontology) == text_of_string(request.ontology)
                &&& text_of_string(n.config_json) == crate::remember::document_of(
                    request.config_json,
                )
                &&& n.if_not_exists == request.if_not_exists
            },
            Err(e) => space_request_fault(*request) == Some(e@),
        },
{
    let name = match normalize_required_space_component("space", request.name.as_str()) {
        Ok(name) => name,
        Err(e) => {
            return Err(e);
        },
    };
    let default_silo = match normalize_space_name(as_text(&request.default_silo)) {
        Ok(Some(silo)) => silo,
        Ok(None) => DEFAULT_DURABLE_SILO.to_owned(),
        Err(e) => {
            return Err(e);
        },
    };
    let display_name = match normalize_optional_human_text(
        "display_name",
        as_text(&request.display_name),
        MAX_METADATA_VALUE_CHARS,
    ) {
        Ok(text) => text,
        Err(e) => {
            return Err(e);
        },
    };
    let description = match normalize_optional_human_text(
        "description",
        as_text(&request.description),
        MAX_SUMMARY_CHARS,
    ) {
        Ok(text) => text,
        Err(e) => {
            return Err(e);
        },
    };
    let ontology = match normalize_optional_human_text(
        "ontology",
        as_text(&request.ontology),
        MAX_SOURCE_REF_JSON_CHARS,
    ) {
        Ok(text) => text,
        Err(e) => {
            return Err(e);
        },
    };
    let config_json = match &request.config_json {
        Some(document) => {
            if document.text.as_str().unicode_len() > MAX_SOURCE_REF_JSON_CHARS
                || !document.is_object() {
                return Err(invalid("config_json must be a valid JSON object"));
            }
            Some(document.text.clone())
        },
        None => None,
    };
    Ok(
        NormalizedSpaceCreateRequest {
            name,
            display_name,
            description,
            default_silo,
            ontology,
            config_json,
            if_not_exists: request.if_not_exists,
        },
    )
}

/// What becomes of a request to create a space.
pub enum SpaceCreatePlan {
    /// The space is there already and that is fine.
    Existing(NormalizedSpaceCreateRequest),
    /// The space is made, with the standard silos and its default one.
    Create(NormalizedSpaceCreateRequest),
}

/// Decides a request to create a space, given whether the space exists.
pub fn create_space(request: &SpaceCreateRequest, exists: bool) -> (r: Result<
    SpaceCreatePlan,
    Error,
>)
    ensures
        match r {
            Ok(SpaceCreatePlan::Existing(n)) => space_request_fault(*request) is None && exists
                && request.if_not_exists && n.name@ == request.name@,
            Ok(SpaceCreatePlan::Create(n)) => space_request_fault(*request) is None && !exists
                && n.name@ == request.name@ && n.default_silo@ == chosen_silo(*request)
                && text_of_string(n.display_name) == text_of_string(request.display_name)
                && text_of_string(n.description) == text_of_string(request.description)
                && text_of_string(n.ontology) == text_of_string(request.ontology)
                && text_of_string(n.config_json) == crate::remember::document_of(
                request.config_json,
            ),
            Err(e) => first_of(
                space_request_fault(*request),
                if exists && !request.if_not_exists {
                    Some(Fault::Conflict("space already exists: "@ + request.name@))
                } else {
                    None
                },
            ) == Some(e@),
        },
{
    let normalized = match validate_space_create_request(request) {
        Ok(n) => n,
        Err(e) => {
            return Err(e);
        },
    };
    if exists {
        if request.if_not_exists {
            Ok(SpaceCreatePlan::Existing(normalized))
        } else {
            Err(crate::error::conflict2("space already exists: ", request.name.as_str()))
        }
    } else {
        Ok(SpaceCreatePlan::Create(normalized))
    }
}

/// A silo that a new space is given.
pub struct SiloSeed {
    /// Name.
    pub name: String,
    /// Description.
    pub description: Option<&'static str>,
    /// How long its memories are kept.
    pub retention_policy: &'static str,
    /// Scope of memories without one.
    pub default_scope: &'static str,
}

/// The model of a silo that a new space is given: name, description, retention
/// and scope.
pub open spec fn seed_model(seed: SiloSeed) -> (Seq<char>, Option<Seq<char>>, Seq<char>, Seq<char>) {
    (
        seed.name@,
        match seed.description {
            Some(text) => Some(text@),
            None => None,
        },
        seed.retention_policy@,
        seed.default_scope@,
    )
}

/// The silos that a new space is given: the two standard ones, and its default
/// silo where that is another.
pub open spec fn seeds(default_silo: Seq<char>) -> Seq<
    (Seq<char>, Option<Seq<char>>, Seq<char>, Seq<char>),
> {
    let standard = seq![
        (SHORT_TERM_SILO@, Some("Working/session memory."@), "ttl"@, "session"@),
        (
            DEFAULT_DURABLE_SILO@,
            Some("High-value decisions and commitments."@),
            "keep"@,
            SCOPE_WORKSPACE@,
        ),
    ];
    if default_silo == SHORT_TERM_SILO@ || default_silo == DEFAULT_DURABLE_SILO@ {
        standard
    } else {
        standard.push((default_silo, None, "keep"@, SCOPE_WORKSPACE@))
    }
}

/// The silos that a new space is given.
pub fn seed_standard_silos(default_silo: &str) -> (r: Vec<SiloSeed>)
    ensures
        r@.map_values(|s: SiloSeed| seed_model(s)) == seeds(default_silo@),
{
    let mut out: Vec<SiloSeed> = Vec::new();
    out.push(
        SiloSeed {
            name: SHORT_TERM_SILO.to_owned(),
            description: Some("Working/session memory."),
            retention_policy: "ttl",
            default_scope: "session",
        },
    );
    out.push(
        SiloSeed {
            name: DEFAULT_DURABLE_SILO.to_owned(),
            description: Some("High-value decisions and commitments."),
            retention_policy: "keep",
            default_scope: SCOPE_WORKSPACE,
        },
    );
    if !(text_eq(default_silo, SHORT_TERM_SILO) || text_eq(default_silo, DEFAULT_DURABLE_SILO)) {
        out.push(
            SiloSeed {
                name: default_silo.to_owned(),
                description: None,
                retention_policy: "keep",
                default_scope: SCOPE_WORKSPACE,
            },
        );
    }
    assert(out@.map_values(|s: SiloSeed| seed_model(s)) =~= seeds(default_silo@));
    out
}

/// A space never lacks its default silo: it is among those it is given.
pub proof fn law_default_silo_is_seeded(default_silo: Seq<char>)
    ensures
        exists|i: int|
            0 <= i < seeds(default_silo).len() && (#[trigger] seeds(default_silo)[i]).0
                == default_silo,
{
    let list = seeds(default_silo);
    if default_silo == SHORT_TERM_SILO@ {
        assert(list[0].0 == default_silo);
    } else if default_silo == DEFAULT_DURABLE_SILO@ {
        assert(list[1].0 == default_silo);
    } else {
        assert(list[2].0 == default_silo);
    }
}

/// Lists spaces: `spaces` holds the first of them by name, one more than the limit
/// where there are so many.
pub fn list_spaces(spaces: Vec<SpaceRecord>) -> (r: SpaceListReport)
    ensures
        r.truncated == (spaces@.len() > MAX_SPACE_LIST_LIMIT),
        r.spaces@ == if spaces@.len() > MAX_SPACE_LIST_LIMIT {
            spaces@.take(MAX_SPACE_LIST_LIMIT as int)
        } else {
            spaces@
        },
{
    let mut list = spaces;
    let truncated: bool = list.len() > MAX_SPACE_LIST_LIMIT;
    if truncated {
        list.truncate(MAX_SPACE_LIST_LIMIT);
        assert(list@ =~= spaces@.take(MAX_SPACE_LIST_LIMIT as int));
    }
    SpaceListReport { spaces: list, truncated }
}

/// The space whose silos are listed: the named one, else the default.
pub fn silo_list_space(space: Option<&str>) -> (r: Result<String, Error>)
    ensures
        match r {
            Ok(name) => space_name_fault(text_of(space)) is None && name@ == match text_of(space) {
                Some(text) => text,
                None => DEFAULT_SPACE@,
            },
            Err(e) => space_name_fault(text_of(space)) == Some(e@),
        },
{
    match normalize_space_name(space) {
        Ok(Some(name)) => Ok(name),
        Ok(None) => Ok(DEFAULT_SPACE.to_owned()),
        Err(e) => Err(e),
    }
}

/// Lists the silos of a space: `silos` holds the first of them, one more than the
/// limit where there are so many; nothing where there is no such space.
pub fn list_silos(space: &str, silos: Option<Vec<SiloRecord>>) -> (r: Result<
    SiloListReport,
    Error,
>)
    ensures
        match r {
            Ok(report) => silos matches Some(list) && report.space@ == space@ && report.truncated
                == (list@.len() > MAX_SILO_LIST_LIMIT) && report.silos@ == if list@.len()
                > MAX_SILO_LIST_LIMIT {
                list@.take(MAX_SILO_LIST_LIMIT as int)
            } else {
                list@
            },
            Err(e) => silos is None && e@ == Fault::NotFound("space"@, space@),
        },
{
    match silos {
        None => Err(crate::error::not_found("space", space)),
        Some(all) => {
            let mut list = all;
            let truncated: bool = list.len() > MAX_SILO_LIST_LIMIT;
            if truncated {
                list.truncate(MAX_SILO_LIST_LIMIT);
                assert(list@ =~= all@.take(MAX_SILO_LIST_LIMIT as int));
            }
            Ok(SiloListReport { space: space.to_owned(), silos: list, truncated })
        },
    }
}

} // verus!
