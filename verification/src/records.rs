//! Records of an archive as parsed JSON, and their fields.

use vstd::prelude::*;

use crate::error::{concat3, invalid, invalid4, verdict, Error, Fault};
use crate::order::{text_less, text_lt};
use crate::ranking::{finite, is_finite, Score};
use crate::terms::one_of;
use crate::text::{decimal, decimal_of, text_eq};
use crate::vocabulary::{MAX_IMPORT_JSON_DEPTH, MAX_IMPORT_LINE_BYTES};

verus! {

/// Members that an object of an archive may have.
pub const MAX_IMPORT_JSON_OBJECT_FIELDS: usize = 512;

/// Items that an array of an archive may have.
pub const MAX_IMPORT_JSON_ARRAY_ITEMS: usize = 2_048;

/// A JSON value of an archive.
pub enum ImportJson {
    /// `null`.
    Null,
    /// `true` or `false`.
    Bool(bool),
    /// A whole number.
    Integer(i64),
    /// Any other number.
    Real(Score),
    /// A text.
    Text(String),
    /// An array.
    Array(Vec<ImportJson>),
    /// An object: its members, each name once.
    Object(Vec<(String, ImportJson)>),
}

/// A fault of one line of an archive.
pub open spec fn line_fault(line: nat, message: Seq<char>) -> Fault {
    Fault::InvalidRequest("import JSON line "@ + decimal(line) + ": "@ + message)
}

/// A fault of one line, where a condition holds.
pub open spec fn line_fault_if(condition: bool, line: nat, message: Seq<char>) -> Option<Fault> {
    if condition {
        Some(line_fault(line, message))
    } else {
        None
    }
}

/// Refuses one line of an archive.
pub fn import_invalid(line_number: usize, message: &str) -> (r: Error)
    ensures
        r@ == line_fault(line_number as nat, message@),
{
    let number = decimal_of(line_number as u64);
    invalid4("import JSON line ", number.as_str(), ": ", message)
}

/// Refuses one line of an archive because of a name.
pub fn import_invalid_name(line_number: usize, before: &str, name: &str, after: &str) -> (r: Error)
    ensures
        r@ == line_fault(line_number as nat, before@ + name@ + after@),
{
    let message = concat3(before, name, after);
    import_invalid(line_number, message.as_str())
}

/// Whether a value nests no deeper than so many levels.
pub open spec fn fits(value: ImportJson, levels: nat) -> bool
    decreases levels,
{
    match value {
        ImportJson::Array(list) => forall|i: int|
            0 <= i < list@.len() ==> levels > 0 && fits(#[trigger] list@[i], (levels - 1) as nat),
        ImportJson::Object(list) => forall|i: int|
            0 <= i < list@.len() ==> levels > 0 && fits(
                (#[trigger] list@[i]).1,
                (levels - 1) as nat,
            ),
        _ => true,
    }
}

/// Tests whether a value nests no deeper than so many levels.
pub fn fits_within(value: &ImportJson, levels: usize) -> (r: bool)
    ensures
        r == fits(*value, levels as nat),
    decreases levels,
{
    match value {
        ImportJson::Array(list) => {
            if levels == 0 {
                proof {
                    if list@.len() > 0 {
                        let first = list@[0];
                    }
                }
                return list.len() == 0;
            }
            let rest: usize = levels - 1;
            let mut fit: bool = true;
            for i in 0..list.len()
                invariant
                    rest == levels - 1,
                    fit == forall|k: int| 0 <= k < i ==> fits(#[trigger] list@[k], rest as nat),
            {
                fit = fits_within(&list[i], rest) && fit;
            }
            fit
        },
        ImportJson::Object(list) => {
            if levels == 0 {
                proof {
                    if list@.len() > 0 {
                        let first = list@[0];
                    }
                }
                return list.len() == 0;
            }
            let rest: usize = levels - 1;
            let mut fit: bool = true;
            for i in 0..list.len()
                invariant
                    rest == levels - 1,
                    fit == forall|k: int| 0 <= k < i ==> fits((#[trigger] list@[k]).1, rest as nat),
            {
                fit = fits_within(&list[i].1, rest) && fit;
            }
            fit
        },
        _ => true,
    }
}

/// The fault of a record that nests too deep.
pub open spec fn depth_fault(value: ImportJson, line: nat) -> Option<Fault> {
    line_fault_if(
        !fits(value, MAX_IMPORT_JSON_DEPTH as nat),
        line,
        "import JSON record exceeds maximum depth"@,
    )
}

/// Checks that a record does not nest too deep.
pub fn validate_import_json_depth(value: &ImportJson, line_number: usize) -> (r: Result<(), Error>)
    ensures
        verdict(r) == depth_fault(*value, line_number as nat),
{
    if fits_within(value, MAX_IMPORT_JSON_DEPTH) {
        Ok(())
    } else {
        Err(import_invalid(line_number, "import JSON record exceeds maximum depth"))
    }
}

/// Whether a value is an object that does not nest too deep.
pub open spec fn is_document(value: ImportJson) -> bool {
    value is Object && fits(value, MAX_IMPORT_JSON_DEPTH as nat)
}

/// Tests whether a value is an object that does not nest too deep.
pub fn import_json_object_is_valid(value: &ImportJson) -> (r: bool)
    ensures
        r == is_document(*value),
{
    match value {
        ImportJson::Object(_) => fits_within(value, MAX_IMPORT_JSON_DEPTH),
        _ => false,
    }
}

/// Whether a value holds no others.
pub open spec fn is_plain(value: ImportJson) -> bool {
    !(value is Array) && !(value is Object)
}

/// The object that plain members make, which nests no deeper than allowed.
pub fn plain_object(members: Vec<(String, ImportJson)>) -> (r: ImportJson)
    requires
        forall|i: int| 0 <= i < members@.len() ==> is_plain((#[trigger] members@[i]).1),
    ensures
        r == ImportJson::Object(members),
        is_document(r),
{
    proof {
        let levels = (MAX_IMPORT_JSON_DEPTH - 1) as nat;
        assert forall|i: int| 0 <= i < members@.len() implies fits(
            (#[trigger] members@[i]).1,
            levels,
        ) by {
            assert(is_plain(members@[i].1));
        }
    }
    ImportJson::Object(members)
}

/// A whole number without sign as a value, where it is in range.
pub fn integer_value(value: u64) -> (r: Result<ImportJson, &'static str>)
    ensures
        match r {
            Ok(json) => value <= i64::MAX && json == ImportJson::Integer(value as i64),
            Err(message) => value > i64::MAX && message@ == "integer out of range"@,
        },
{
    if value > 0x7fff_ffff_ffff_ffff {
        Err("integer out of range")
    } else {
        Ok(ImportJson::Integer(value as i64))
    }
}

/// A number as a value, where it is finite.
pub fn real_value(value: Score) -> (r: Result<ImportJson, &'static str>)
    ensures
        match r {
            Ok(json) => finite(value) && json == ImportJson::Real(value),
            Err(message) => !finite(value) && message@ == "number must be finite"@,
        },
{
    if is_finite(value) {
        Ok(ImportJson::Real(value))
    } else {
        Err("number must be finite")
    }
}

/// Adds an item to an array, where there is room.
pub fn push_item(list: &mut Vec<ImportJson>, value: ImportJson) -> (r: Result<(), &'static str>)
    ensures
        match r {
            Ok(()) => old(list)@.len() < MAX_IMPORT_JSON_ARRAY_ITEMS && final(list)@ == old(
                list,
            )@.push(value),
            Err(message) => old(list)@.len() >= MAX_IMPORT_JSON_ARRAY_ITEMS && final(list)@ == old(
                list,
            )@ && message@ == "JSON array has too many items"@,
        },
{
    if list.len() >= MAX_IMPORT_JSON_ARRAY_ITEMS {
        return Err("JSON array has too many items");
    }
    list.push(value);
    Ok(())
}

/// The member of an object with a name.
pub open spec fn member(object: Seq<(String, ImportJson)>, key: Seq<char>) -> Option<ImportJson>
    decreases object.len(),
{
    if object.len() == 0 {
        None
    } else if object[0].0@ == key {
        Some(object[0].1)
    } else {
        member(object.skip(1), key)
    }
}

/// Whether the names of the members ascend.
pub open spec fn in_order(object: Seq<(String, ImportJson)>) -> bool {
    forall|i: int, j: int|
        0 <= i < j < object.len() ==> text_less((#[trigger] object[i]).0@, (#[trigger] object[j]).0@)
}

proof fn lemma_member_at(object: Seq<(String, ImportJson)>, key: Seq<char>, i: int)
    requires
        0 <= i <= object.len(),
        forall|k: int| 0 <= k < i ==> (#[trigger] object[k]).0@ != key,
        i < object.len() ==> object[i].0@ == key,
    ensures
        member(object, key) == if i < object.len() {
            Some(object[i].1)
        } else {
            None
        },
    decreases object.len(),
{
    if object.len() > 0 && i > 0 {
        let rest = object.skip(1);
        assert(object[0].0@ != key);
        assert forall|k: int| 0 <= k < i - 1 implies (#[trigger] rest[k]).0@ != key by {
            assert(rest[k] == object[k + 1]);
        }
        lemma_member_at(rest, key, i - 1);
    }
}

/// The place of a member in an object; past its end where there is none.
fn find_member(object: &Vec<(String, ImportJson)>, key: &str) -> (r: usize)
    ensures
        r <= object@.len(),
        forall|k: int| 0 <= k < r ==> (#[trigger] object@[k]).0@ != key@,
        r < object@.len() ==> object@[r as int].0@ == key@,
        member(object@, key@) == if r < object@.len() {
            Some(object@[r as int].1)
        } else {
            None
        },
{
    let mut i: usize = 0;
    while i < object.len() && !text_eq(object[i].0.as_str(), key)
        invariant
            i <= object@.len(),
            forall|k: int| 0 <= k < i ==> (#[trigger] object@[k]).0@ != key@,
        decreases object.len() - i,
    {
        i = i + 1;
    }
    proof {
        lemma_member_at(object@, key@, i as int);
    }
    i
}

/// Looks a member up.
pub fn get_member<'a>(object: &'a Vec<(String, ImportJson)>, key: &str) -> (r: Option<
    &'a ImportJson,
>)
    ensures
        match r {
            Some(value) => member(object@, key@) == Some(*value),
            None => member(object@, key@) is None,
        },
{
    let i: usize = find_member(object, key);
    if i < object.len() {
        Some(&object[i].1)
    } else {
        None
    }
}

/// Whether an object has room for one more member.
pub fn member_room(object: &Vec<(String, ImportJson)>) -> (r: Result<(), &'static str>)
    ensures
        match r {
            Ok(()) => object@.len() < MAX_IMPORT_JSON_OBJECT_FIELDS,
            Err(message) => object@.len() >= MAX_IMPORT_JSON_OBJECT_FIELDS && message@
                == "JSON object has too many fields"@,
        },
{
    if object.len() >= MAX_IMPORT_JSON_OBJECT_FIELDS {
        Err("JSON object has too many fields")
    } else {
        Ok(())
    }
}

proof fn lemma_member_insert(
    object: Seq<(String, ImportJson)>,
    at: int,
    entry: (String, ImportJson),
    key: Seq<char>,
)
    requires
        0 <= at <= object.len(),
        forall|k: int| 0 <= k < object.len() ==> (#[trigger] object[k]).0@ != entry.0@,
    ensures
        member(object.insert(at, entry), key) == if key == entry.0@ {
            Some(entry.1)
        } else {
            member(object, key)
        },
    decreases object.len(),
{
    let more = object.insert(at, entry);
    if key == entry.0@ {
        assert forall|k: int| 0 <= k < at implies (#[trigger] more[k]).0@ != key by {
            assert(more[k] == object[k]);
        }
        lemma_member_at(more, key, at);
    } else if at == 0 {
        assert(more.skip(1) =~= object);
    } else {
        assert(more[0] == object[0]);
        if object[0].0@ != key {
            let rest = object.skip(1);
            assert forall|k: int| 0 <= k < rest.len() implies (#[trigger] rest[k]).0@
                != entry.0@ by {
                assert(rest[k] == object[k + 1]);
            }
            lemma_member_insert(rest, at - 1, entry, key);
            assert(more.skip(1) =~= rest.insert(at - 1, entry));
        }
    }
}

/// Adds a member to an object whose names ascend; a name may stand once only.
pub fn put_member(object: &mut Vec<(String, ImportJson)>, key: String, value: ImportJson) -> (r:
    Result<(), &'static str>)
    requires
        in_order(old(object)@),
    ensures
        in_order(final(object)@),
        match r {
            Ok(()) => {
                &&& member(old(object)@, key@) is None
                &&& final(object)@.len() == old(object)@.len() + 1
                &&& forall|name: Seq<char>| #[trigger]
                    member(final(object)@, name) == if name == key@ {
                        Some(value)
                    } else {
                        member(old(object)@, name)
                    }
            },
            Err(message) => {
                &&& member(old(object)@, key@) is Some
                &&& final(object)@ == old(object)@
                &&& message@ == "duplicate field in JSON object"@
            },
        },
{
    let ghost before = object@;
    let found: usize = find_member(object, key.as_str());
    if found < object.len() {
        return Err("duplicate field in JSON object");
    }
    let mut at: usize = 0;
    while at < object.len() && text_lt(object[at].0.as_str(), key.as_str())
        invariant
            at <= object@.len(),
            object@ == before,
            forall|k: int| 0 <= k < at ==> text_less((#[trigger] object@[k]).0@, key@),
        decreases object.len() - at,
    {
        at = at + 1;
    }
    proof {
        assert forall|k: int| at <= k < before.len() implies text_less(
            key@,
            (#[trigger] before[k]).0@,
        ) by {
            crate::order::lemma_less_total(before[at as int].0@, key@);
            if k > at {
                assert(text_less(before[at as int].0@, before[k].0@));
                crate::order::lemma_less_transitive(key@, before[at as int].0@, before[k].0@);
            }
        }
    }
    let ghost entry = (key, value);
    object.insert(at, (key, value));
    proof {
        let more = object@;
        assert(more == before.insert(at as int, entry));
        assert forall|i: int, j: int| 0 <= i < j < more.len() implies text_less(
            (#[trigger] more[i]).0@,
            (#[trigger] more[j]).0@,
        ) by {
            let a = if i < at {
                i
            } else {
                i - 1
            };
            let b = if j < at {
                j
            } else {
                j - 1
            };
            if i != at {
                assert(more[i] == before[a]);
            }
            if j != at {
                assert(more[j] == before[b]);
            }
        }
        assert forall|name: Seq<char>| #[trigger] member(more, name) == if name == entry.0@ {
            Some(entry.1)
        } else {
            member(before, name)
        } by {
            lemma_member_insert(before, at as int, entry, name);
        }
    }
    Ok(())
}

/// The fault of a result.
pub open spec fn fault_of<A>(r: Result<A, Fault>) -> Option<Fault> {
    match r {
        Ok(_) => None,
        Err(fault) => Some(fault),
    }
}

/// A missing field.
pub open spec fn missing_field(line: nat, key: Seq<char>) -> Fault {
    line_fault(line, "missing field "@ + key)
}

/// A field that is a text.
pub open spec fn text_field(
    object: Seq<(String, ImportJson)>,
    key: Seq<char>,
    line: nat,
) -> Result<Seq<char>, Fault> {
    match member(object, key) {
        Some(ImportJson::Text(text)) => Ok(text@),
        Some(_) => Err(line_fault(line, "field "@ + key + " must be a string"@)),
        None => Err(missing_field(line, key)),
    }
}

/// A field that is a whole number.
pub open spec fn integer_field(
    object: Seq<(String, ImportJson)>,
    key: Seq<char>,
    line: nat,
) -> Result<i64, Fault> {
    match member(object, key) {
        Some(ImportJson::Integer(n)) => Ok(n),
        Some(_) => Err(line_fault(line, "field "@ + key + " must be an integer"@)),
        None => Err(missing_field(line, key)),
    }
}

/// A field that is an array.
pub open spec fn array_field(
    object: Seq<(String, ImportJson)>,
    key: Seq<char>,
    line: nat,
) -> Result<Seq<ImportJson>, Fault> {
    match member(object, key) {
        Some(ImportJson::Array(list)) => Ok(list@),
        Some(_) => Err(line_fault(line, "field "@ + key + " must be an array"@)),
        None => Err(missing_field(line, key)),
    }
}

/// A field that is an object.
pub open spec fn object_field(
    object: Seq<(String, ImportJson)>,
    key: Seq<char>,
    line: nat,
) -> Result<Seq<(String, ImportJson)>, Fault> {
    match member(object, key) {
        Some(value) => object_of(value, key, line),
        None => Err(missing_field(line, key)),
    }
}

/// A value that is an object.
pub open spec fn object_of(value: ImportJson, label: Seq<char>, line: nat) -> Result<
    Seq<(String, ImportJson)>,
    Fault,
> {
    match value {
        ImportJson::Object(object) => Ok(object@),
        _ => Err(line_fault(line, label + " must be an object"@)),
    }
}

/// Reads a value that is an object.
pub fn import_object<'a>(value: &'a ImportJson, line_number: usize, label: &str) -> (r: Result<
    &'a Vec<(String, ImportJson)>,
    Error,
>)
    ensures
        match r {
            Ok(object) => object_of(*value, label@, line_number as nat) is Ok && object_of(
                *value,
                label@,
                line_number as nat,
            )->Ok_0 == object@,
            Err(e) => fault_of(object_of(*value, label@, line_number as nat)) == Some(e@),
        },
{
    match value {
        ImportJson::Object(object) => Ok(object),
        _ => {
            proof {
                assert(""@ + label@ =~= label@) by {
                    reveal_strlit("");
                }
            }
            Err(import_invalid_name(line_number, "", label, " must be an object"))
        },
    }
}

/// Reads a field that is an object.
pub fn import_object_field<'a>(
    object: &'a Vec<(String, ImportJson)>,
    key: &str,
    line_number: usize,
) -> (r: Result<&'a Vec<(String, ImportJson)>, Error>)
    ensures
        match r {
            Ok(inner) => object_field(object@, key@, line_number as nat) is Ok && object_field(
                object@,
                key@,
                line_number as nat,
            )->Ok_0 == inner@,
            Err(e) => fault_of(object_field(object@, key@, line_number as nat)) == Some(e@),
        },
{
    match get_member(object, key) {
        Some(value) => import_object(value, line_number, key),
        None => {
            proof {
                reveal_strlit("");
                assert("missing field "@ + key@ + ""@ =~= "missing field "@ + key@);
            }
            Err(import_invalid_name(line_number, "missing field ", key, ""))
        },
    }
}

/// Reads a field that is an array.
pub fn import_array_field<'a>(
    object: &'a Vec<(String, ImportJson)>,
    key: &str,
    line_number: usize,
) -> (r: Result<&'a Vec<ImportJson>, Error>)
    ensures
        match r {
            Ok(list) => array_field(object@, key@, line_number as nat) is Ok && array_field(
                object@,
                key@,
                line_number as nat,
            )->Ok_0 == list@,
            Err(e) => fault_of(array_field(object@, key@, line_number as nat)) == Some(e@),
        },
{
    match get_member(object, key) {
        Some(ImportJson::Array(list)) => Ok(list),
        Some(_) => Err(import_invalid_name(line_number, "field ", key, " must be an array")),
        None => {
            proof {
                reveal_strlit("");
                assert("missing field "@ + key@ + ""@ =~= "missing field "@ + key@);
            }
            Err(import_invalid_name(line_number, "missing field ", key, ""))
        },
    }
}

/// Reads a field that is a text.
pub fn import_string_field<'a>(
    object: &'a Vec<(String, ImportJson)>,
    key: &str,
    line_number: usize,
) -> (r: Result<&'a str, Error>)
    ensures
        match r {
            Ok(text) => text_field(object@, key@, line_number as nat) is Ok && text_field(
                object@,
                key@,
                line_number as nat,
            )->Ok_0 == text@,
            Err(e) => fault_of(text_field(object@, key@, line_number as nat)) == Some(e@),
        },
{
    match get_member(object, key) {
        Some(ImportJson::Text(text)) => Ok(text.as_str()),
        Some(_) => Err(import_invalid_name(line_number, "field ", key, " must be a string")),
        None => {
            proof {
                reveal_strlit("");
                assert("missing field "@ + key@ + ""@ =~= "missing field "@ + key@);
            }
            Err(import_invalid_name(line_number, "missing field ", key, ""))
        },
    }
}

/// Reads a field that is a whole number.
pub fn import_i64_field(object: &Vec<(String, ImportJson)>, key: &str, line_number: usize) -> (r:
    Result<i64, Error>)
    ensures
        match r {
            Ok(n) => integer_field(object@, key@, line_number as nat) is Ok && integer_field(
                object@,
                key@,
                line_number as nat,
            )->Ok_0 == n,
            Err(e) => fault_of(integer_field(object@, key@, line_number as nat)) == Some(e@),
        },
{
    match get_member(object, key) {
        Some(ImportJson::Integer(n)) => Ok(*n),
        Some(_) => Err(import_invalid_name(line_number, "field ", key, " must be an integer")),
        None => {
            proof {
                reveal_strlit("");
                assert("missing field "@ + key@ + ""@ =~= "missing field "@ + key@);
            }
            Err(import_invalid_name(line_number, "missing field ", key, ""))
        },
    }
}

/// The models of literals.
pub open spec fn literals(list: Seq<&'static str>) -> Seq<Seq<char>> {
    list.map_values(|t: &'static str| t@)
}

/// The fault of the first field that is not allowed.
pub open spec fn unknown_field_fault(
    object: Seq<(String, ImportJson)>,
    allowed: Seq<Seq<char>>,
    line: nat,
) -> Option<Fault>
    decreases object.len(),
{
    if object.len() == 0 {
        None
    } else if !allowed.contains(object[0].0@) {
        Some(line_fault(line, "unknown field "@ + object[0].0@))
    } else {
        unknown_field_fault(object.skip(1), allowed, line)
    }
}

/// Refuses fields that are not allowed.
pub fn import_reject_unknown_fields(
    object: &Vec<(String, ImportJson)>,
    allowed: &[&'static str],
    line_number: usize,
) -> (r: Result<(), Error>)
    ensures
        verdict(r) == unknown_field_fault(object@, literals(allowed@), line_number as nat),
{
    let ghost models = literals(allowed@);
    assert(object@.skip(0) =~= object@);
    for i in 0..object.len()
        invariant
            models == literals(allowed@),
            unknown_field_fault(object@, models, line_number as nat) == unknown_field_fault(
                object@.skip(i as int),
                models,
                line_number as nat,
            ),
    {
        let known: bool = one_of(allowed, object[i].0.as_str());
        proof {
            let name = object@[i as int].0@;
            if known {
                let k = choose|k: int| 0 <= k < allowed@.len() && (#[trigger] allowed@[k])@ == name;
                assert(models[k] == name);
            }
            if models.contains(name) {
                let k = choose|k: int| 0 <= k < models.len() && models[k] == name;
                assert(allowed@[k]@ == name);
            }
            assert(object@.skip(i as int)[0] == object@[i as int]);
            assert(object@.skip(i as int).skip(1) =~= object@.skip(i + 1));
        }
        if !known {
            proof {
                reveal_strlit("");
                assert("unknown field "@ + object@[i as int].0@ + ""@ =~= "unknown field "@
                    + object@[i as int].0@);
            }
            return Err(
                import_invalid_name(line_number, "unknown field ", object[i].0.as_str(), ""),
            );
        }
    }
    assert(object@.skip(object@.len() as int) =~= Seq::empty());
    Ok(())
}

/// Whether items are exactly the given texts.
pub open spec fn lists_texts(items: Seq<ImportJson>, texts: Seq<Seq<char>>) -> bool {
    &&& items.len() == texts.len()
    &&& forall|i: int|
        0 <= i < items.len() ==> (#[trigger] items[i] matches ImportJson::Text(text) && text@
            == texts[i])
}

/// Whether an item is a given text.
pub fn is_text(item: &ImportJson, text: &str) -> (r: bool)
    ensures
        r == (*item matches ImportJson::Text(t) && t@ == text@),
{
    match item {
        ImportJson::Text(t) => text_eq(t.as_str(), text),
        _ => false,
    }
}

/// Whether a byte is white space: space, tab, line feed, form feed or carriage
/// return.
pub open spec fn ascii_space(b: u8) -> bool {
    b == 32 || b == 9 || b == 10 || b == 12 || b == 13
}

/// A line without its line feed, and without the carriage return before it.
pub open spec fn trimmed_line(line: Seq<u8>) -> Seq<u8> {
    let cut = if line.len() > 0 && line.last() == 10 {
        line.drop_last()
    } else {
        line
    };
    if cut.len() > 0 && cut.last() == 13 {
        cut.drop_last()
    } else {
        cut
    }
}

/// The length of a line without its line feed and carriage return.
pub fn trim_jsonl_newline(line: &[u8]) -> (r: usize)
    ensures
        r <= line@.len(),
        line@.take(r as int) == trimmed_line(line@),
{
    let mut n: usize = line.len();
    if n > 0 && line[n - 1] == 10 {
        n = n - 1;
    }
    assert(line@.take(n as int) =~= if line@.len() > 0 && line@.last() == 10 {
        line@.drop_last()
    } else {
        line@
    });
    if n > 0 && line[n - 1] == 13 {
        n = n - 1;
    }
    assert(line@.take(n as int) =~= trimmed_line(line@));
    n
}

/// `std::str::from_utf8`: the text that the bytes encode, where they are UTF-8.
#[verifier::external_body]
pub(crate) fn utf8_text(bytes: &[u8]) -> (r: Option<String>)
    ensures
        match r {
            Some(text) => vstd::utf8::valid_utf8(bytes@) && text@ == vstd::utf8::decode_utf8(
                bytes@,
            ),
            None => !vstd::utf8::valid_utf8(bytes@),
        },
{
    std::str::from_utf8(bytes).ok().map(str::to_string)
}

/// The fault of a raw line.
pub open spec fn raw_line_fault(raw: Seq<u8>, line: nat) -> Option<Fault> {
    let bytes = trimmed_line(raw);
    if forall|i: int| 0 <= i < bytes.len() ==> ascii_space(#[trigger] bytes[i]) {
        Some(line_fault(line, "import JSONL records must not be blank"@))
    } else if !vstd::utf8::valid_utf8(bytes) {
        Some(
            Fault::InvalidRequest("import JSONL line "@ + decimal(line) + " is not valid UTF-8"@),
        )
    } else {
        None
    }
}

/// The text of a raw line, which must not be blank and has to be UTF-8.
pub fn import_line_text(raw: &[u8], line_number: usize) -> (r: Result<String, Error>)
    ensures
        match r {
            Ok(text) => raw_line_fault(raw@, line_number as nat) is None && text@
                == vstd::utf8::decode_utf8(trimmed_line(raw@)),
            Err(e) => raw_line_fault(raw@, line_number as nat) == Some(e@),
        },
{
    let n: usize = trim_jsonl_newline(raw);
    let mut blank: bool = true;
    let mut bytes: Vec<u8> = Vec::new();
    for i in 0..n
        invariant
            n <= raw@.len(),
            bytes@ == raw@.take(i as int),
            blank == forall|k: int| 0 <= k < i ==> ascii_space(#[trigger] bytes@[k]),
    {
        let b: u8 = raw[i];
        let ghost before = bytes@;
        let space: bool = b == 32 || b == 9 || b == 10 || b == 12 || b == 13;
        bytes.push(b);
        proof {
            assert(bytes@ =~= raw@.take(i + 1));
            assert(bytes@[i as int] == b);
            if blank && space {
                assert forall|k: int| 0 <= k < i + 1 implies ascii_space(#[trigger] bytes@[k]) by {
                    if k < i {
                        assert(before[k] == bytes@[k]);
                    }
                }
            }
            if !blank {
                let k = choose|k: int| 0 <= k < i && !ascii_space(#[trigger] before[k]);
                assert(bytes@[k] == before[k]);
            }
        }
        blank = blank && space;
    }
    if blank {
        return Err(import_invalid(line_number, "import JSONL records must not be blank"));
    }
    match utf8_text(bytes.as_slice()) {
        Some(text) => Ok(text),
        None => {
            let number = decimal_of(line_number as u64);
            let message = concat3("import JSONL line ", number.as_str(), " is not valid UTF-8");
            Err(invalid(message.as_str()))
        },
    }
}

/// Checks that a line stays within the limit when more bytes come: its length
/// then.
pub fn grown_line(total: usize, more: usize, line_number: usize) -> (r: Result<usize, Error>)
    ensures
        match r {
            Ok(n) => n == total + more && n <= MAX_IMPORT_LINE_BYTES,
            Err(e) => total + more > MAX_IMPORT_LINE_BYTES && e@ == line_fault(
                line_number as nat,
                "import JSONL record exceeds maximum size"@,
            ),
        },
{
    if total > MAX_IMPORT_LINE_BYTES || more > MAX_IMPORT_LINE_BYTES - total {
        Err(import_invalid(line_number, "import JSONL record exceeds maximum size"))
    } else {
        Ok(total + more)
    }
}

/// How many of the bytes belong to the line that is being read: those up to its
/// newline, or all of them.
pub open spec fn line_piece(bytes: Seq<u8>) -> nat
    decreases bytes.len(),
{
    if bytes.len() == 0 {
        0
    } else if bytes[0] == 0x0a {
        1
    } else {
        1 + line_piece(bytes.skip(1))
    }
}

/// A piece of a line that was taken over.
#[derive(Debug, Clone, Copy, PartialEq, Eq)]
pub struct LinePiece {
    /// How many bytes were taken.
    pub taken: usize,
    /// Whether the line is complete.
    pub ended: bool,
}

/// Takes over what the bytes at hand hold of the line that is being read. The line
/// is complete with its newline, or where no more bytes are at hand. A line that
/// would grow beyond the limit is refused and stays as it is.
pub fn read_limited_jsonl_record(
    buffer: &mut Vec<u8>,
    available: &[u8],
    line_number: usize,
) -> (r: Result<LinePiece, Error>)
    ensures
        match r {
            Ok(piece) => {
                let n = line_piece(available@);
                &&& old(buffer)@.len() + n <= MAX_IMPORT_LINE_BYTES
                &&& piece.taken == n
                &&& piece.ended == (n == 0 || available@[n - 1] == 0x0a)
                &&& final(buffer)@ == old(buffer)@ + available@.take(n as int)
            },
            Err(e) => {
                &&& old(buffer)@.len() + line_piece(available@) > MAX_IMPORT_LINE_BYTES
                &&& e@ == line_fault(
                    line_number as nat,
                    "import JSONL record exceeds maximum size"@,
                )
                &&& final(buffer)@ == old(buffer)@
            },
        },
{
    let mut n: usize = 0;
    assert(available@.skip(0) =~= available@);
    while n < available.len() && available[n] != 0x0a
        invariant
            n <= available@.len(),
            forall|i: int| 0 <= i < n ==> available@[i] != 0x0a,
            line_piece(available@) == n + line_piece(available@.skip(n as int)),
        decreases available@.len() - n,
    {
        assert(available@.skip(n as int).skip(1) =~= available@.skip(n + 1));
        n = n + 1;
    }
    let ended: bool = n < available.len() || available.len() == 0;
    if n < available.len() {
        n = n + 1;
    }
    assert(n == line_piece(available@));
    match grown_line(buffer.len(), n, line_number) {
        Err(e) => Err(e),
        Ok(_) => {
            let ghost start = buffer@;
            for i in 0..n
                invariant
                    n <= available@.len(),
                    buffer@ == start + available@.take(i as int),
            {
                buffer.push(available[i]);
                assert(start + available@.take(i + 1) =~= (start + available@.take(i as int)).push(
                    available@[i as int],
                ));
            }
            Ok(LinePiece { taken: n, ended })
        },
    }
}

} // verus!
