//! JSON texts: what the store writes itself, and what it reads through `serde_json`.

use vstd::prelude::*;

use crate::hex::hex_digit;
use crate::text::{decimal, joined, views};

verus! {

/// A character inside a JSON string, as `serde_json` writes it.
pub open spec fn json_char(c: char) -> Seq<char> {
    let n = c as u32;
    if c == '"' {
        seq!['\\', '"']
    } else if c == '\\' {
        seq!['\\', '\\']
    } else if n == 8 {
        seq!['\\', 'b']
    } else if n == 9 {
        seq!['\\', 't']
    } else if n == 10 {
        seq!['\\', 'n']
    } else if n == 12 {
        seq!['\\', 'f']
    } else if n == 13 {
        seq!['\\', 'r']
    } else if n < 32 {
        seq!['\\', 'u', '0', '0', hex_digit((n / 16) as u8), hex_digit((n % 16) as u8)]
    } else {
        seq![c]
    }
}

/// The characters of a JSON string, one after the other.
pub open spec fn json_chars(s: Seq<char>) -> Seq<char>
    decreases s.len(),
{
    if s.len() == 0 {
        Seq::empty()
    } else {
        json_chars(s.drop_last()) + json_char(s.last())
    }
}

/// A text as a JSON string in quotes.
pub open spec fn json_quoted(s: Seq<char>) -> Seq<char> {
    seq!['"'] + json_chars(s) + seq!['"']
}

/// `serde_json::to_string` on a string slice: the text in quotes, with quote,
/// backslash and the characters below U+0020 escaped, the five common ones by
/// letter and the others by four hexadecimal digits.
#[verifier::external_body]
pub(crate) fn json_string_for_store(value: &str) -> (r: String)
    ensures
        r@ == json_quoted(value@),
{
    serde_json::to_string(value).unwrap_or_else(|_| "\"\"".to_string())
}

/// A text as a JSON string, or `null`.
pub open spec fn json_optional(value: Option<Seq<char>>) -> Seq<char> {
    match value {
        Some(text) => json_quoted(text),
        None => "null"@,
    }
}

/// Writes an optional text as a JSON string, or `null`.
pub fn optional_json_string_for_store(value: Option<&str>) -> (r: String)
    ensures
        r@ == json_optional(text_of(value)),
{
    match value {
        Some(text) => json_string_for_store(text),
        None => "null".to_owned(),
    }
}

/// The model of an optional string slice.
pub open spec fn text_of(value: Option<&str>) -> Option<Seq<char>> {
    match value {
        Some(text) => Some(text@),
        None => None,
    }
}

/// The model of an optional string.
pub open spec fn text_of_string(value: Option<String>) -> Option<Seq<char>> {
    match value {
        Some(text) => Some(text@),
        None => None,
    }
}

/// An optional string as an optional slice.
pub fn as_text(value: &Option<String>) -> (r: Option<&str>)
    ensures
        text_of(r) == text_of_string(*value),
        r is Some == value is Some,
{
    match value {
        Some(text) => Some(text.as_str()),
        None => None,
    }
}

/// A value that one member of a written JSON object can have.
pub enum JsonMember {
    /// `null`.
    Null,
    /// `true` or `false`.
    Bool(bool),
    /// A whole number.
    Number(u64),
    /// A text.
    Text(String),
    /// A list of texts.
    Texts(Vec<String>),
}

/// The value of a member as JSON text.
pub open spec fn member_text(value: JsonMember) -> Seq<char> {
    match value {
        JsonMember::Null => "null"@,
        JsonMember::Bool(flag) => if flag {
            "true"@
        } else {
            "false"@
        },
        JsonMember::Number(n) => decimal(n as nat),
        JsonMember::Text(text) => json_quoted(text@),
        JsonMember::Texts(list) => texts_array(views(list@)),
    }
}

/// Texts as a compact JSON array.
pub open spec fn texts_array(list: Seq<Seq<char>>) -> Seq<char> {
    seq!['['] + joined(quoted_all(list), seq![',']) + seq![']']
}

/// A list of named values as members of a JSON object.
pub open spec fn member_texts(members: Seq<(String, JsonMember)>) -> Seq<Seq<char>> {
    members.map_values(
        |member: (String, JsonMember)|
            json_quoted(member.0@) + seq![':'] + member_text(member.1),
    )
}

/// The names of the members.
pub open spec fn member_names(members: Seq<(String, JsonMember)>) -> Seq<Seq<char>> {
    members.map_values(|member: (String, JsonMember)| member.0@)
}

/// Collects the members into a `serde_json::Map`, which is kept in the order of
/// its keys, and writes it with `serde_json::to_string`, without spaces. The
/// names have to stand in ascending order already, so that the written order is
/// the given one.
#[verifier::external_body]
pub(crate) fn json_object(members: Vec<(String, JsonMember)>) -> (r: String)
    requires
        crate::order::ascending(member_names(members@)),
    ensures
        r@ == seq!['{'] + joined(member_texts(members@), seq![',']) + seq!['}'],
{
    let mut map = serde_json::Map::new();
    for (name, value) in members {
        let value = match value {
            JsonMember::Null => serde_json::Value::Null,
            JsonMember::Bool(flag) => serde_json::Value::from(flag),
            JsonMember::Number(number) => serde_json::Value::from(number),
            JsonMember::Text(text) => serde_json::Value::from(text),
            JsonMember::Texts(list) => serde_json::Value::from(list),
        };
        map.insert(name, value);
    }
    serde_json::to_string(&map).unwrap_or_default()
}

/// What `serde_json` finds wrong with a text when it parses it as one JSON
/// value; nothing where it parses.
pub uninterp spec fn json_fault(text: Seq<char>) -> Option<Seq<char>>;

/// The member `key` of the JSON object that `text` holds, where it is a boolean.
pub uninterp spec fn json_bool(text: Seq<char>, key: Seq<char>) -> Option<bool>;

/// The member `key` of the JSON object that `text` holds, where it is a string.
pub uninterp spec fn json_text(text: Seq<char>, key: Seq<char>) -> Option<Seq<char>>;

/// The member `key` of the JSON object that `text` holds, where it is a whole
/// number of 64 bits without sign.
pub uninterp spec fn json_number(text: Seq<char>, key: Seq<char>) -> Option<u64>;

/// Whether `text` holds a JSON object with a member `key`.
pub uninterp spec fn json_has(text: Seq<char>, key: Seq<char>) -> bool;

/// The member `key` of the JSON object that `text` holds, whatever it is, as compact
/// JSON.
pub uninterp spec fn json_member(text: Seq<char>, key: Seq<char>) -> Option<Seq<char>>;

/// The texts of the JSON array of strings that `text` holds, or what `serde_json`
/// finds wrong with it.
pub uninterp spec fn json_texts(text: Seq<char>) -> Result<Seq<Seq<char>>, Seq<char>>;

/// The JSON object that `text` holds with a text member put in, as compact JSON;
/// nothing where `text` holds no JSON object.
pub uninterp spec fn json_with(text: Seq<char>, key: Seq<char>, value: Seq<char>) -> Option<
    Seq<char>,
>;

/// `serde_json::from_str` into a `serde_json::Value`: its error as text, or
/// nothing where it succeeds.
#[verifier::external_body]
pub(crate) fn json_parse_error(text: &str) -> (r: Option<String>)
    ensures
        text_of_string(r) == json_fault(text@),
{
    match serde_json::from_str::<serde_json::Value>(text) {
        Ok(_) => None,
        Err(error) => Some(error.to_string()),
    }
}

/// `serde_json::from_str`, then `Value::get` and `Value::as_bool`.
#[verifier::external_body]
pub(crate) fn json_bool_member(text: &str, key: &str) -> (r: Option<bool>)
    ensures
        r == json_bool(text@, key@),
        r is Some ==> json_fault(text@) is None && json_has(text@, key@),
{
    let value = serde_json::from_str::<serde_json::Value>(text).ok()?;
    value.get(key)?.as_bool()
}

/// `serde_json::from_str`, then `Value::get` and `Value::as_str`.
#[verifier::external_body]
pub(crate) fn json_text_member(text: &str, key: &str) -> (r: Option<String>)
    ensures
        text_of_string(r) == json_text(text@, key@),
        r is Some ==> json_fault(text@) is None && json_has(text@, key@),
{
    let value = serde_json::from_str::<serde_json::Value>(text).ok()?;
    value.get(key)?.as_str().map(str::to_string)
}

/// `serde_json::from_str`, then `Value::get` and `Value::as_u64`.
#[verifier::external_body]
pub(crate) fn json_number_member(text: &str, key: &str) -> (r: Option<u64>)
    ensures
        r == json_number(text@, key@),
        r is Some ==> json_fault(text@) is None && json_has(text@, key@),
{
    let value = serde_json::from_str::<serde_json::Value>(text).ok()?;
    value.get(key)?.as_u64()
}

/// `serde_json::from_str`, then whether `Value::get` finds the key.
#[verifier::external_body]
pub(crate) fn json_has_member(text: &str, key: &str) -> (r: bool)
    ensures
        r == json_has(text@, key@),
        r ==> json_fault(text@) is None,
{
    serde_json::from_str::<serde_json::Value>(text).is_ok_and(|value| value.get(key).is_some())
}

/// `serde_json::from_str`, then `Value::get` and the `to_string` of a `Value`, which
/// writes compact JSON. A string is written as [`json_quoted`] says.
#[verifier::external_body]
pub(crate) fn json_member_text(text: &str, key: &str) -> (r: Option<String>)
    ensures
        text_of_string(r) == json_member(text@, key@),
        r is Some == json_has(text@, key@),
        json_text(text@, key@) matches Some(value) ==> text_of_string(r) == Some(json_quoted(value)),
{
    let value = serde_json::from_str::<serde_json::Value>(text).ok()?;
    value.get(key).map(|member| member.to_string())
}

/// `serde_json::to_string` on a list of strings: a compact JSON array, which
/// [`json_parse_texts`] reads back as the same list.
#[verifier::external_body]
pub(crate) fn json_write_texts(values: &[String]) -> (r: String)
    ensures
        r@ == texts_array(views(values@)),
        json_texts(r@) is Ok && json_texts(r@)->Ok_0 == views(values@),
{
    serde_json::to_string(values).unwrap_or_else(|_| "[]".to_string())
}

/// `serde_json::from_str` into a list of strings, its error as text. An array that
/// [`string_array_json`] wrote reads as the list it was written from.
#[verifier::external_body]
pub(crate) fn json_parse_texts(text: &str) -> (r: Result<Vec<String>, String>)
    ensures
        forall|list: Seq<Seq<char>>|
            text@ == #[trigger] array_text(list) ==> r is Ok && views(r->Ok_0@) == list,
        match r {
            Ok(list) => json_texts(text@) is Ok && json_texts(text@)->Ok_0 == views(list@),
            Err(error) => json_texts(text@) is Err && json_texts(text@)->Err_0 == error@,
        },
{
    serde_json::from_str::<Vec<String>>(text).map_err(|error| error.to_string())
}

/// Parses `text` as a JSON object with `serde_json::from_str`, puts one text member
/// in with `Map::insert`, and writes the object with `serde_json::to_string`.
/// Nothing comes back where the text does not parse as an object; the empty object
/// and a text in which a member was found do. In what is written the member reads
/// as the text that was put in, and every other member reads as before, the empty
/// object having none; of a member that holds a number with a fraction or an exponent
/// only that it is still there, because such a number may be read as a neighbour of
/// the one that was written.
#[verifier::external_body]
pub(crate) fn json_put(text: &str, key: &str, value: &str) -> (r: Option<String>)
    ensures
        text_of_string(r) == json_with(text@, key@, value@),
        json_fault(text@) is Some ==> r is None,
        text@ == "{}"@ ==> r is Some,
        forall|other: Seq<char>| #[trigger] json_has(text@, other) ==> r is Some,
        r matches Some(written) ==> {
            &&& json_fault(written@) is None
            &&& json_text(written@, key@) == Some(value@)
            &&& json_has(written@, key@)
            &&& json_bool(written@, key@) is None
            &&& json_number(written@, key@) is None
            &&& json_member(written@, key@) == Some(json_quoted(value@))
            &&& members_kept(text@, written@, seq![(key@, value@)])
            &&& text@ == "{}"@ ==> forall|other: Seq<char>|
                other != key@ ==> !(#[trigger] json_has(written@, other))
        },
{
    let mut map: serde_json::Map<String, serde_json::Value> = serde_json::from_str(text).ok()?;
    map.insert(key.to_string(), serde_json::Value::from(value));
    serde_json::to_string(&map).ok()
}

/// Where in a JSON text its end stands.
pub enum QuoteState {
    /// Outside of any string.
    Outside,
    /// In a string.
    Inside,
    /// In a string, behind a backslash.
    Escaped,
}

/// Where a piece of JSON text ends.
pub open spec fn quote_state(text: Seq<char>) -> QuoteState
    decreases text.len(),
{
    if text.len() == 0 {
        QuoteState::Outside
    } else {
        match quote_state(text.drop_last()) {
            QuoteState::Outside => if text.last() == '"' {
                QuoteState::Inside
            } else {
                QuoteState::Outside
            },
            QuoteState::Inside => if text.last() == '"' {
                QuoteState::Outside
            } else if text.last() == '\\' {
                QuoteState::Escaped
            } else {
                QuoteState::Inside
            },
            QuoteState::Escaped => QuoteState::Inside,
        }
    }
}

/// Whether a JSON text holds a number with a fraction or an exponent: outside of its
/// strings, a point or an `e` behind a digit.
pub open spec fn holds_fraction(text: Seq<char>) -> bool {
    exists|i: int|
        0 <= i < text.len() && (#[trigger] quote_state(text.take(i))) is Outside && (text[i] == '.'
            || (text[i] == 'e' && i > 0 && '0' <= text[i - 1] <= '9'))
}

/// Whether a member is kept: it stays there or stays away, and is written as before
/// unless it holds a number with a fraction or an exponent.
pub open spec fn member_kept(before: Option<Seq<char>>, after: Option<Seq<char>>) -> bool {
    match before {
        Some(value) => after is Some && (!holds_fraction(value) ==> after == before),
        None => after is None,
    }
}

/// Whether each member but the named ones reads the same in two JSON objects.
pub open spec fn members_kept(
    before: Seq<char>,
    after: Seq<char>,
    members: Seq<(Seq<char>, Seq<char>)>,
) -> bool {
    forall|key: Seq<char>|
        #![trigger json_text(after, key)]
        #![trigger json_bool(after, key)]
        #![trigger json_number(after, key)]
        #![trigger json_has(after, key)]
        #![trigger json_member(after, key)]
        !is_named(members, key) ==> {
            &&& json_text(after, key) == json_text(before, key)
            &&& json_bool(after, key) == json_bool(before, key)
            &&& json_number(after, key) == json_number(before, key)
            &&& json_has(after, key) == json_has(before, key)
            &&& member_kept(json_member(before, key), json_member(after, key))
        }
}

/// A JSON object with text members put in, one after the other.
pub open spec fn put_all(text: Seq<char>, members: Seq<(Seq<char>, Seq<char>)>) -> Option<Seq<char>>
    decreases members.len(),
{
    if members.len() == 0 {
        Some(text)
    } else {
        match put_all(text, members.drop_last()) {
            Some(before) => json_with(before, members.last().0, members.last().1),
            None => None,
        }
    }
}

/// The text of a JSON object; that of an absent one is empty.
pub open spec fn object_text(text: Option<Seq<char>>) -> Seq<char> {
    match text {
        Some(raw) => raw,
        None => "{}"@,
    }
}

/// The JSON object that `text` holds, or the empty one, with the given text
/// members put in; nothing where `text` holds no JSON object.
pub open spec fn json_merged(
    text: Option<Seq<char>>,
    members: Seq<(Seq<char>, Seq<char>)>,
) -> Option<Seq<char>> {
    put_all(object_text(text), members)
}

/// Whether a member is among those put in.
pub open spec fn is_named(members: Seq<(Seq<char>, Seq<char>)>, key: Seq<char>) -> bool {
    exists|i: int| 0 <= i < members.len() && (#[trigger] members[i]).0 == key
}

proof fn lemma_put_fails(text: Seq<char>, members: Seq<(Seq<char>, Seq<char>)>, n: int)
    requires
        0 <= n <= members.len(),
        put_all(text, members.take(n)) is None,
    ensures
        put_all(text, members) is None,
    decreases members.len() - n,
{
    if n < members.len() {
        assert(members.take(n + 1).drop_last() =~= members.take(n));
        lemma_put_fails(text, members, n + 1);
    } else {
        assert(members.take(n) =~= members);
    }
}

/// Whether `after` holds what was put into `before`, the last one under each name,
/// and keeps the rest.
#[verifier::opaque]
spec fn merged_into(
    before: Seq<char>,
    after: Seq<char>,
    members: Seq<(Seq<char>, Seq<char>)>,
) -> bool {
    &&& members_kept(before, after, members)
    &&& forall|i: int|
        0 <= i < members.len() && (forall|j: int|
            i < j < members.len() ==> members[j].0 != members[i].0) ==> json_text(
            after,
            (#[trigger] members[i]).0,
        ) == Some(members[i].1)
}

proof fn lemma_merged_step(
    base: Seq<char>,
    current: Seq<char>,
    next: Seq<char>,
    members: Seq<(Seq<char>, Seq<char>)>,
    member: (Seq<char>, Seq<char>),
)
    requires
        merged_into(base, current, members),
        members_kept(current, next, seq![member]),
        json_text(next, member.0) == Some(member.1),
    ensures
        merged_into(base, next, members.push(member)),
{
    reveal(merged_into);
    let after = members.push(member);
    let last = seq![member];
    assert forall|key: Seq<char>| !(#[trigger] is_named(after, key)) implies !is_named(members, key)
        && !is_named(last, key) by {
        if is_named(members, key) {
            let k = choose|k: int| 0 <= k < members.len() && (#[trigger] members[k]).0 == key;
            assert(after[k].0 == key);
        }
        if is_named(last, key) {
            assert(after[members.len() as int].0 == key);
        }
    }
    assert forall|key: Seq<char>| !is_named(after, key) implies #[trigger] json_text(next, key)
        == json_text(base, key) by {
        assert(json_text(current, key) == json_text(base, key));
    }
    assert forall|key: Seq<char>| !is_named(after, key) implies #[trigger] json_bool(next, key)
        == json_bool(base, key) by {
        assert(json_bool(current, key) == json_bool(base, key));
    }
    assert forall|key: Seq<char>| !is_named(after, key) implies #[trigger] json_number(next, key)
        == json_number(base, key) by {
        assert(json_number(current, key) == json_number(base, key));
    }
    assert forall|key: Seq<char>| !is_named(after, key) implies #[trigger] json_has(next, key)
        == json_has(base, key) by {
        assert(json_has(current, key) == json_has(base, key));
    }
    assert forall|key: Seq<char>| !is_named(after, key) implies member_kept(
        json_member(base, key),
        #[trigger] json_member(next, key),
    ) by {
        assert(member_kept(json_member(base, key), json_member(current, key)));
    }
    assert forall|i: int|
        0 <= i < after.len() && (forall|j: int| i < j < after.len() ==> after[j].0
            != after[i].0) implies json_text(next, (#[trigger] after[i]).0) == Some(
        after[i].1,
    ) by {
        if i < members.len() {
            assert(after[members.len() as int].0 != after[i].0);
            assert(!is_named(last, members[i].0));
            assert forall|j: int| i < j < members.len() implies members[j].0 != members[i].0 by {
                assert(after[j].0 != after[i].0);
            }
            assert(json_text(current, members[i].0) == Some(members[i].1));
        }
    }
}

/// Puts text members into a JSON object, where `text` holds one, or into the empty
/// object, where it is absent.
pub(crate) fn json_merge(text: Option<&str>, members: &[(String, String)]) -> (r: Option<String>)
    requires
        members@.len() > 0,
    ensures
        text_of_string(r) == json_merged(text_of(text), pair_views(members@)),
        text is None ==> r is Some,
        text matches Some(raw) ==> json_fault(raw@) is Some ==> r is None,
        text matches Some(raw) ==> forall|key: Seq<char>|
            #[trigger] json_has(raw@, key) ==> r is Some,
        r matches Some(merged) ==> {
            &&& forall|i: int|
                0 <= i < members@.len() && (forall|j: int|
                    i < j < members@.len() ==> members@[j].0@ != members@[i].0@) ==> json_text(
                    merged@,
                    (#[trigger] members@[i]).0@,
                ) == Some(members@[i].1@)
            &&& members_kept(object_text(text_of(text)), merged@, pair_views(members@))
        },
{
    let ghost wanted = pair_views(members@);
    let ghost base = object_text(text_of(text));
    let mut current: String = match text {
        Some(raw) => raw.to_owned(),
        None => "{}".to_owned(),
    };
    assert(put_all(base, wanted.take(0)) == Some(current@));
    assert(merged_into(base, current@, wanted.take(0))) by {
        reveal(merged_into);
    }
    for i in 0..members.len()
        invariant
            wanted == pair_views(members@),
            base == object_text(text_of(text)),
            i == 0 ==> current@ == base,
            i > 0 ==> json_has(current@, wanted[i - 1].0),
            i > 0 ==> json_fault(base) is None,
            put_all(base, wanted.take(i as int)) == Some(current@),
            merged_into(base, current@, wanted.take(i as int)),
    {
        proof {
            assert(wanted.take(i + 1).drop_last() =~= wanted.take(i as int));
            assert(wanted.take(i + 1) =~= wanted.take(i as int).push(wanted[i as int]));
        }
        match json_put(current.as_str(), members[i].0.as_str(), members[i].1.as_str()) {
            Some(next) => {
                proof {
                    lemma_merged_step(
                        base,
                        current@,
                        next@,
                        wanted.take(i as int),
                        wanted[i as int],
                    );
                }
                current = next;
            },
            None => {
                proof {
                    lemma_put_fails(base, wanted, i + 1);
                }
                return None;
            },
        }
    }
    proof {
        reveal(merged_into);
        assert(wanted.take(members@.len() as int) =~= wanted);
        assert forall|i: int|
            0 <= i < members@.len() && (forall|j: int|
                i < j < members@.len() ==> members@[j].0@ != members@[i].0@) implies json_text(
            current@,
            (#[trigger] members@[i]).0@,
        ) == Some(members@[i].1@) by {
            assert(wanted[i].0 == members@[i].0@);
            assert forall|j: int| i < j < wanted.len() implies wanted[j].0 != wanted[i].0 by {
                assert(members@[j].0@ != members@[i].0@);
            }
        }
    }
    Some(current)
}

/// Each text as a JSON string.
pub open spec fn quoted_all(list: Seq<Seq<char>>) -> Seq<Seq<char>> {
    list.map_values(|s: Seq<char>| json_quoted(s))
}

/// The models of pairs of strings.
pub open spec fn pair_views(list: Seq<(String, String)>) -> Seq<(Seq<char>, Seq<char>)> {
    list.map_values(|pair: (String, String)| (pair.0@, pair.1@))
}

/// Control characters: U+0000 to U+001F and U+007F to U+009F.
pub open spec fn is_control(c: char) -> bool {
    (c as u32) < 0x20 || 0x7f <= c as u32 <= 0x9f
}

/// A character inside a string of a tag or id array.
pub open spec fn array_char(c: char) -> Seq<char> {
    if c == '"' {
        seq!['\\', '"']
    } else if c == '\\' {
        seq!['\\', '\\']
    } else if c == '\n' {
        seq!['\\', 'n']
    } else if c == '\r' {
        seq!['\\', 'r']
    } else if c == '\t' {
        seq!['\\', 't']
    } else if is_control(c) {
        let n = c as u32;
        seq!['\\', 'u', '0', '0', hex_digit((n / 16) as u8), hex_digit((n % 16) as u8)]
    } else {
        seq![c]
    }
}

/// The characters of a string of a tag or id array, one after the other.
pub open spec fn array_chars(s: Seq<char>) -> Seq<char>
    decreases s.len(),
{
    if s.len() == 0 {
        Seq::empty()
    } else {
        array_chars(s.drop_last()) + array_char(s.last())
    }
}

/// A list of texts as a JSON array of strings.
pub open spec fn array_text(list: Seq<Seq<char>>) -> Seq<char> {
    seq!['['] + joined(
        list.map_values(|s: Seq<char>| seq!['"'] + array_chars(s) + seq!['"']),
        seq![','],
    ) + seq![']']
}

/// Appends one character of an array string.
fn push_array_char(out: &mut String, c: char)
    ensures
        final(out)@ == old(out)@ + array_char(c),
{
    let ghost before = out@;
    if c == '"' || c == '\\' {
        out.push('\\');
        out.push(c);
    } else if c == '\n' {
        out.push('\\');
        out.push('n');
    } else if c == '\r' {
        out.push('\\');
        out.push('r');
    } else if c == '\t' {
        out.push('\\');
        out.push('t');
    } else {
        let n: u32 = c as u32;
        if n < 0x20 || (0x7f <= n && n <= 0x9f) {
            out.push('\\');
            out.push('u');
            out.push('0');
            out.push('0');
            out.push(crate::hex::digit_of((n / 16) as u8));
            out.push(crate::hex::digit_of((n % 16) as u8));
        } else {
            out.push(c);
        }
    }
    assert(out@ =~= before + array_char(c));
}

/// Appends one string of an array, in quotes.
fn push_array_string(out: &mut String, value: &str)
    ensures
        final(out)@ == old(out)@ + (seq!['"'] + array_chars(value@) + seq!['"']),
{
    let ghost before = out@;
    out.push('"');
    let chars = crate::text::chars_of(value);
    assert(out@ =~= before.push('"') + array_chars(value@.take(0)));
    for i in 0..chars.len()
        invariant
            chars@ == value@,
            out@ == before.push('"') + array_chars(value@.take(i as int)),
    {
        push_array_char(out, chars[i]);
        proof {
            let next = value@.take(i + 1);
            assert(next.drop_last() =~= value@.take(i as int));
            assert(out@ =~= before.push('"') + array_chars(next));
        }
    }
    assert(value@.take(value@.len() as int) =~= value@);
    out.push('"');
    assert(out@ =~= before + (seq!['"'] + array_chars(value@) + seq!['"']));
}

/// Writes a list of texts as a JSON array of strings.
pub fn string_array_json(values: &[String]) -> (r: String)
    ensures
        r@ == array_text(views(values@)),
{
    let mut output = String::new();
    output.push('[');
    let ghost items = views(values@).map_values(
        |s: Seq<char>| seq!['"'] + array_chars(s) + seq!['"'],
    );
    assert(output@ =~= seq!['['] + joined(items.take(0), seq![',']));
    for index in 0..values.len()
        invariant
            items == views(values@).map_values(
                |s: Seq<char>| seq!['"'] + array_chars(s) + seq!['"'],
            ),
            output@ == seq!['['] + joined(items.take(index as int), seq![',']),
    {
        let ghost before = items.take(index as int);
        let ghost after = items.take(index + 1);
        if index > 0 {
            output.push(',');
        }
        push_array_string(&mut output, values[index].as_str());
        proof {
            assert(items[index as int] == seq!['"'] + array_chars(values@[index as int]@)
                + seq!['"']);
            assert(after.drop_last() =~= before);
            assert(after.last() == items[index as int]);
            assert(output@ =~= seq!['['] + joined(after, seq![',']));
        }
    }
    assert(items.take(values@.len() as int) =~= items);
    output.push(']');
    assert(output@ =~= array_text(views(values@)));
    output
}

/// `true` or `false`, as JSON text.
pub open spec fn bool_text(flag: bool) -> Seq<char> {
    if flag {
        "true"@
    } else {
        "false"@
    }
}

/// Writes a flag as JSON text.
pub fn bool_json(flag: bool) -> (r: &'static str)
    ensures
        r@ == bool_text(flag),
{
    if flag {
        "true"
    } else {
        "false"
    }
}

} // verus!
