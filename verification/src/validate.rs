//! Checks of request values that all store operations share.

use vstd::prelude::*;

use crate::error::{invalid, invalid2, invalid3, verdict, Error, Fault};
use crate::json::text_of;
use crate::text::{chars_of, is_blank, text_eq, trim, trimmed, views};
use crate::vocabulary::{
    ALL_SPACES, MAX_MEMORY_LINKS, MAX_METADATA_VALUE_CHARS, MAX_TAGS, MAX_TAG_CHARS,
    MAX_TIMESTAMP_CHARS,
};

verus! {

/// The first of two possible faults.
pub open spec fn first_of(a: Option<Fault>, b: Option<Fault>) -> Option<Fault> {
    if a is Some {
        a
    } else {
        b
    }
}

/// A refused request, where a condition holds.
pub open spec fn refused_if(condition: bool, message: Seq<char>) -> Option<Fault> {
    if condition {
        Some(Fault::InvalidRequest(message))
    } else {
        None
    }
}

/// Refuses a request where a condition holds.
pub fn refuse_if(condition: bool, message: &str) -> (r: Result<(), Error>)
    ensures
        verdict(r) == refused_if(condition, message@),
{
    if condition {
        Err(invalid(message))
    } else {
        Ok(())
    }
}

/// A limit as a database integer.
pub fn limit_i64(limit: usize) -> (r: Result<i64, Error>)
    ensures
        match r {
            Ok(n) => n == limit,
            Err(e) => limit > i64::MAX && e@ == Fault::InvalidRequest("limit overflowed i64"@),
        },
{
    if limit as u64 > 0x7fff_ffff_ffff_ffff {
        Err(invalid("limit overflowed i64"))
    } else {
        Ok(limit as i64)
    }
}

/// Whether a text has no surrounding white space, is not empty, and is at most
/// `max` characters long.
pub open spec fn is_canonical(value: Seq<char>, max: nat) -> bool {
    trimmed(value) == value && value.len() > 0 && value.len() <= max
}

/// Tests [`is_canonical`].
pub fn canonical(value: &str, max: usize) -> (r: bool)
    ensures
        r == is_canonical(value@, max as nat),
{
    let core = trim(value);
    text_eq(core, value) && !value.is_empty() && value.unicode_len() <= max
}

/// The fault of a metadata value: it has to be non-blank and short.
pub open spec fn metadata_fault(name: Seq<char>, value: Option<Seq<char>>) -> Option<Fault> {
    match value {
        Some(text) => refused_if(
            is_blank(text) || text.len() > MAX_METADATA_VALUE_CHARS,
            name + " must be non-empty and at most 256 characters"@,
        ),
        None => None,
    }
}

/// Checks an optional metadata value.
pub fn validate_optional_metadata_value(name: &str, value: Option<&str>) -> (r: Result<(), Error>)
    ensures
        verdict(r) == metadata_fault(name@, text_of(value)),
{
    match value {
        Some(text) => {
            if trim(text).is_empty() || text.unicode_len() > MAX_METADATA_VALUE_CHARS {
                Err(invalid2(name, " must be non-empty and at most 256 characters"))
            } else {
                Ok(())
            }
        },
        None => Ok(()),
    }
}

/// The fault of naming all spaces where one has to be named.
pub open spec fn sentinel_fault(space: Option<Seq<char>>) -> Option<Fault> {
    refused_if(
        space == Some(ALL_SPACES@),
        "space must not be the reserved all-spaces sentinel \"*\""@,
    )
}

/// Refuses the all-spaces marker where one space has to be named.
pub fn reject_all_spaces_sentinel(space: Option<&str>) -> (r: Result<(), Error>)
    ensures
        verdict(r) == sentinel_fault(text_of(space)),
{
    match space {
        Some(name) => refuse_if(
            text_eq(name, ALL_SPACES),
            "space must not be the reserved all-spaces sentinel \"*\"",
        ),
        None => Ok(()),
    }
}

/// Whether a character is a decimal digit.
pub open spec fn is_digit(c: char) -> bool {
    '0' <= c && c <= '9'
}

/// Whether `n` digits stand at `i`.
pub open spec fn digits_at(s: Seq<char>, i: int, n: int) -> bool {
    0 <= i && i + n <= s.len() && forall|k: int| i <= k < i + n ==> is_digit(#[trigger] s[k])
}

/// The number that two digits make.
pub open spec fn two_digits(s: Seq<char>, i: int) -> int {
    (s[i] as int - '0' as int) * 10 + (s[i + 1] as int - '0' as int)
}

/// Whether the parts of a timestamp at the given places are digits in range.
pub open spec fn parts_valid(
    s: Seq<char>,
    year: int,
    month: int,
    day: int,
    hour: int,
    minute: int,
    second: int,
) -> bool {
    &&& digits_at(s, year, 4)
    &&& digits_at(s, month, 2)
    &&& digits_at(s, day, 2)
    &&& digits_at(s, hour, 2)
    &&& digits_at(s, minute, 2)
    &&& digits_at(s, second, 2)
    &&& 1 <= two_digits(s, month) <= 12
    &&& 1 <= two_digits(s, day) <= 31
    &&& two_digits(s, hour) <= 23
    &&& two_digits(s, minute) <= 59
    &&& two_digits(s, second) <= 59
}

fn are_digits(s: &[char], i: usize, n: usize) -> (r: bool)
    requires
        i + n <= usize::MAX,
    ensures
        r == digits_at(s@, i as int, n as int),
{
    if i + n > s.len() {
        return false;
    }
    for k in i..i + n
        invariant
            i + n <= s@.len(),
            forall|j: int| i <= j < k ==> is_digit(#[trigger] s@[j]),
    {
        if !('0' <= s[k] && s[k] <= '9') {
            return false;
        }
    }
    true
}

fn number_at(s: &[char], i: usize) -> (r: u32)
    requires
        digits_at(s@, i as int, 2),
    ensures
        r == two_digits(s@, i as int),
        r < 100,
{
    assert(is_digit(s@[i as int]));
    assert(is_digit(s@[i + 1]));
    (s[i] as u32 - '0' as u32) * 10 + (s[i + 1] as u32 - '0' as u32)
}

/// Tests the parts of a timestamp.
pub fn timestamp_parts_are_valid(
    s: &[char],
    year: usize,
    month: usize,
    day: usize,
    hour: usize,
    minute: usize,
    second: usize,
) -> (r: bool)
    requires
        year < 100,
        month < 100,
        day < 100,
        hour < 100,
        minute < 100,
        second < 100,
    ensures
        r == parts_valid(
            s@,
            year as int,
            month as int,
            day as int,
            hour as int,
            minute as int,
            second as int,
        ),
{
    if !(are_digits(s, year, 4) && are_digits(s, month, 2) && are_digits(s, day, 2) && are_digits(
        s,
        hour,
        2,
    ) && are_digits(s, minute, 2) && are_digits(s, second, 2)) {
        return false;
    }
    let months: u32 = number_at(s, month);
    let days: u32 = number_at(s, day);
    1 <= months && months <= 12 && 1 <= days && days <= 31 && number_at(s, hour) <= 23
        && number_at(s, minute) <= 59 && number_at(s, second) <= 59
}

/// Whether a text has the shape of a date and time with the given mark between
/// them, up to the seconds.
pub open spec fn clock_shape(s: Seq<char>, mark: char) -> bool {
    &&& s.len() >= 19
    &&& s[4] == '-'
    &&& s[7] == '-'
    &&& s[10] == mark
    &&& s[13] == ':'
    &&& s[16] == ':'
    &&& parts_valid(s, 0, 5, 8, 11, 14, 17)
}

fn has_clock_shape(s: &[char], mark: char) -> (r: bool)
    ensures
        r == clock_shape(s@, mark),
{
    s.len() >= 19 && s[4] == '-' && s[7] == '-' && s[10] == mark && s[13] == ':' && s[16] == ':'
        && timestamp_parts_are_valid(s, 0, 5, 8, 11, 14, 17)
}

/// Whether a text is a UTC timestamp: date, `T`, time, an optional fraction of
/// the second, and `Z`.
pub open spec fn utc_shape(s: Seq<char>) -> bool {
    &&& s.len() >= 20
    &&& clock_shape(s, 'T')
    &&& s.last() == 'Z'
    &&& s.len() == 20 || (s.len() >= 22 && s[19] == '.' && digits_at(s, 20, s.len() - 21))
}

/// Tests [`utc_shape`].
pub fn is_utc_rfc3339_like(value: &str) -> (r: bool)
    ensures
        r == utc_shape(value@),
{
    let s = chars_of(value);
    let n: usize = s.len();
    n >= 20 && has_clock_shape(s.as_slice(), 'T') && s[n - 1] == 'Z' && (n == 20 || (n >= 22
        && s[19] == '.' && are_digits(s.as_slice(), 20, n - 21)))
}

/// Whether a text is a timestamp as the database writes the current time.
pub open spec fn database_time_shape(s: Seq<char>) -> bool {
    s.len() == 19 && clock_shape(s, ' ')
}

/// Tests [`database_time_shape`].
pub fn is_sqlite_current_timestamp_like(value: &str) -> (r: bool)
    ensures
        r == database_time_shape(value@),
{
    let s = chars_of(value);
    s.len() == 19 && has_clock_shape(s.as_slice(), ' ')
}

/// The fault of a timestamp: it has to be a UTC timestamp of bounded length.
pub open spec fn timestamp_fault(name: Seq<char>, value: Option<Seq<char>>) -> Option<Fault> {
    match value {
        Some(text) => refused_if(
            text.len() > MAX_TIMESTAMP_CHARS || !utc_shape(text),
            name + " must be a bounded UTC timestamp"@,
        ),
        None => None,
    }
}

/// Checks an optional timestamp.
pub fn validate_optional_timestamp(name: &str, value: Option<&str>) -> (r: Result<(), Error>)
    ensures
        verdict(r) == timestamp_fault(name@, text_of(value)),
{
    match value {
        Some(text) => {
            if text.unicode_len() > MAX_TIMESTAMP_CHARS || !is_utc_rfc3339_like(text) {
                Err(invalid2(name, " must be a bounded UTC timestamp"))
            } else {
                Ok(())
            }
        },
        None => Ok(()),
    }
}

/// A UTC timestamp with exactly three digits of the second's fraction; any other
/// text as it is.
pub open spec fn to_milliseconds(s: Seq<char>) -> Seq<char> {
    if utc_shape(s) {
        let digit = |k: int|
            if 20 + k < s.len() - 1 {
                s[20 + k]
            } else {
                '0'
            };
        s.take(19) + seq!['.', digit(0), digit(1), digit(2), 'Z']
    } else {
        s
    }
}

/// Brings a UTC timestamp to a fixed width, so that its order as a text is its
/// order in time.
pub fn normalize_utc_timestamp(value: &str) -> (r: String)
    ensures
        r@ == to_milliseconds(value@),
{
    if !is_utc_rfc3339_like(value) {
        return value.to_owned();
    }
    let s = chars_of(value);
    let mut out = value.substring_char(0, 19).to_owned();
    assert(value@.subrange(0, 19) =~= value@.take(19));
    let ghost head = out@;
    out.push('.');
    out.push(if 20 < s.len() - 1 { s[20] } else { '0' });
    out.push(if 21 < s.len() - 1 { s[21] } else { '0' });
    out.push(if 22 < s.len() - 1 { s[22] } else { '0' });
    out.push('Z');
    assert(out@ =~= to_milliseconds(value@));
    out
}

/// A timestamp brought to milliseconds has a fixed width, is a UTC timestamp
/// again, and stays as it is when brought there once more.
pub proof fn law_milliseconds_are_stable(s: Seq<char>)
    requires
        utc_shape(s),
    ensures
        to_milliseconds(s).len() == 24,
        utc_shape(to_milliseconds(s)),
        to_milliseconds(to_milliseconds(s)) == to_milliseconds(s),
{
    let t = to_milliseconds(s);
    assert forall|i: int| 0 <= i < 19 implies t[i] == s[i] by {}
    assert forall|k: int| 20 <= k < 23 implies is_digit(#[trigger] t[k]) by {
        if k < s.len() - 1 {
            assert(is_digit(s[k]));
        }
    }
    assert(to_milliseconds(t) =~= t);
}

/// What the tags of a memory are after trimming, or what is wrong with them.
pub open spec fn tags_from(tags: Seq<Seq<char>>, seen: Seq<Seq<char>>) -> Result<
    Seq<Seq<char>>,
    Fault,
>
    decreases tags.len(),
{
    if tags.len() == 0 {
        Ok(seen)
    } else {
        let tag = trimmed(tags[0]);
        if tag.len() == 0 || tag.len() > MAX_TAG_CHARS {
            Err(Fault::InvalidRequest("tags must be non-empty and at most 128 characters"@))
        } else if seen.contains(tag) {
            Err(Fault::InvalidRequest("duplicate tag: "@ + tag))
        } else {
            tags_from(tags.skip(1), seen.push(tag))
        }
    }
}

/// The trimmed tags of a memory, or what is wrong with them.
pub open spec fn normal_tags(tags: Seq<Seq<char>>) -> Result<Seq<Seq<char>>, Fault> {
    if tags.len() > MAX_TAGS {
        Err(Fault::InvalidRequest("at most 64 tags are allowed"@))
    } else {
        tags_from(tags, Seq::empty())
    }
}

/// Trims tags and refuses blank, overlong and repeated ones.
pub fn normalized_tags(tags: &[String]) -> (r: Result<Vec<String>, Error>)
    ensures
        match r {
            Ok(list) => normal_tags(views(tags@)) == Ok::<Seq<Seq<char>>, Fault>(views(list@)),
            Err(e) => normal_tags(views(tags@)) == Err::<Seq<Seq<char>>, Fault>(e@),
        },
{
    if tags.len() > MAX_TAGS {
        return Err(invalid("at most 64 tags are allowed"));
    }
    let ghost all = views(tags@);
    let mut out: Vec<String> = Vec::new();
    assert(all.skip(0) =~= all);
    assert(views(out@) =~= Seq::empty());
    for i in 0..tags.len()
        invariant
            all == views(tags@),
            all.len() <= MAX_TAGS,
            normal_tags(all) == tags_from(all.skip(i as int), views(out@)),
    {
        let tag = trim(tags[i].as_str());
        proof {
            assert(all.skip(i as int)[0] == tags@[i as int]@);
            assert(all.skip(i as int).skip(1) =~= all.skip(i + 1));
        }
        if tag.is_empty() || tag.unicode_len() > MAX_TAG_CHARS {
            return Err(invalid("tags must be non-empty and at most 128 characters"));
        }
        if crate::text::list_contains(out.as_slice(), tag) {
            return Err(invalid2("duplicate tag: ", tag));
        }
        let ghost before = out@;
        out.push(tag.to_owned());
        assert(views(out@) =~= views(before).push(tag@));
    }
    assert(all.skip(tags@.len() as int).len() == 0);
    Ok(out)
}

proof fn lemma_tags_from_clean(tags: Seq<Seq<char>>, seen: Seq<Seq<char>>)
    requires
        seen.no_duplicates(),
        forall|i: int| 0 <= i < seen.len() ==> is_canonical(#[trigger] seen[i], MAX_TAG_CHARS as nat),
    ensures
        tags_from(tags, seen) matches Ok(list) ==> list.no_duplicates() && list.len() == seen.len()
            + tags.len() && forall|i: int|
            0 <= i < list.len() ==> is_canonical(#[trigger] list[i], MAX_TAG_CHARS as nat),
    decreases tags.len(),
{
    if tags.len() > 0 {
        let tag = trimmed(tags[0]);
        if !(tag.len() == 0 || tag.len() > MAX_TAG_CHARS) && !seen.contains(tag) {
            crate::text::lemma_trimmed_is_trimmed(tags[0]);
            crate::text::lemma_trimmed_fixed(tag);
            lemma_tags_from_clean(tags.skip(1), seen.push(tag));
        }
    }
}

/// Normal tags are trimmed, not blank, of bounded length and number, and none
/// occurs twice.
pub proof fn law_normal_tags_are_clean(tags: Seq<Seq<char>>)
    ensures
        normal_tags(tags) matches Ok(list) ==> list.no_duplicates() && list.len() == tags.len()
            && list.len() <= MAX_TAGS && forall|i: int|
            0 <= i < list.len() ==> is_canonical(#[trigger] list[i], MAX_TAG_CHARS as nat),
{
    if tags.len() <= MAX_TAGS {
        lemma_tags_from_clean(tags, Seq::empty());
    }
}

proof fn lemma_tags_from_fixed(tags: Seq<Seq<char>>, seen: Seq<Seq<char>>)
    requires
        (seen + tags).no_duplicates(),
        forall|i: int| 0 <= i < tags.len() ==> is_canonical(#[trigger] tags[i], MAX_TAG_CHARS as nat),
    ensures
        tags_from(tags, seen) == Ok::<Seq<Seq<char>>, Fault>(seen + tags),
    decreases tags.len(),
{
    if tags.len() == 0 {
        assert(seen + tags =~= seen);
    } else {
        let all = seen + tags;
        assert(is_canonical(tags[0], MAX_TAG_CHARS as nat));
        assert(all[seen.len() as int] == tags[0]);
        if seen.contains(tags[0]) {
            let k = choose|k: int| 0 <= k < seen.len() && seen[k] == tags[0];
            assert(all[k] == all[seen.len() as int]);
        }
        assert(seen.push(tags[0]) + tags.skip(1) =~= all);
        assert forall|i: int| 0 <= i < tags.skip(1).len() implies is_canonical(
            #[trigger] tags.skip(1)[i],
            MAX_TAG_CHARS as nat,
        ) by {
            assert(tags.skip(1)[i] == tags[i + 1]);
        }
        lemma_tags_from_fixed(tags.skip(1), seen.push(tags[0]));
    }
}

/// Normalizing tags twice is the same as once.
pub proof fn law_normal_tags_are_stable(tags: Seq<Seq<char>>)
    ensures
        normal_tags(tags) matches Ok(list) ==> normal_tags(list) == Ok::<Seq<Seq<char>>, Fault>(
            list,
        ),
{
    law_normal_tags_are_clean(tags);
    if let Ok(list) = normal_tags(tags) {
        assert(Seq::<Seq<char>>::empty() + list =~= list);
        lemma_tags_from_fixed(list, Seq::empty());
    }
}

/// The fault of a list of memory ids in a request.
pub open spec fn link_ids_fault(name: Seq<char>, ids: Seq<Seq<char>>) -> Option<Fault> {
    if ids.len() > MAX_MEMORY_LINKS {
        Some(Fault::InvalidRequest("at most 128 "@ + name + " links are allowed"@))
    } else {
        ids_fault(name, ids)
    }
}

/// The first fault among ids.
pub open spec fn ids_fault(name: Seq<char>, ids: Seq<Seq<char>>) -> Option<Fault>
    decreases ids.len(),
{
    if ids.len() == 0 {
        None
    } else {
        first_of(ids_fault(name, ids.drop_last()), metadata_fault(name, Some(ids.last())))
    }
}

/// Checks a list of memory ids in a request.
pub fn validate_memory_link_ids(name: &str, ids: &[String]) -> (r: Result<(), Error>)
    ensures
        verdict(r) == link_ids_fault(name@, views(ids@)),
{
    if ids.len() > MAX_MEMORY_LINKS {
        return Err(invalid3("at most 128 ", name, " links are allowed"));
    }
    let ghost all = views(ids@);
    assert(all.take(0) =~= Seq::empty());
    for i in 0..ids.len()
        invariant
            all == views(ids@),
            ids@.len() <= MAX_MEMORY_LINKS,
            ids_fault(name@, all.take(i as int)) is None,
    {
        proof {
            assert(all.take(i + 1).drop_last() =~= all.take(i as int));
            assert(all.take(i + 1).last() == ids@[i as int]@);
        }
        match validate_optional_metadata_value(name, Some(ids[i].as_str())) {
            Err(e) => {
                proof {
                    lemma_ids_fault_prefix(name@, all, i + 1);
                }
                return Err(e);
            },
            Ok(_) => {},
        }
    }
    assert(all.take(ids@.len() as int) =~= all);
    Ok(())
}

proof fn lemma_ids_fault_prefix(name: Seq<char>, ids: Seq<Seq<char>>, n: int)
    requires
        0 <= n <= ids.len(),
        ids_fault(name, ids.take(n)) is Some,
    ensures
        ids_fault(name, ids) == ids_fault(name, ids.take(n)),
    decreases ids.len() - n,
{
    if n == ids.len() {
        assert(ids.take(n) =~= ids);
    } else {
        assert(ids.take(n + 1).drop_last() =~= ids.take(n));
        lemma_ids_fault_prefix(name, ids, n + 1);
    }
}

/// The fault of the value of a filter.
pub open spec fn filter_value_fault(value: Seq<char>) -> Option<Fault> {
    refused_if(
        is_blank(value) || trimmed(value).len() > MAX_METADATA_VALUE_CHARS,
        "filter values must be non-empty and at most 256 characters"@,
    )
}

/// The fault of the first faulty value of a filter.
pub open spec fn filter_values_fault(values: Seq<Seq<char>>) -> Option<Fault>
    decreases values.len(),
{
    if values.len() == 0 {
        None
    } else {
        first_of(filter_values_fault(values.drop_last()), filter_value_fault(values.last()))
    }
}

/// Values without surrounding white space.
pub open spec fn trimmed_all(values: Seq<Seq<char>>) -> Seq<Seq<char>> {
    values.map_values(|v: Seq<char>| trimmed(v))
}

proof fn lemma_filter_values_prefix(values: Seq<Seq<char>>, n: int)
    requires
        0 <= n <= values.len(),
        filter_values_fault(values.take(n)) is Some,
    ensures
        filter_values_fault(values) == filter_values_fault(values.take(n)),
    decreases values.len() - n,
{
    if n < values.len() {
        assert(values.take(n + 1).drop_last() =~= values.take(n));
        lemma_filter_values_prefix(values, n + 1);
    } else {
        assert(values.take(n) =~= values);
    }
}

/// Brings the values of a filter into normal form: without surrounding white
/// space.
pub fn normalize_filter_values(values: &Vec<String>) -> (r: Result<Vec<String>, Error>)
    ensures
        match r {
            Ok(list) => filter_values_fault(views(values@)) is None && views(list@) == trimmed_all(
                views(values@),
            ),
            Err(e) => filter_values_fault(views(values@)) == Some(e@),
        },
{
    let ghost all = views(values@);
    let ghost wanted = trimmed_all(all);
    let mut out: Vec<String> = Vec::new();
    assert(views(out@) =~= wanted.take(0));
    for i in 0..values.len()
        invariant
            all == views(values@),
            wanted == trimmed_all(all),
            filter_values_fault(all.take(i as int)) is None,
            views(out@) == wanted.take(i as int),
    {
        let value = trim(values[i].as_str());
        proof {
            assert(all.take(i + 1).drop_last() =~= all.take(i as int));
            assert(all.take(i + 1).last() == all[i as int]);
        }
        if value.is_empty() || value.unicode_len() > MAX_METADATA_VALUE_CHARS {
            proof {
                lemma_filter_values_prefix(all, i + 1);
            }
            return Err(invalid("filter values must be non-empty and at most 256 characters"));
        }
        let ghost before = out@;
        out.push(value.to_owned());
        assert(views(out@) =~= views(before).push(wanted[i as int]));
        assert(wanted.take(i + 1) =~= wanted.take(i as int).push(wanted[i as int]));
    }
    assert(all.take(values@.len() as int) =~= all);
    assert(wanted.take(values@.len() as int) =~= wanted);
    Ok(out)
}

} // verus!
