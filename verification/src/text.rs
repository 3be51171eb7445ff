//! Text primitives: characters, trimming, slicing and joining.
//!
//! A string is modelled by its sequence of Unicode scalar values, `s@`.

use vstd::prelude::*;

verus! {

/// Characters with the Unicode `White_Space` property.
pub open spec fn is_space(c: char) -> bool {
    let n = c as u32;
    ||| 0x09 <= n <= 0x0d
    ||| n == 0x20
    ||| n == 0x85
    ||| n == 0xa0
    ||| n == 0x1680
    ||| 0x2000 <= n <= 0x200a
    ||| n == 0x2028
    ||| n == 0x2029
    ||| n == 0x202f
    ||| n == 0x205f
    ||| n == 0x3000
}

/// Whether `c` is whitespace.
pub fn is_whitespace(c: char) -> (r: bool)
    ensures
        r == is_space(c),
{
    let n: u32 = c as u32;
    (0x09 <= n && n <= 0x0d) || n == 0x20 || n == 0x85 || n == 0xa0 || n == 0x1680 || (0x2000 <= n
        && n <= 0x200a) || n == 0x2028 || n == 0x2029 || n == 0x202f || n == 0x205f || n == 0x3000
}

/// The ASCII lower-case form of one character; other characters stand for themselves.
pub open spec fn lower_char(c: char) -> char {
    if 'A' <= c <= 'Z' {
        ((c as u32 + 32) as u32) as char
    } else {
        c
    }
}

/// ASCII lower-casing of one character.
pub fn to_lower_char(c: char) -> (r: char)
    ensures
        r == lower_char(c),
{
    if 'A' <= c && c <= 'Z' {
        let b: u8 = c as u8;
        (b + 32) as char
    } else {
        c
    }
}

/// ASCII lower-casing of a text, character by character.
pub open spec fn lower(s: Seq<char>) -> Seq<char> {
    s.map_values(|c: char| lower_char(c))
}

/// Appends one character to a string (`String::push`): the text grows by that
/// character at its end.
pub assume_specification[ String::push ](s: &mut String, c: char)
    ensures
        final(s)@ == old(s)@.push(c),
;

/// Whether two texts hold the same characters: their bytes are compared.
pub fn text_eq(a: &str, b: &str) -> (r: bool)
    ensures
        r == (a@ == b@),
{
    let x = a.as_bytes();
    let y = b.as_bytes();
    if x.len() != y.len() {
        return false;
    }
    for i in 0..x.len()
        invariant
            x@ == vstd::utf8::encode_utf8(a@),
            y@ == vstd::utf8::encode_utf8(b@),
            x@.len() == y@.len(),
            forall|k: int| 0 <= k < i ==> x@[k] == y@[k],
    {
        if x[i] != y[i] {
            return false;
        }
    }
    proof {
        assert(x@ =~= y@);
        vstd::utf8::encode_utf8_decode_utf8(a@);
        vstd::utf8::encode_utf8_decode_utf8(b@);
    }
    true
}

/// The characters of a string, in order.
pub fn chars_of(s: &str) -> (r: Vec<char>)
    ensures
        r@ == s@,
{
    let mut out: Vec<char> = Vec::new();
    for c in it: s.chars()
        invariant
            out@ == it.seq().take(it.index() as int),
            it.seq() == s@,
    {
        out.push(c);
    }
    assert(s@.take(s@.len() as int) =~= s@);
    out
}

/// The text without its leading whitespace.
pub open spec fn trim_start(s: Seq<char>) -> Seq<char>
    decreases s.len(),
{
    if s.len() > 0 && is_space(s.first()) {
        trim_start(s.drop_first())
    } else {
        s
    }
}

/// The text without its trailing whitespace.
pub open spec fn trim_end(s: Seq<char>) -> Seq<char>
    decreases s.len(),
{
    if s.len() > 0 && is_space(s.last()) {
        trim_end(s.drop_last())
    } else {
        s
    }
}

/// The text without the whitespace around it.
pub open spec fn trimmed(s: Seq<char>) -> Seq<char> {
    trim_end(trim_start(s))
}

/// Whether a text starts and ends with something other than whitespace, or is empty.
pub open spec fn is_trimmed(s: Seq<char>) -> bool {
    s.len() > 0 ==> !is_space(s.first()) && !is_space(s.last())
}

proof fn lemma_trim_start_from(s: Seq<char>, k: int)
    requires
        0 <= k <= s.len(),
        forall|i: int| 0 <= i < k ==> is_space(s[i]),
        k < s.len() ==> !is_space(s[k]),
    ensures
        trim_start(s) == s.skip(k),
    decreases k,
{
    if k == 0 {
        assert(s.skip(0) =~= s);
    } else {
        lemma_trim_start_from(s.drop_first(), k - 1);
        assert(s.drop_first().skip(k - 1) =~= s.skip(k));
    }
}

proof fn lemma_trim_end_at(s: Seq<char>, k: int)
    requires
        0 <= k <= s.len(),
        forall|i: int| k <= i < s.len() ==> is_space(s[i]),
        k > 0 ==> !is_space(s[k - 1]),
    ensures
        trim_end(s) == s.take(k),
    decreases s.len() - k,
{
    if k == s.len() {
        assert(s.take(k) =~= s);
    } else {
        lemma_trim_end_at(s.drop_last(), k);
        assert(s.drop_last().take(k) =~= s.take(k));
    }
}

/// The text between the leading and trailing whitespace of `s`.
pub fn trim(s: &str) -> (r: &str)
    ensures
        r@ == trimmed(s@),
{
    let chars = chars_of(s);
    let mut start: usize = 0;
    while start < chars.len() && is_whitespace(chars[start])
        invariant
            start <= chars.len(),
            chars@ == s@,
            forall|i: int| 0 <= i < start ==> is_space(s@[i]),
        decreases chars.len() - start,
    {
        start = start + 1;
    }
    let mut end: usize = chars.len();
    while end > start && is_whitespace(chars[end - 1])
        invariant
            start <= end <= chars.len(),
            chars@ == s@,
            forall|i: int| end <= i < s@.len() ==> is_space(s@[i]),
        decreases end,
    {
        end = end - 1;
    }
    proof {
        lemma_trim_start_from(s@, start as int);
        let rest = s@.skip(start as int);
        lemma_trim_end_at(rest, end - start);
        assert(rest.take(end - start) =~= s@.subrange(start as int, end as int));
    }
    s.substring_char(start, end)
}

/// The text behind the leading whitespace of `s`.
pub fn trim_left(s: &str) -> (r: &str)
    ensures
        r@ == trim_start(s@),
{
    let chars = chars_of(s);
    let mut start: usize = 0;
    while start < chars.len() && is_whitespace(chars[start])
        invariant
            start <= chars.len(),
            chars@ == s@,
            forall|i: int| 0 <= i < start ==> is_space(s@[i]),
        decreases chars.len() - start,
    {
        start = start + 1;
    }
    proof {
        lemma_trim_start_from(s@, start as int);
        assert(s@.skip(start as int) =~= s@.subrange(start as int, s@.len() as int));
    }
    s.substring_char(start, chars.len())
}

/// Trimming yields a trimmed part of the text.
pub proof fn lemma_trimmed_is_trimmed(s: Seq<char>)
    ensures
        is_trimmed(trimmed(s)),
        trimmed(s).len() <= s.len(),
        forall|c: char| trimmed(s).contains(c) ==> s.contains(c),
{
    lemma_trim_start_shape(s);
    lemma_trim_end_shape(trim_start(s));
    let a = trim_start(s);
    let b = trim_end(a);
    if b.len() > 0 {
        assert(b.first() == a.first());
    }
    assert forall|c: char| b.contains(c) implies s.contains(c) by {
        let i = choose|i: int| 0 <= i < b.len() && b[i] == c;
        assert(a[i] == c);
        assert(a.contains(c));
    }
}

proof fn lemma_trim_start_shape(s: Seq<char>)
    ensures
        trim_start(s).len() <= s.len(),
        trim_start(s) == s.skip(s.len() - trim_start(s).len()),
        trim_start(s).len() > 0 ==> !is_space(trim_start(s).first()),
        forall|i: int| 0 <= i < s.len() - trim_start(s).len() ==> is_space(s[i]),
        forall|c: char| trim_start(s).contains(c) ==> s.contains(c),
    decreases s.len(),
{
    if s.len() > 0 && is_space(s.first()) {
        let t = s.drop_first();
        lemma_trim_start_shape(t);
        let r = trim_start(s);
        assert(r =~= s.skip(s.len() - r.len()));
        assert forall|i: int| 0 <= i < s.len() - r.len() implies is_space(s[i]) by {
            if i > 0 {
                assert(t[i - 1] == s[i]);
            }
        }
        assert forall|c: char| r.contains(c) implies s.contains(c) by {
            assert(t.contains(c));
            let i = choose|i: int| 0 <= i < t.len() && t[i] == c;
            assert(s[i + 1] == c);
        }
    } else {
        assert(s.skip(0) =~= s);
    }
}

proof fn lemma_trim_end_shape(s: Seq<char>)
    ensures
        trim_end(s).len() <= s.len(),
        trim_end(s) == s.take(trim_end(s).len() as int),
        trim_end(s).len() > 0 ==> !is_space(trim_end(s).last()),
        forall|i: int| trim_end(s).len() <= i < s.len() ==> is_space(s[i]),
    decreases s.len(),
{
    if s.len() > 0 && is_space(s.last()) {
        let t = s.drop_last();
        lemma_trim_end_shape(t);
        let r = trim_end(s);
        assert(r =~= s.take(r.len() as int));
        assert forall|i: int| r.len() <= i < s.len() implies is_space(s[i]) by {
            if i < t.len() {
                assert(t[i] == s[i]);
            }
        }
    } else {
        assert(s.take(s.len() as int) =~= s);
    }
}

/// A trimmed text is its own trimming.
pub proof fn lemma_trimmed_fixed(s: Seq<char>)
    requires
        is_trimmed(s),
    ensures
        trimmed(s) == s,
{
}

/// Whether nothing but whitespace stands in the text.
pub open spec fn is_blank(s: Seq<char>) -> bool {
    trimmed(s).len() == 0
}

/// Every run of whitespace replaced by one space.
pub open spec fn squeezed(s: Seq<char>) -> Seq<char>
    decreases s.len(),
{
    if s.len() == 0 {
        s
    } else {
        let before = squeezed(s.drop_last());
        if !is_space(s.last()) {
            before.push(s.last())
        } else if s.len() > 1 && is_space(s[s.len() - 2]) {
            before
        } else {
            before.push(' ')
        }
    }
}

/// The words of a text with one space between them.
pub open spec fn collapsed(s: Seq<char>) -> Seq<char> {
    trimmed(squeezed(s))
}

/// Replaces every run of whitespace by one space and drops it at both ends.
pub fn collapse_whitespace(value: &str) -> (r: String)
    ensures
        r@ == collapsed(value@),
{
    let chars = chars_of(value);
    let mut output = String::new();
    let mut previous_was_space: bool = false;
    for i in 0..chars.len()
        invariant
            chars@ == value@,
            output@ == squeezed(value@.take(i as int)),
            previous_was_space == (i > 0 && is_space(value@[i - 1])),
    {
        let character = chars[i];
        proof {
            let next = value@.take(i + 1);
            assert(next.drop_last() =~= value@.take(i as int));
            assert(next.last() == character);
        }
        if is_whitespace(character) {
            if !previous_was_space {
                output.push(' ');
                previous_was_space = true;
            }
        } else {
            output.push(character);
            previous_was_space = false;
        }
    }
    assert(value@.take(value@.len() as int) =~= value@);
    trim(output.as_str()).to_owned()
}

/// Whether a text is trimmed and holds no whitespace but single spaces.
pub open spec fn is_collapsed(s: Seq<char>) -> bool {
    &&& is_trimmed(s)
    &&& forall|i: int| 0 <= i < s.len() && is_space(#[trigger] s[i]) ==> s[i] == ' '
    &&& forall|i: int| 0 < i < s.len() && is_space(#[trigger] s[i]) ==> !is_space(s[i - 1])
}

proof fn lemma_squeezed_shape(s: Seq<char>)
    ensures
        forall|i: int|
            0 <= i < squeezed(s).len() && is_space(#[trigger] squeezed(s)[i]) ==> squeezed(s)[i]
                == ' ',
        forall|i: int|
            0 < i < squeezed(s).len() && is_space(#[trigger] squeezed(s)[i]) ==> !is_space(
                squeezed(s)[i - 1],
            ),
        s.len() > 0 ==> squeezed(s).len() > 0 && is_space(squeezed(s).last()) == is_space(s.last()),
    decreases s.len(),
{
    if s.len() > 0 {
        let t = s.drop_last();
        lemma_squeezed_shape(t);
        if t.len() > 0 {
            assert(t.last() == s[s.len() - 2]);
        }
        let before = squeezed(t);
        let after = squeezed(s);
        assert forall|i: int| 0 <= i < after.len() && is_space(#[trigger] after[i]) implies after[i]
            == ' ' by {
            if i < before.len() {
                assert(after[i] == before[i]);
            }
        }
        assert forall|i: int| 0 < i < after.len() && is_space(#[trigger] after[i]) implies !is_space(
            after[i - 1],
        ) by {
            if i < before.len() {
                assert(after[i] == before[i]);
                assert(after[i - 1] == before[i - 1]);
            } else {
                assert(after[i - 1] == before.last());
            }
        }
    }
}

proof fn lemma_squeezed_fixed(s: Seq<char>)
    requires
        forall|i: int| 0 <= i < s.len() && is_space(#[trigger] s[i]) ==> s[i] == ' ',
        forall|i: int| 0 < i < s.len() && is_space(#[trigger] s[i]) ==> !is_space(s[i - 1]),
    ensures
        squeezed(s) == s,
    decreases s.len(),
{
    if s.len() > 0 {
        let t = s.drop_last();
        assert forall|i: int| 0 < i < t.len() && is_space(#[trigger] t[i]) implies !is_space(
            t[i - 1],
        ) by {
            assert(t[i] == s[i]);
        }
        lemma_squeezed_fixed(t);
        assert(t.push(s.last()) =~= s);
        assert(s[s.len() - 1] == s.last());
    }
}

/// Collapsing a text yields a collapsed text, and collapsing that again changes nothing.
pub proof fn law_collapse_is_idempotent(s: Seq<char>)
    ensures
        is_collapsed(collapsed(s)),
        collapsed(collapsed(s)) == collapsed(s),
{
    let q = squeezed(s);
    let c = collapsed(s);
    lemma_squeezed_shape(s);
    lemma_trimmed_is_trimmed(q);
    lemma_trim_start_shape(q);
    lemma_trim_end_shape(trim_start(q));
    let off = q.len() - trim_start(q).len();
    assert forall|i: int| 0 <= i < c.len() implies #[trigger] c[i] == q[i + off] by {}
    assert forall|i: int| 0 < i < c.len() && is_space(#[trigger] c[i]) implies !is_space(
        c[i - 1],
    ) by {
        assert(c[i - 1] == q[i - 1 + off]);
        assert(is_space(q[i + off]));
    }
    lemma_squeezed_fixed(c);
    lemma_trimmed_fixed(c);
}

/// ASCII lower-casing of a string.
pub fn to_ascii_lower(s: &str) -> (r: String)
    ensures
        r@ == lower(s@),
{
    let mut out = String::new();
    for c in it: s.chars()
        invariant
            out@ == lower(it.seq().take(it.index() as int)),
            it.seq() == s@,
    {
        out.push(to_lower_char(c));
        proof {
            let n = it.index() as int;
            assert(lower(it.seq().take(n + 1)) =~= lower(it.seq().take(n)).push(lower_char(c)));
        }
    }
    assert(s@.take(s@.len() as int) =~= s@);
    out
}

/// The `max` characters that follow the first `start` ones, as far as there are any.
pub open spec fn char_window(s: Seq<char>, start: nat, max: nat) -> Seq<char> {
    let from = if start < s.len() { start as int } else { s.len() as int };
    let to = if from + max < s.len() { from + max } else { s.len() as int };
    s.subrange(from, to)
}

/// At most `max_chars` characters of `value`, from position `start_char` on.
pub fn bounded_char_slice(value: &str, start_char: usize, max_chars: usize) -> (r: String)
    ensures
        r@ == char_window(value@, start_char as nat, max_chars as nat),
{
    let len: usize = value.unicode_len();
    let from: usize = if start_char < len { start_char } else { len };
    let to: usize = if max_chars < len - from { from + max_chars } else { len };
    value.substring_char(from, to).to_owned()
}

/// Whether `term` stands in `s` at position `i`.
pub open spec fn occurs_at(s: Seq<char>, term: Seq<char>, i: int) -> bool {
    0 <= i && i + term.len() <= s.len() && s.subrange(i, i + term.len()) == term
}

/// Whether `term` stands in `s` at position `i`.
pub fn matches_at(s: &[char], term: &[char], i: usize) -> (r: bool)
    ensures
        r == occurs_at(s@, term@, i as int),
{
    if i > s.len() || term.len() > s.len() - i {
        return false;
    }
    let mut k: usize = 0;
    while k < term.len()
        invariant
            k <= term.len(),
            i + term.len() <= s.len(),
            forall|j: int| 0 <= j < k ==> s@[i + j] == term@[j],
        decreases term.len() - k,
    {
        if s[i + k] != term[k] {
            assert(s@.subrange(i as int, i + term@.len())[k as int] == s@[i + k]);
            return false;
        }
        k = k + 1;
    }
    assert(s@.subrange(i as int, i + term@.len()) =~= term@);
    true
}

/// Whether one of the terms stands in `s` at position `i`.
pub open spec fn any_occurs_at(s: Seq<char>, terms: Seq<Seq<char>>, i: int) -> bool {
    exists|k: int| 0 <= k < terms.len() && occurs_at(s, #[trigger] terms[k], i)
}

/// The first position at which one of the terms stands; 0 where none does.
pub open spec fn first_occurrence(s: Seq<char>, terms: Seq<Seq<char>>) -> int {
    if exists|i: int| #[trigger] any_occurs_at(s, terms, i) {
        choose|i: int|
            #[trigger] any_occurs_at(s, terms, i) && forall|j: int|
                j < i ==> !#[trigger] any_occurs_at(s, terms, j)
    } else {
        0
    }
}

/// The models of a list of strings.
pub open spec fn views(list: Seq<String>) -> Seq<Seq<char>> {
    list.map_values(|s: String| s@)
}

/// The snippet of `content` that is centred on the first matched term.
pub open spec fn snippet(content: Seq<char>, terms: Seq<Seq<char>>, max: nat) -> Seq<char> {
    let at = first_occurrence(lower(content), terms);
    let half = max as int / 2;
    let start = if at > half { at - half } else { 0 };
    char_window(content, start as nat, max)
}

/// A window of `max_chars` characters around the first term that `content`
/// holds, letter case of ASCII letters aside; its beginning where it holds none.
#[verifier::rlimit(40)]
#[verifier::spinoff_prover]
pub fn make_snippet(content: &str, terms: &[String], max_chars: usize) -> (r: String)
    ensures
        r@ == snippet(content@, views(terms@), max_chars as nat),
{
    if max_chars == 0 {
        proof {
            let at = first_occurrence(lower(content@), views(terms@));
            let start = if at > 0 { at } else { 0 };
            assert(char_window(content@, start as nat, 0) =~= Seq::empty());
        }
        return String::new();
    }
    let lowered = to_ascii_lower(content);
    let lower_chars = chars_of(lowered.as_str());
    let ghost model = lower(content@);
    let ghost term_models = views(terms@);
    let mut at: usize = 0;
    let mut found: bool = false;
    loop
        invariant_except_break
            !found,
        invariant
            lower_chars@ == model,
            term_models == views(terms@),
            at <= lower_chars.len(),
            forall|j: int| j < at ==> !#[trigger] any_occurs_at(model, term_models, j),
        ensures
            found ==> any_occurs_at(model, term_models, at as int),
            !found ==> at == lower_chars.len() && !any_occurs_at(model, term_models, at as int),
        decreases lower_chars.len() - at,
    {
        let mut k: usize = 0;
        while k < terms.len() && !found
            invariant
                lower_chars@ == model,
                term_models == views(terms@),
                k <= terms.len(),
                forall|j: int|
                    0 <= j < k ==> !occurs_at(model, #[trigger] term_models[j], at as int),
                found ==> any_occurs_at(model, term_models, at as int),
            decreases terms.len() - k + (if found { 0int } else { 1int }),
        {
            let term = chars_of(terms[k].as_str());
            assert(term@ == term_models[k as int]);
            if matches_at(lower_chars.as_slice(), term.as_slice(), at) {
                found = true;
            } else {
                k = k + 1;
            }
        }
        if found || at >= lower_chars.len() {
            break;
        }
        at = at + 1;
    }
    let first: usize = if found { at } else { 0 };
    proof {
        if !found {
            assert forall|i: int| !#[trigger] any_occurs_at(model, term_models, i) by {
                if i > at {
                    assert(i > model.len());
                }
            }
        } else {
            let c = first_occurrence(model, term_models);
            assert(any_occurs_at(model, term_models, at as int));
            if c < at {
                assert(!any_occurs_at(model, term_models, c));
            }
        }
    }
    let half: usize = max_chars / 2;
    let start: usize = if first > half { first - half } else { 0 };
    bounded_char_slice(content, start, max_chars)
}

/// The parts in order, with `separator` between neighbours.
pub open spec fn joined(parts: Seq<Seq<char>>, separator: Seq<char>) -> Seq<char>
    decreases parts.len(),
{
    if parts.len() == 0 {
        Seq::empty()
    } else if parts.len() == 1 {
        parts[0]
    } else {
        joined(parts.drop_last(), separator) + separator + parts.last()
    }
}

/// Joins strings with a separator between neighbours.
pub fn join(parts: &[String], separator: &str) -> (r: String)
    ensures
        r@ == joined(views(parts@), separator@),
{
    let mut out = String::new();
    for i in 0..parts.len()
        invariant
            out@ == joined(views(parts@).take(i as int), separator@),
    {
        proof {
            let models = views(parts@);
            assert(models.take(i + 1).drop_last() =~= models.take(i as int));
            assert(models.take(i + 1).last() == parts@[i as int]@);
            if i == 0 {
                assert(out@ + parts@[0]@ =~= parts@[0]@);
            }
        }
        if i > 0 {
            out.append(separator);
        }
        out.append(parts[i].as_str());
    }
    assert(views(parts@).take(parts@.len() as int) =~= views(parts@));
    out
}

/// Whether the list holds the text.
pub fn list_contains(list: &[String], value: &str) -> (r: bool)
    ensures
        r == views(list@).contains(value@),
{
    for i in 0..list.len()
        invariant
            forall|j: int| 0 <= j < i ==> views(list@)[j] != value@,
    {
        assert(views(list@)[i as int] == list@[i as int]@);
        if text_eq(list[i].as_str(), value) {
            return true;
        }
    }
    false
}

/// Whether `s` begins with `prefix`.
pub open spec fn begins_with(s: Seq<char>, prefix: Seq<char>) -> bool {
    occurs_at(s, prefix, 0)
}

/// Whether `s` ends with `suffix`.
pub open spec fn finishes_with(s: Seq<char>, suffix: Seq<char>) -> bool {
    suffix.len() <= s.len() && s.skip(s.len() - suffix.len()) == suffix
}

/// What follows `prefix` in `s`, where `s` begins with it.
pub fn strip_prefix<'a>(s: &'a str, prefix: &str) -> (r: Option<&'a str>)
    ensures
        r is Some <==> begins_with(s@, prefix@),
        r matches Some(rest) ==> rest@ == s@.skip(prefix@.len() as int),
{
    let chars = chars_of(s);
    let wanted = chars_of(prefix);
    if matches_at(chars.as_slice(), wanted.as_slice(), 0) {
        assert(s@.skip(prefix@.len() as int) =~= s@.subrange(
            prefix@.len() as int,
            s@.len() as int,
        ));
        Some(s.substring_char(wanted.len(), chars.len()))
    } else {
        None
    }
}

/// What stands before `suffix` in `s`, where `s` ends with it.
pub fn strip_suffix<'a>(s: &'a str, suffix: &str) -> (r: Option<&'a str>)
    ensures
        r is Some <==> finishes_with(s@, suffix@),
        r matches Some(rest) ==> rest@ == s@.take(s@.len() - suffix@.len()),
{
    let chars = chars_of(s);
    let wanted = chars_of(suffix);
    if wanted.len() > chars.len() {
        return None;
    }
    let at: usize = chars.len() - wanted.len();
    assert(s@.skip(at as int) =~= s@.subrange(at as int, at + suffix@.len()));
    if matches_at(chars.as_slice(), wanted.as_slice(), at) {
        assert(s@.take(at as int) =~= s@.subrange(0, at as int));
        Some(s.substring_char(0, at))
    } else {
        None
    }
}

/// The decimal digits of a number.
pub open spec fn decimal(n: nat) -> Seq<char>
    decreases n,
{
    if n < 10 {
        seq![digit(n)]
    } else {
        decimal(n / 10).push(digit(n % 10))
    }
}

/// The decimal digit with the value `n`.
pub open spec fn digit(n: nat) -> char {
    (('0' as u32 + n) as u32) as char
}

/// Writes a number in decimal.
pub fn decimal_of(n: u64) -> (r: String)
    ensures
        r@ == decimal(n as nat),
    decreases n,
{
    let d: char = (48u8 + (n % 10) as u8) as char;
    if n < 10 {
        let mut out = String::new();
        out.push(d);
        assert(out@ =~= decimal(n as nat));
        out
    } else {
        let mut out = decimal_of(n / 10);
        out.push(d);
        out
    }
}

/// The texts between the separators in a text.
pub open spec fn parts_by(s: Seq<char>, separator: char) -> Seq<Seq<char>>
    decreases s.len(),
{
    if s.len() == 0 {
        seq![Seq::empty()]
    } else {
        let before = parts_by(s.drop_last(), separator);
        if s.last() == separator {
            before.push(Seq::empty())
        } else {
            before.drop_last().push(before.last().push(s.last()))
        }
    }
}

/// There is always a part.
pub proof fn lemma_parts_nonempty(s: Seq<char>, separator: char)
    ensures
        parts_by(s, separator).len() > 0,
    decreases s.len(),
{
    if s.len() > 0 {
        lemma_parts_nonempty(s.drop_last(), separator);
    }
}

/// No part holds the separator.
pub proof fn lemma_parts_hold_no_separator(s: Seq<char>, separator: char)
    ensures
        forall|i: int, k: int|
            0 <= i < parts_by(s, separator).len() && 0 <= k < parts_by(s, separator)[i].len()
                ==> parts_by(s, separator)[i][k] != separator,
    decreases s.len(),
{
    if s.len() > 0 {
        let rest = s.drop_last();
        lemma_parts_hold_no_separator(rest, separator);
        lemma_parts_nonempty(rest, separator);
        let before = parts_by(rest, separator);
        let after = parts_by(s, separator);
        assert forall|i: int, k: int|
            0 <= i < after.len() && 0 <= k < after[i].len() implies after[i][k] != separator by {
            if i < before.len() - 1 {
                assert(after[i] == before[i]);
            } else if s.last() == separator {
                if i == before.len() - 1 {
                    assert(after[i] == before[i]);
                }
            } else {
                let last = before[before.len() - 1];
                assert(after[i] == last.push(s.last()));
                if k < last.len() {
                    assert(before[before.len() - 1][k] != separator);
                }
            }
        }
    }
}

/// Splits a text at its separators.
pub fn split_by(s: &str, separator: char) -> (r: Vec<String>)
    ensures
        views(r@) == parts_by(s@, separator),
{
    let chars = chars_of(s);
    let mut parts: Vec<String> = Vec::new();
    let mut current = String::new();
    proof {
        assert(s@.take(0) =~= Seq::empty());
        assert(views(parts@).push(current@) =~= parts_by(s@.take(0), separator));
    }
    for i in 0..chars.len()
        invariant
            chars@ == s@,
            views(parts@).push(current@) == parts_by(s@.take(i as int), separator),
    {
        let c = chars[i];
        let ghost before = views(parts@);
        let ghost word = current@;
        proof {
            assert(s@.take(i + 1).drop_last() =~= s@.take(i as int));
            assert(s@.take(i + 1).last() == c);
            assert(before.push(word).drop_last() =~= before);
        }
        if c == separator {
            let ghost list = parts@;
            parts.push(current);
            assert(views(parts@) =~= views(list).push(word));
            current = String::new();
        } else {
            current.push(c);
        }
        assert(views(parts@).push(current@) =~= parts_by(s@.take(i + 1), separator));
    }
    assert(s@.take(chars@.len() as int) =~= s@);
    let ghost list = parts@;
    let ghost word = current@;
    parts.push(current);
    assert(views(parts@) =~= views(list).push(word));
    parts
}

/// A line without the carriage return at its end.
pub open spec fn without_return(line: Seq<char>) -> Seq<char> {
    if line.len() > 0 && line.last() == '\r' {
        line.drop_last()
    } else {
        line
    }
}

/// The lines of a text: each ends with a newline, which may follow a carriage
/// return; the last one need not.
pub open spec fn text_lines(s: Seq<char>) -> Seq<Seq<char>> {
    let parts = parts_by(s, '\n');
    let ended = parts.drop_last().map_values(|line: Seq<char>| without_return(line));
    if parts.last().len() == 0 {
        ended
    } else {
        ended.push(parts.last())
    }
}

/// Splits a text into its lines.
pub fn lines_of(s: &str) -> (r: Vec<String>)
    ensures
        views(r@) == text_lines(s@),
{
    let parts = split_by(s, '\n');
    let ghost all = views(parts@);
    proof {
        lemma_parts_nonempty(s@, '\n');
        assert(all.len() == parts@.len());
    }
    let last: usize = parts.len() - 1;
    let ghost ended = all.drop_last().map_values(|line: Seq<char>| without_return(line));
    let mut out: Vec<String> = Vec::new();
    assert(views(out@) =~= ended.take(0));
    for i in 0..last
        invariant
            all == views(parts@),
            last == parts@.len() - 1,
            ended == all.drop_last().map_values(|line: Seq<char>| without_return(line)),
            views(out@) == ended.take(i as int),
    {
        let line = parts[i].as_str();
        assert(line@ == all[i as int]);
        assert(ended[i as int] == without_return(line@));
        let n: usize = line.unicode_len();
        let chars = chars_of(line);
        let shown = if n > 0 && chars[n - 1] == '\r' {
            line.substring_char(0, n - 1)
        } else {
            line
        };
        assert(shown@ =~= without_return(line@));
        let ghost before = out@;
        out.push(shown.to_owned());
        assert(views(out@) =~= views(before).push(ended[i as int]));
        assert(ended.take(i + 1) =~= ended.take(i as int).push(ended[i as int]));
    }
    assert(ended.take(last as int) =~= ended);
    if !parts[last].as_str().is_empty() {
        let ghost before = out@;
        out.push(parts[last].clone());
        assert(views(out@) =~= views(before).push(all.last()));
    }
    out
}

} // verus!
