//! Bytes as lower-case hexadecimal text, and back.

use vstd::prelude::*;

verus! {

/// The hexadecimal digit with the value `n`.
pub open spec fn hex_digit(n: u8) -> char {
    if n < 10 {
        ((48 + n) as u8) as char
    } else {
        ((87 + n) as u8) as char
    }
}

/// The value of a hexadecimal digit of either case.
pub open spec fn nibble(c: char) -> Option<u8> {
    if '0' <= c <= '9' {
        Some((c as u8 - 48) as u8)
    } else if 'a' <= c <= 'f' {
        Some((c as u8 - 87) as u8)
    } else if 'A' <= c <= 'F' {
        Some((c as u8 - 55) as u8)
    } else {
        None
    }
}

/// Two lower-case hexadecimal digits for each byte.
pub open spec fn hex_text(bytes: Seq<u8>) -> Seq<char>
    decreases bytes.len(),
{
    if bytes.len() == 0 {
        Seq::empty()
    } else {
        hex_text(bytes.drop_last()).push(hex_digit(bytes.last() / 16)).push(
            hex_digit(bytes.last() % 16),
        )
    }
}

/// Writes one hexadecimal digit.
pub(crate) fn digit_of(n: u8) -> (r: char)
    requires
        n < 16,
    ensures
        r == hex_digit(n),
{
    if n < 10 {
        (48 + n) as char
    } else {
        (87 + n) as char
    }
}

/// Writes bytes as lower-case hexadecimal text.
pub fn hex_encode(bytes: &[u8]) -> (r: String)
    ensures
        r@ == hex_text(bytes@),
{
    let mut out = String::new();
    for i in 0..bytes.len()
        invariant
            out@ == hex_text(bytes@.take(i as int)),
    {
        let byte: u8 = bytes[i];
        out.push(digit_of(byte / 16));
        out.push(digit_of(byte % 16));
        assert(bytes@.take(i + 1).drop_last() =~= bytes@.take(i as int));
    }
    assert(bytes@.take(bytes@.len() as int) =~= bytes@);
    out
}

/// Hexadecimal text is twice as long as the bytes.
pub proof fn lemma_hex_len(bytes: Seq<u8>)
    ensures
        hex_text(bytes).len() == 2 * bytes.len(),
    decreases bytes.len(),
{
    if bytes.len() > 0 {
        lemma_hex_len(bytes.drop_last());
    }
}

/// Whether a character is a lower-case hexadecimal digit.
pub open spec fn is_lower_hex(c: char) -> bool {
    '0' <= c <= '9' || 'a' <= c <= 'f'
}

pub proof fn lemma_hex_is_lower(bytes: Seq<u8>)
    ensures
        forall|i: int|
            0 <= i < hex_text(bytes).len() ==> is_lower_hex(#[trigger] hex_text(bytes)[i]),
    decreases bytes.len(),
{
    if bytes.len() > 0 {
        lemma_hex_is_lower(bytes.drop_last());
        let before = hex_text(bytes.drop_last());
        assert forall|i: int| 0 <= i < hex_text(bytes).len() implies is_lower_hex(
            #[trigger] hex_text(bytes)[i],
        ) by {
            if i < before.len() {
                assert(hex_text(bytes)[i] == before[i]);
            }
        }
    }
}

/// The bytes that hexadecimal text of either case stands for.
pub open spec fn hex_bytes(text: Seq<char>) -> Option<Seq<u8>>
    decreases text.len(),
{
    if text.len() == 0 {
        Some(Seq::empty())
    } else if text.len() == 1 {
        None
    } else {
        let n = text.len();
        match (hex_bytes(text.take(n - 2)), nibble(text[n - 2]), nibble(text[n - 1])) {
            (Some(bytes), Some(high), Some(low)) => Some(bytes.push((high * 16 + low) as u8)),
            _ => None,
        }
    }
}

proof fn lemma_hex_prefix(text: Seq<char>, n: int)
    requires
        0 <= n <= text.len(),
        n % 2 == text.len() % 2,
        hex_bytes(text.take(n)) is None,
    ensures
        hex_bytes(text) is None,
    decreases text.len() - n,
{
    if n < text.len() {
        let more = text.take(n + 2);
        assert(more.take(n) =~= text.take(n));
        lemma_hex_prefix(text, n + 2);
    } else {
        assert(text.take(n) =~= text);
    }
}

proof fn lemma_odd_hex(text: Seq<char>)
    requires
        text.len() % 2 == 1,
    ensures
        hex_bytes(text) is None,
    decreases text.len(),
{
    if text.len() > 1 {
        lemma_odd_hex(text.take(text.len() - 2));
    }
}

/// The value of a hexadecimal digit.
pub fn hex_nibble(c: char) -> (r: Option<u8>)
    ensures
        r == nibble(c),
        r matches Some(n) ==> n < 16,
{
    if '0' <= c && c <= '9' {
        Some(c as u8 - 48)
    } else if 'a' <= c && c <= 'f' {
        Some(c as u8 - 87)
    } else if 'A' <= c && c <= 'F' {
        Some(c as u8 - 55)
    } else {
        None
    }
}

/// Reads bytes from hexadecimal text.
pub fn hex_decode(text: &str) -> (r: Option<Vec<u8>>)
    ensures
        match r {
            Some(bytes) => hex_bytes(text@) == Some(bytes@),
            None => hex_bytes(text@) is None,
        },
{
    let chars = crate::text::chars_of(text);
    if chars.len() % 2 != 0 {
        proof {
            lemma_odd_hex(text@);
        }
        return None;
    }
    let mut out: Vec<u8> = Vec::new();
    let mut i: usize = 0;
    assert(hex_bytes(text@.take(0)) == Some(out@));
    while i < chars.len()
        invariant
            chars@ == text@,
            i <= chars@.len(),
            i % 2 == 0,
            chars@.len() % 2 == 0,
            hex_bytes(text@.take(i as int)) == Some(out@),
        decreases chars.len() - i,
    {
        proof {
            assert(text@.take(i + 2).take(i as int) =~= text@.take(i as int));
        }
        match (hex_nibble(chars[i]), hex_nibble(chars[i + 1])) {
            (Some(high), Some(low)) => {
                out.push(high * 16 + low);
            },
            _ => {
                proof {
                    lemma_hex_prefix(text@, i + 2);
                }
                return None;
            },
        }
        i = i + 2;
    }
    assert(text@.take(i as int) =~= text@);
    Some(out)
}

proof fn lemma_digit_nibble(n: u8)
    requires
        n < 16,
    ensures
        nibble(hex_digit(n)) == Some(n),
        hex_digit(n) <= '\u{7f}',
{
}

/// What was written as hexadecimal text reads as the same bytes.
pub proof fn law_hex_reads_back(bytes: Seq<u8>)
    ensures
        hex_bytes(hex_text(bytes)) == Some(bytes),
    decreases bytes.len(),
{
    if bytes.len() > 0 {
        let rest = bytes.drop_last();
        let last = bytes.last();
        law_hex_reads_back(rest);
        let text = hex_text(bytes);
        assert(text.take(text.len() - 2) =~= hex_text(rest));
        lemma_digit_nibble(last / 16);
        lemma_digit_nibble(last % 16);
        assert(rest.push(last) =~= bytes);
        assert((last / 16) * 16 + last % 16 == last);
    } else {
        assert(hex_text(bytes) =~= Seq::empty());
        assert(bytes =~= Seq::empty());
    }
}

/// Hexadecimal text takes one byte for each character.
pub proof fn lemma_hex_is_ascii(bytes: Seq<u8>)
    ensures
        forall|i: int| 0 <= i < hex_text(bytes).len() ==> (#[trigger] hex_text(bytes)[i])
            <= '\u{7f}',
    decreases bytes.len(),
{
    if bytes.len() > 0 {
        let before = hex_text(bytes.drop_last());
        lemma_hex_is_ascii(bytes.drop_last());
        lemma_digit_nibble(bytes.last() / 16);
        lemma_digit_nibble(bytes.last() % 16);
        assert forall|i: int| 0 <= i < hex_text(bytes).len() implies (#[trigger] hex_text(
            bytes,
        )[i]) <= '\u{7f}' by {
            if i < before.len() {
                assert(hex_text(bytes)[i] == before[i]);
            }
        }
    }
}

proof fn lemma_ascii_scalar(c: char)
    requires
        c <= '\u{7f}',
    ensures
        vstd::utf8::encode_scalar(c as u32).len() == 1,
{
    vstd::utf8::char_is_scalar(c);
    vstd::utf8::char_u32_cast(c, c as u32);
}

/// Text of ASCII characters takes one byte for each character.
pub proof fn lemma_ascii_length(text: Seq<char>)
    requires
        forall|i: int| 0 <= i < text.len() ==> (#[trigger] text[i]) <= '\u{7f}',
    ensures
        vstd::utf8::encode_utf8(text).len() == text.len(),
    decreases text.len(),
{
    reveal_with_fuel(vstd::utf8::encode_utf8, 2);
    if text.len() > 0 {
        let rest = text.drop_first();
        assert forall|i: int| 0 <= i < rest.len() implies (#[trigger] rest[i]) <= '\u{7f}' by {
            assert(rest[i] == text[i + 1]);
        }
        lemma_ascii_length(rest);
        lemma_ascii_scalar(text[0]);
    }
}

} // verus!
