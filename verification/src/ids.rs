//! Identifier newtypes. Each holds the 128-bit value of a UUID (big-endian, so the
//! integer order is the byte order of the UUID and the order of its hex text).

use vstd::prelude::*;

verus! {

/// Identifier of a match.
#[derive(Debug, Clone, Copy, PartialEq, Eq, Hash, PartialOrd, Ord, Structural)]
pub struct MatchId(pub u128);

/// Identifier of a team.
#[derive(Debug, Clone, Copy, PartialEq, Eq, Hash, PartialOrd, Ord, Structural)]
pub struct TeamId(pub u128);

/// Identifier of a player.
#[derive(Debug, Clone, Copy, PartialEq, Eq, Hash, PartialOrd, Ord, Structural)]
pub struct PlayerId(pub u128);

/// Identifier of a fact.
#[derive(Debug, Clone, Copy, PartialEq, Eq, Hash, PartialOrd, Ord, Structural)]
pub struct FactId(pub u128);

/// The hex digit for `n` (`0 <= n < 16`), in upper or lower case.
pub open spec fn hex_char(n: int, upper: bool) -> char {
    if n < 10 {
        (48 + n) as char
    } else if upper {
        (55 + n) as char
    } else {
        (87 + n) as char
    }
}

/// The 32 hex digits of a UUID's 128-bit value, most significant first.
pub open spec fn uuid_digits(value: u128, upper: bool) -> Seq<char> {
    Seq::new(32, |k: int| hex_char(((value >> ((124 - 4 * k) as u128)) & 15u128) as int, upper))
}

/// The hyphenated text of a UUID (`8-4-4-4-12` hex digits).
pub open spec fn uuid_text(value: u128, upper: bool) -> Seq<char> {
    let d = uuid_digits(value, upper);
    d.subrange(0, 8).push('-') + d.subrange(8, 12).push('-') + d.subrange(12, 16).push('-')
        + d.subrange(16, 20).push('-') + d.subrange(20, 32)
}

/// The upper-case hyphenated text of the UUID with this value: uuid's
/// `Hyphenated::encode_upper` on `Uuid::from_u128(value)`, which writes each of the 16
/// big-endian bytes as two hex digits with hyphens after the 4th, 6th, 8th and 10th.
#[verifier::external_body]
pub(crate) fn uuid_upper_text(value: u128) -> (r: String)
    ensures
        r@ == uuid_text(value, true),
{
    let mut buffer = uuid::Uuid::encode_buffer();
    uuid::Uuid::from_u128(value).hyphenated().encode_upper(&mut buffer).to_string()
}

/// The lower-case hyphenated text of the UUID with this value: uuid's
/// `Hyphenated::encode_lower`, the form `Display` writes.
#[verifier::external_body]
pub(crate) fn uuid_lower_text(value: u128) -> (r: String)
    ensures
        r@ == uuid_text(value, false),
{
    let mut buffer = uuid::Uuid::encode_buffer();
    uuid::Uuid::from_u128(value).hyphenated().encode_lower(&mut buffer).to_string()
}

/// The value of a hex digit, in either case.
pub open spec fn hex_value(c: char) -> Option<int> {
    let u = c as int;
    if 48 <= u <= 57 {
        Some(u - 48)
    } else if 97 <= u <= 102 {
        Some(u - 87)
    } else if 65 <= u <= 70 {
        Some(u - 55)
    } else {
        None
    }
}

/// The number a text of hex digits spells, most significant digit first (`None` when
/// a character is not a hex digit).
pub open spec fn hex_number(d: Seq<char>) -> Option<int>
    decreases d.len(),
{
    if d.len() == 0 {
        Some(0)
    } else {
        match (hex_number(d.drop_last()), hex_value(d.last())) {
            (Some(a), Some(b)) => Some(a * 16 + b),
            _ => None,
        }
    }
}

/// The 32 digits of an `8-4-4-4-12` text: 36 characters with hyphens at positions 8,
/// 13, 18 and 23.
pub open spec fn hyphenated_digits(s: Seq<char>) -> Option<Seq<char>> {
    if s.len() == 36 && s[8] == '-' && s[13] == '-' && s[18] == '-' && s[23] == '-' {
        Some(s.subrange(0, 8) + s.subrange(9, 13) + s.subrange(14, 18) + s.subrange(19, 23) + s.subrange(24, 36))
    } else {
        None
    }
}

/// ASCII lower-casing of one character.
pub open spec fn ascii_lower(c: char) -> char {
    if 65 <= c as int <= 90 {
        ((c as int) + 32) as char
    } else {
        c
    }
}

/// The 32 hex-digit positions of a UUID text in one of the four forms: 32 digits, the
/// hyphenated form, the hyphenated form in braces, or `urn:uuid:` (in any case) before
/// the hyphenated form.
pub open spec fn uuid_form_digits(text: Seq<char>) -> Option<Seq<char>> {
    if text.len() == 32 {
        Some(text)
    } else if text.len() == 36 {
        hyphenated_digits(text)
    } else if text.len() == 38 && text[0] == '{' && text[37] == '}' {
        hyphenated_digits(text.subrange(1, 37))
    } else if text.len() == 45 && text.subrange(0, 9).map_values(|c: char| ascii_lower(c)) == seq!['u', 'r', 'n', ':', 'u', 'u', 'i', 'd', ':'] {
        hyphenated_digits(text.subrange(9, 45))
    } else {
        None
    }
}

/// The 128-bit value of the UUID a text spells, if it spells one: a text in one of the
/// four forms of [`uuid_form_digits`] whose digit positions all hold hex digits (either
/// case), read most significant first.
pub open spec fn uuid_parse(text: Seq<char>) -> Option<u128> {
    match uuid_form_digits(text) {
        Some(d) => match hex_number(d) {
            Some(n) => Some(n as u128),
            None => None,
        },
        None => None,
    }
}

/// uuid's `Uuid::parse_str`, taken to the UUID's 128-bit value (`Uuid::as_u128`, big
/// endian).  `parse_str` works on the text's bytes: an input of 32 bytes must be 32 hex
/// digits; one of 36 bytes, or 38 bytes between `{` and `}`, must be hyphenated; one of
/// 45 bytes must start with `urn:uuid:` (ASCII case ignored) before a hyphenated part;
/// every other length fails, and a hex digit is `0-9`, `a-f` or `A-F`.  A text that
/// passes is all ASCII, so its characters are its bytes, and a text with any other
/// character fails: that is [`uuid_parse`] over the characters.
#[verifier::external_body]
pub(crate) fn parse_uuid(text: &str) -> (r: Option<u128>)
    ensures
        r == uuid_parse(text@),
{
    match uuid::Uuid::parse_str(text) {
        Ok(u) => Some(u.as_u128()),
        Err(_) => None,
    }
}

/// The nibble of `value` that digit `k` of its text shows.
pub open spec fn nibble(value: u128, k: int) -> u128 {
    (value >> ((124 - 4 * k) as u128)) & 15u128
}

proof fn lemma_nibble_bound(value: u128, shift: u128)
    ensures
        (value >> shift) & 15u128 < 16,
{
    assert((value >> shift) & 15u128 < 16) by (bit_vector);
}

proof fn lemma_hex_char_injective(a: int, b: int, upper: bool)
    requires
        0 <= a < 16,
        0 <= b < 16,
        hex_char(a, upper) == hex_char(b, upper),
    ensures
        a == b,
{
    assert(hex_char(a, upper) as int == hex_char(b, upper) as int);
}

proof fn lemma_nibbles_determine_value(v: u128, w: u128)
    by (bit_vector)
    requires
        (v >> 124u128) & 15u128 == (w >> 124u128) & 15u128,
        (v >> 120u128) & 15u128 == (w >> 120u128) & 15u128,
        (v >> 116u128) & 15u128 == (w >> 116u128) & 15u128,
        (v >> 112u128) & 15u128 == (w >> 112u128) & 15u128,
        (v >> 108u128) & 15u128 == (w >> 108u128) & 15u128,
        (v >> 104u128) & 15u128 == (w >> 104u128) & 15u128,
        (v >> 100u128) & 15u128 == (w >> 100u128) & 15u128,
        (v >> 96u128) & 15u128 == (w >> 96u128) & 15u128,
        (v >> 92u128) & 15u128 == (w >> 92u128) & 15u128,
        (v >> 88u128) & 15u128 == (w >> 88u128) & 15u128,
        (v >> 84u128) & 15u128 == (w >> 84u128) & 15u128,
        (v >> 80u128) & 15u128 == (w >> 80u128) & 15u128,
        (v >> 76u128) & 15u128 == (w >> 76u128) & 15u128,
        (v >> 72u128) & 15u128 == (w >> 72u128) & 15u128,
        (v >> 68u128) & 15u128 == (w >> 68u128) & 15u128,
        (v >> 64u128) & 15u128 == (w >> 64u128) & 15u128,
        (v >> 60u128) & 15u128 == (w >> 60u128) & 15u128,
        (v >> 56u128) & 15u128 == (w >> 56u128) & 15u128,
        (v >> 52u128) & 15u128 == (w >> 52u128) & 15u128,
        (v >> 48u128) & 15u128 == (w >> 48u128) & 15u128,
        (v >> 44u128) & 15u128 == (w >> 44u128) & 15u128,
        (v >> 40u128) & 15u128 == (w >> 40u128) & 15u128,
        (v >> 36u128) & 15u128 == (w >> 36u128) & 15u128,
        (v >> 32u128) & 15u128 == (w >> 32u128) & 15u128,
        (v >> 28u128) & 15u128 == (w >> 28u128) & 15u128,
        (v >> 24u128) & 15u128 == (w >> 24u128) & 15u128,
        (v >> 20u128) & 15u128 == (w >> 20u128) & 15u128,
        (v >> 16u128) & 15u128 == (w >> 16u128) & 15u128,
        (v >> 12u128) & 15u128 == (w >> 12u128) & 15u128,
        (v >> 8u128) & 15u128 == (w >> 8u128) & 15u128,
        (v >> 4u128) & 15u128 == (w >> 4u128) & 15u128,
        (v >> 0u128) & 15u128 == (w >> 0u128) & 15u128,
    ensures
        v == w,
{
}

/// Two UUIDs with the same text are the same UUID.
pub proof fn lemma_uuid_text_injective(v: u128, w: u128, upper: bool)
    requires
        uuid_text(v, upper) == uuid_text(w, upper),
    ensures
        v == w,
{
    let dv = uuid_digits(v, upper);
    let dw = uuid_digits(w, upper);
    let tv = uuid_text(v, upper);
    let tw = uuid_text(w, upper);
    assert forall|k: int| 0 <= k < 32 implies nibble(v, k) == nibble(w, k) by {
        let pos = if k < 8 {
            k
        } else if k < 12 {
            k + 1
        } else if k < 16 {
            k + 2
        } else if k < 20 {
            k + 3
        } else {
            k + 4
        };
        assert(tv[pos] == dv[k]);
        assert(tw[pos] == dw[k]);
        lemma_nibble_bound(v, (124 - 4 * k) as u128);
        lemma_nibble_bound(w, (124 - 4 * k) as u128);
        lemma_hex_char_injective(nibble(v, k) as int, nibble(w, k) as int, upper);
    }
    assert(nibble(v, 0) == nibble(w, 0));
    assert(nibble(v, 1) == nibble(w, 1));
    assert(nibble(v, 2) == nibble(w, 2));
    assert(nibble(v, 3) == nibble(w, 3));
    assert(nibble(v, 4) == nibble(w, 4));
    assert(nibble(v, 5) == nibble(w, 5));
    assert(nibble(v, 6) == nibble(w, 6));
    assert(nibble(v, 7) == nibble(w, 7));
    assert(nibble(v, 8) == nibble(w, 8));
    assert(nibble(v, 9) == nibble(w, 9));
    assert(nibble(v, 10) == nibble(w, 10));
    assert(nibble(v, 11) == nibble(w, 11));
    assert(nibble(v, 12) == nibble(w, 12));
    assert(nibble(v, 13) == nibble(w, 13));
    assert(nibble(v, 14) == nibble(w, 14));
    assert(nibble(v, 15) == nibble(w, 15));
    assert(nibble(v, 16) == nibble(w, 16));
    assert(nibble(v, 17) == nibble(w, 17));
    assert(nibble(v, 18) == nibble(w, 18));
    assert(nibble(v, 19) == nibble(w, 19));
    assert(nibble(v, 20) == nibble(w, 20));
    assert(nibble(v, 21) == nibble(w, 21));
    assert(nibble(v, 22) == nibble(w, 22));
    assert(nibble(v, 23) == nibble(w, 23));
    assert(nibble(v, 24) == nibble(w, 24));
    assert(nibble(v, 25) == nibble(w, 25));
    assert(nibble(v, 26) == nibble(w, 26));
    assert(nibble(v, 27) == nibble(w, 27));
    assert(nibble(v, 28) == nibble(w, 28));
    assert(nibble(v, 29) == nibble(w, 29));
    assert(nibble(v, 30) == nibble(w, 30));
    assert(nibble(v, 31) == nibble(w, 31));
    lemma_nibbles_determine_value(v, w);
}

} // verus!
