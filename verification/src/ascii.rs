//! Bytes and characters of the exchange syntax.
//!
//! Every token of the syntax is made of ASCII characters, so a piece of input
//! and the text held in a tree correspond byte for character.  This module
//! names the bytes that the grammar mentions, classifies bytes, and converts
//! between the two representations.

use vstd::prelude::*;
use vstd::slice::slice_subrange;
use vstd::string::*;
use vstd::utf8::*;

verus! {

/// The byte zero.
pub const NUL: u8 = 0x00;

/// The tab.
pub const TAB: u8 = 0x09;

/// The line feed.
pub const NEWLINE: u8 = 0x0a;

/// The carriage return.
pub const RETURN: u8 = 0x0d;

/// The blank.
pub const SPACE: u8 = 0x20;

/// `!`
pub const BANG: u8 = 0x21;

/// `"`
pub const DOUBLE_QUOTE: u8 = 0x22;

/// `$`
pub const DOLLAR: u8 = 0x24;

/// `%`
pub const PERCENT: u8 = 0x25;

/// `&`
pub const AMPERSAND: u8 = 0x26;

/// `'`
pub const SINGLE_QUOTE: u8 = 0x27;

/// `(`
pub const OPEN_PAREN: u8 = 0x28;

/// `)`
pub const CLOSE_PAREN: u8 = 0x29;

/// `*`
pub const STAR: u8 = 0x2a;

/// `+`
pub const PLUS: u8 = 0x2b;

/// `,`
pub const COMMA: u8 = 0x2c;

/// `-`
pub const MINUS: u8 = 0x2d;

/// `.`
pub const DOT: u8 = 0x2e;

/// `/`
pub const SLASH: u8 = 0x2f;

/// `0`
pub const ZERO: u8 = 0x30;

/// `:`
pub const COLON: u8 = 0x3a;

/// `<`
pub const LESS: u8 = 0x3c;

/// `=`
pub const EQUALS: u8 = 0x3d;

/// `>`
pub const GREATER: u8 = 0x3e;

/// `?`
pub const QUESTION: u8 = 0x3f;

/// `E`
pub const UPPER_E: u8 = 0x45;

/// `[`
pub const OPEN_BRACKET: u8 = 0x5b;

/// `\`
pub const BACKSLASH: u8 = 0x5c;

/// `]`
pub const CLOSE_BRACKET: u8 = 0x5d;

/// `_`
pub const UNDERSCORE: u8 = 0x5f;

/// `e`
pub const LOWER_E: u8 = 0x65;

/// `|`
pub const PIPE: u8 = 0x7c;

/// `~`
pub const TILDE: u8 = 0x7e;

/// `a` to `z`.
pub open spec fn lower(b: u8) -> bool {
    0x61 <= b <= 0x7a
}

/// `A` to `Z`.
pub open spec fn upper(b: u8) -> bool {
    0x41 <= b <= 0x5a
}

/// `0` to `9`.
pub open spec fn digit(b: u8) -> bool {
    0x30 <= b <= 0x39
}

/// `1` to `9`.
pub open spec fn nonzero_digit(b: u8) -> bool {
    0x31 <= b <= 0x39
}

/// The bytes that may continue a word: letters, digits and the underscore.
pub open spec fn alnum(b: u8) -> bool {
    lower(b) || upper(b) || digit(b) || b == UNDERSCORE
}

/// Blank, tab, line feed and carriage return.
pub open spec fn space(b: u8) -> bool {
    b == SPACE || b == TAB || b == NEWLINE || b == RETURN
}

/// The visible ASCII characters and the blank.
pub open spec fn printable(b: u8) -> bool {
    0x20 <= b <= 0x7e
}

/// `+` or `-`.
pub open spec fn sign(b: u8) -> bool {
    b == PLUS || b == MINUS
}

/// `e` or `E`.
pub open spec fn exponent_mark(b: u8) -> bool {
    b == LOWER_E || b == UPPER_E
}

/// A byte that can neither continue a token nor begin an ignorable span.
pub open spec fn solid(b: u8) -> bool {
    !space(b) && b != PERCENT && b != SLASH
}

/// Whether `b` is a lower-case letter.
pub fn is_lower(b: u8) -> (r: bool)
    ensures
        r == lower(b),
{
    0x61 <= b && b <= 0x7a
}

/// Whether `b` is an upper-case letter.
pub fn is_upper(b: u8) -> (r: bool)
    ensures
        r == upper(b),
{
    0x41 <= b && b <= 0x5a
}

/// Whether `b` is a digit.
pub fn is_digit(b: u8) -> (r: bool)
    ensures
        r == digit(b),
{
    0x30 <= b && b <= 0x39
}

/// Whether `b` is a digit other than `0`.
pub fn is_nonzero_digit(b: u8) -> (r: bool)
    ensures
        r == nonzero_digit(b),
{
    0x31 <= b && b <= 0x39
}

/// Whether `b` may continue a word.
pub fn is_alnum(b: u8) -> (r: bool)
    ensures
        r == alnum(b),
{
    is_lower(b) || is_upper(b) || is_digit(b) || b == UNDERSCORE
}

/// Whether `b` is a blank, a tab, a line feed or a carriage return.
pub fn is_space(b: u8) -> (r: bool)
    ensures
        r == space(b),
{
    b == SPACE || b == TAB || b == NEWLINE || b == RETURN
}

/// Whether `b` is a visible ASCII character or the blank.
pub fn is_printable(b: u8) -> (r: bool)
    ensures
        r == printable(b),
{
    0x20 <= b && b <= 0x7e
}

/// Whether `b` is `+` or `-`.
pub fn is_sign(b: u8) -> (r: bool)
    ensures
        r == sign(b),
{
    b == PLUS || b == MINUS
}

/// Whether `b` is `e` or `E`.
pub fn is_exponent_mark(b: u8) -> (r: bool)
    ensures
        r == exponent_mark(b),
{
    b == LOWER_E || b == UPPER_E
}

/// The characters that a run of ASCII bytes stands for.
pub open spec fn chars_of(b: Seq<u8>) -> Seq<char> {
    Seq::new(b.len(), |k: int| b[k] as char)
}

/// The bytes that stand for a text of ASCII characters.
pub open spec fn bytes_of(t: Seq<char>) -> Seq<u8> {
    Seq::new(t.len(), |k: int| t[k] as u8)
}

/// Every byte is below 128.
pub open spec fn ascii_bytes(b: Seq<u8>) -> bool {
    forall|k: int| 0 <= k < b.len() ==> #[trigger] b[k] < 128
}

/// The text `t` stands in `s` at offset `i`, byte for character.
pub open spec fn occurs(s: Seq<u8>, i: int, t: Seq<char>) -> bool {
    &&& 0 <= i
    &&& i + t.len() <= s.len()
    &&& forall|k: int| 0 <= k < t.len() ==> s[i + k] == #[trigger] t[k] as u8
}

/// A text occurs where its two halves occur one after the other.
pub proof fn lemma_occurs_split(s: Seq<u8>, i: int, a: Seq<char>, b: Seq<char>)
    ensures
        occurs(s, i, a + b) <==> occurs(s, i, a) && occurs(s, i + a.len(), b),
{
    let t = a + b;
    if occurs(s, i, t) {
        assert forall|k: int| 0 <= k < a.len() implies s[i + k] == #[trigger] a[k] as u8 by {
            assert(t[k] == a[k]);
        }
        assert forall|k: int| 0 <= k < b.len() implies s[i + a.len() + k] == #[trigger] b[k]
            as u8 by {
            assert(t[a.len() + k] == b[k]);
        }
    }
    if occurs(s, i, a) && occurs(s, i + a.len(), b) {
        assert forall|k: int| 0 <= k < t.len() implies s[i + k] == #[trigger] t[k] as u8 by {
            if k < a.len() {
                assert(t[k] == a[k]);
            } else {
                assert(t[k] == b[k - a.len()]);
            }
        }
    }
}

/// ASCII bytes and the characters that they stand for determine each other,
/// and the bytes are the UTF-8 encoding of the characters.
pub proof fn lemma_ascii_text(b: Seq<u8>)
    requires
        ascii_bytes(b),
    ensures
        is_ascii_chars(chars_of(b)),
        bytes_of(chars_of(b)) == b,
        encode_utf8(chars_of(b)) == b,
        valid_utf8(b),
{
    let c = chars_of(b);
    assert forall|k: int| 0 <= k < c.len() implies '\0' <= #[trigger] c[k] <= '\u{7f}' by {
        assert(b[k] < 128);
    }
    is_ascii_chars_encode_utf8(c);
    assert forall|k: int| 0 <= k < b.len() implies c[k] as u8 == b[k] by {
        assert(b[k] < 128);
    }
    encode_utf8_valid_utf8(c);
}

/// `core::str::from_utf8`: a slice of bytes that is valid UTF-8 is handed back
/// as a string slice over the same bytes.
#[verifier::external_body]
fn str_of_utf8<'a>(bytes: &'a [u8]) -> (s: &'a str)
    requires
        valid_utf8(bytes@),
    ensures
        s.spec_bytes() == bytes@,
{
    core::str::from_utf8(bytes).unwrap_or_default()
}

/// The text between two offsets of the input, borrowed from it.
pub(crate) fn ascii_str<'a>(input: &'a [u8], from: usize, to: usize) -> (s: &'a str)
    requires
        from <= to <= input@.len(),
        ascii_bytes(input@.subrange(from as int, to as int)),
    ensures
        s@ == chars_of(input@.subrange(from as int, to as int)),
{
    let piece = slice_subrange(input, from, to);
    proof {
        lemma_ascii_text(piece@);
    }
    let s = str_of_utf8(piece);
    proof {
        encode_utf8_decode_utf8(s@);
        encode_utf8_decode_utf8(chars_of(piece@));
    }
    s
}

} // verus!
