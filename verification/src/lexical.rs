//! Lexical primitives: the ignorable spans between tokens, and the runs of
//! bytes that tokens are made of.
//!
//! All scanning is streaming.  A scan that reaches the end of the buffer
//! answers with the length of the buffer, and its caller reports the
//! production as incomplete: more bytes could still change what is read.

use crate::ascii::{
    alnum, ascii_bytes, ascii_str, BACKSLASH, digit, DOLLAR, DOT, DOUBLE_QUOTE, exponent_mark,
    is_alnum, is_digit, is_exponent_mark, is_lower, is_nonzero_digit, is_printable, is_sign,
    is_space, is_upper, lower, NEWLINE, nonzero_digit, PERCENT, printable, sign, SINGLE_QUOTE,
    SLASH, solid, space, STAR, upper, ZERO,
};
use crate::grammar::{
    atomic_word_at, dollar_dollar_word_at, dollar_word_at, number_at, quoted_at, quoted_end,
    word_at,
};
use crate::laws::tokens::{lemma_number_wf, lemma_quoted_wf, lemma_word_wf};
use crate::outcome::{Expected, Outcome};
use crate::syntax::{
    AtomicWord, DistinctObject, DollarDollarWord, DollarWord, Integer, LowerWord, Number, Rational,
    Real, SingleQuoted, UpperWord,
};
use vstd::prelude::*;

verus! {

/// The end of the run of word bytes that begins at `i`.
pub open spec fn word_end(s: Seq<u8>, i: int) -> int
    decreases s.len() - i,
{
    if 0 <= i < s.len() && alnum(s[i]) {
        word_end(s, i + 1)
    } else {
        i
    }
}

/// The end of the run of digits that begins at `i`.
pub open spec fn digits_end(s: Seq<u8>, i: int) -> int
    decreases s.len() - i,
{
    if 0 <= i < s.len() && digit(s[i]) {
        digits_end(s, i + 1)
    } else {
        i
    }
}

/// The offset of the first line feed at or after `i`, or the end of the buffer.
pub open spec fn line_end(s: Seq<u8>, i: int) -> int
    decreases s.len() - i,
{
    if 0 <= i < s.len() && s[i] != NEWLINE {
        line_end(s, i + 1)
    } else {
        i
    }
}

/// The offset just after the first `*/` at or after `i`, or the end of the
/// buffer where there is none.
pub open spec fn block_end(s: Seq<u8>, i: int) -> int
    decreases s.len() - i,
{
    if i < 0 || i + 1 >= s.len() {
        if i < s.len() {
            s.len() as int
        } else {
            i
        }
    } else if s[i] == STAR && s[i + 1] == SLASH {
        i + 2
    } else {
        block_end(s, i + 1)
    }
}

/// A run of word bytes ends at or after its beginning and within the buffer,
/// holds word bytes only, and ends in front of a byte that is none.
pub proof fn lemma_word_end(s: Seq<u8>, i: int)
    ensures
        i <= word_end(s, i),
        i <= s.len() ==> word_end(s, i) <= s.len(),
        forall|k: int| i <= k < word_end(s, i) ==> alnum(#[trigger] s[k]),
        0 <= i && word_end(s, i) < s.len() ==> !alnum(s[word_end(s, i)]),
    decreases s.len() - i,
{
    if 0 <= i < s.len() && alnum(s[i]) {
        lemma_word_end(s, i + 1);
    }
}

/// A run of digits ends at or after its beginning and within the buffer, holds
/// digits only, and ends in front of a byte that is none.
pub proof fn lemma_digits_end(s: Seq<u8>, i: int)
    ensures
        i <= digits_end(s, i),
        i <= s.len() ==> digits_end(s, i) <= s.len(),
        forall|k: int| i <= k < digits_end(s, i) ==> digit(#[trigger] s[k]),
        0 <= i && digits_end(s, i) < s.len() ==> !digit(s[digits_end(s, i)]),
    decreases s.len() - i,
{
    if 0 <= i < s.len() && digit(s[i]) {
        lemma_digits_end(s, i + 1);
    }
}

/// A line ends at or after its beginning and within the buffer.
pub proof fn lemma_line_end(s: Seq<u8>, i: int)
    ensures
        i <= line_end(s, i),
        i <= s.len() ==> line_end(s, i) <= s.len(),
    decreases s.len() - i,
{
    if 0 <= i < s.len() && s[i] != NEWLINE {
        lemma_line_end(s, i + 1);
    }
}

/// A block comment ends at or after its beginning and within the buffer.
pub proof fn lemma_block_end(s: Seq<u8>, i: int)
    ensures
        i <= block_end(s, i),
        i <= s.len() ==> block_end(s, i) <= s.len(),
    decreases s.len() - i,
{
    if !(i < 0 || i + 1 >= s.len()) && !(s[i] == STAR && s[i + 1] == SLASH) {
        lemma_block_end(s, i + 1);
    }
}

/// The offset after the sign at `i`, where there is one.
pub open spec fn sign_end(s: Seq<u8>, i: int) -> int {
    if 0 <= i < s.len() && sign(s[i]) {
        i + 1
    } else {
        i
    }
}

/// The end of the decimal numeral that begins at `i`: a single `0`, or a
/// digit other than `0` with the digits that follow it.
pub open spec fn decimal_end(s: Seq<u8>, i: int) -> int {
    if i < 0 || i >= s.len() {
        i
    } else if s[i] == ZERO {
        i + 1
    } else if nonzero_digit(s[i]) {
        digits_end(s, i + 1)
    } else {
        i
    }
}

/// The end of the exponent that begins at `i`: `e` or `E`, an optional sign,
/// and one digit or more.  The answer is `i` where no exponent begins there,
/// and the length of the buffer where the buffer ends before that is known.
pub open spec fn exponent_end(s: Seq<u8>, i: int) -> int {
    let g = sign_end(s, i + 1);
    if i < 0 || i >= s.len() || !exponent_mark(s[i]) {
        i
    } else if g >= s.len() {
        s.len() as int
    } else if !digit(s[g]) {
        i
    } else {
        digits_end(s, g + 1)
    }
}

/// A word: a first letter of the given case, then word bytes.
pub open spec fn word_shape(b: Seq<u8>, capital: bool) -> bool {
    &&& b.len() >= 1
    &&& if capital {
        upper(b[0])
    } else {
        lower(b[0])
    }
    &&& forall|k: int| 0 <= k < b.len() ==> alnum(#[trigger] b[k])
}

/// The inside of a quoted token, from `from` on: printable bytes other than
/// the quote and the backslash, and backslashes followed by one of these two.
pub open spec fn quoted_shape(b: Seq<u8>, quote: u8, from: int) -> bool
    decreases b.len() - from,
{
    if from < 0 || from >= b.len() {
        true
    } else if b[from] == BACKSLASH {
        &&& from + 1 < b.len()
        &&& (b[from + 1] == quote || b[from + 1] == BACKSLASH)
        &&& quoted_shape(b, quote, from + 2)
    } else {
        &&& printable(b[from])
        &&& b[from] != quote
        &&& quoted_shape(b, quote, from + 1)
    }
}

/// An optional sign and a decimal numeral.
pub open spec fn integer_shape(b: Seq<u8>) -> bool {
    let a = sign_end(b, 0);
    &&& a < b.len()
    &&& digit(b[a])
    &&& decimal_end(b, a) == b.len()
}

/// An integer, a slash, and a decimal numeral that does not begin with `0`.
pub open spec fn rational_shape(b: Seq<u8>) -> bool {
    let a = sign_end(b, 0);
    let d = decimal_end(b, a);
    &&& a < b.len()
    &&& digit(b[a])
    &&& d + 1 < b.len()
    &&& b[d] == SLASH
    &&& nonzero_digit(b[d + 1])
    &&& digits_end(b, d + 2) == b.len()
}

/// An exponent that begins at `from` and ends the token.
pub open spec fn exponent_shape(b: Seq<u8>, from: int) -> bool {
    let g = sign_end(b, from + 1);
    &&& 0 <= from < b.len()
    &&& exponent_mark(b[from])
    &&& g < b.len()
    &&& digit(b[g])
    &&& digits_end(b, g + 1) == b.len()
}

/// An integer with a fraction, an exponent, or both.
pub open spec fn real_shape(b: Seq<u8>) -> bool {
    let a = sign_end(b, 0);
    let d = decimal_end(b, a);
    let f = digits_end(b, d + 2);
    &&& a < b.len()
    &&& digit(b[a])
    &&& d < b.len()
    &&& if b[d] == DOT {
        &&& d + 1 < b.len()
        &&& digit(b[d + 1])
        &&& (f == b.len() || exponent_shape(b, f))
    } else {
        exponent_shape(b, d)
    }
}

/// The offset of the first byte at or after `i` that belongs to no ignorable
/// span: blanks, `%` comments that run to the end of their line, and
/// `/* ... */` comments are passed over.  The answer is the length of the
/// buffer where the buffer ends first.
pub open spec fn skip(s: Seq<u8>, i: int) -> int
    decreases s.len() - i,
{
    if i < 0 || i >= s.len() {
        i
    } else if space(s[i]) {
        skip(s, i + 1)
    } else if s[i] == PERCENT {
        proof {
            lemma_line_end(s, i + 1);
        }
        skip(s, line_end(s, i + 1))
    } else if s[i] == SLASH {
        if i + 1 >= s.len() {
            s.len() as int
        } else if s[i + 1] == STAR {
            proof {
                lemma_block_end(s, i + 2);
            }
            skip(s, block_end(s, i + 2))
        } else {
            i
        }
    } else {
        i
    }
}

/// Ignorable spans end at or after their beginning and within the buffer.
pub proof fn lemma_skip(s: Seq<u8>, i: int)
    ensures
        i <= skip(s, i),
        i <= s.len() ==> skip(s, i) <= s.len(),
    decreases s.len() - i,
{
    if i < 0 || i >= s.len() {
    } else if space(s[i]) {
        lemma_skip(s, i + 1);
    } else if s[i] == PERCENT {
        lemma_line_end(s, i + 1);
        lemma_skip(s, line_end(s, i + 1));
    } else if s[i] == SLASH {
        if i + 1 < s.len() && s[i + 1] == STAR {
            lemma_block_end(s, i + 2);
            lemma_skip(s, block_end(s, i + 2));
        }
    }
}

/// Nothing is passed over in front of a solid byte.
pub proof fn lemma_skip_solid(s: Seq<u8>, i: int)
    requires
        0 <= i < s.len(),
        solid(s[i]),
    ensures
        skip(s, i) == i,
{
}

/// Finds the end of the run of word bytes that begins at `start`.
pub fn scan_word(input: &[u8], start: usize) -> (end: usize)
    ensures
        end == word_end(input@, start as int),
        start <= end,
        start <= input@.len() ==> end <= input@.len(),
        forall|k: int| start <= k < end ==> alnum(#[trigger] input@[k]),
{
    if start >= input.len() {
        return start;
    }
    proof {
        lemma_word_end(input@, start as int);
    }
    let mut k = start;
    while k < input.len() && is_alnum(input[k])
        invariant
            start <= k <= input@.len(),
            word_end(input@, k as int) == word_end(input@, start as int),
        decreases input@.len() - k,
    {
        k += 1;
    }
    k
}

/// Finds the end of the run of digits that begins at `start`.
pub fn scan_digits(input: &[u8], start: usize) -> (end: usize)
    ensures
        end == digits_end(input@, start as int),
        start <= end,
        start <= input@.len() ==> end <= input@.len(),
        forall|k: int| start <= k < end ==> digit(#[trigger] input@[k]),
{
    if start >= input.len() {
        return start;
    }
    proof {
        lemma_digits_end(input@, start as int);
    }
    let mut k = start;
    while k < input.len() && is_digit(input[k])
        invariant
            start <= k <= input@.len(),
            digits_end(input@, k as int) == digits_end(input@, start as int),
        decreases input@.len() - k,
    {
        k += 1;
    }
    k
}

/// Finds the first line feed at or after `start`.
pub fn scan_line(input: &[u8], start: usize) -> (end: usize)
    ensures
        end == line_end(input@, start as int),
        start <= end,
        start <= input@.len() ==> end <= input@.len(),
{
    if start >= input.len() {
        return start;
    }
    let mut k = start;
    while k < input.len() && input[k] != NEWLINE
        invariant
            start <= k <= input@.len(),
            line_end(input@, k as int) == line_end(input@, start as int),
        decreases input@.len() - k,
    {
        k += 1;
    }
    k
}

/// Finds the end of the block comment whose inside begins at `start`.
pub fn scan_block(input: &[u8], start: usize) -> (end: usize)
    ensures
        end == block_end(input@, start as int),
        start <= end,
        start <= input@.len() ==> end <= input@.len(),
{
    if start >= input.len() {
        return start;
    }
    let mut k = start;
    loop
        invariant
            start <= k <= input@.len(),
            block_end(input@, k as int) == block_end(input@, start as int),
        decreases input@.len() - k,
    {
        if input.len() - k < 2 {
            return input.len();
        }
        if input[k] == STAR && input[k + 1] == SLASH {
            return k + 2;
        }
        k += 1;
    }
}

/// Passes over the ignorable spans that begin at `start`.
pub fn skip_ignored(input: &[u8], start: usize) -> (end: usize)
    ensures
        end == skip(input@, start as int),
        start <= end,
        start <= input@.len() ==> end <= input@.len(),
{
    if start >= input.len() {
        return start;
    }
    let mut k = start;
    loop
        invariant
            start <= k <= input@.len(),
            skip(input@, k as int) == skip(input@, start as int),
        decreases input@.len() - k,
    {
        if k >= input.len() {
            return k;
        }
        let b = input[k];
        if is_space(b) {
            k += 1;
        } else if b == PERCENT {
            k = scan_line(input, k + 1);
        } else if b == SLASH {
            if input.len() - k < 2 {
                return input.len();
            }
            if input[k + 1] != STAR {
                return k;
            }
            k = scan_block(input, k + 2);
        } else {
            return k;
        }
    }
}

/// Every byte between two offsets is below 128.
pub open spec fn ascii_between(s: Seq<u8>, from: int, to: int) -> bool {
    forall|k: int| from <= k < to ==> #[trigger] s[k] < 128
}

/// Bytes below 128 make an ASCII piece.
pub proof fn lemma_ascii_between(s: Seq<u8>, from: int, to: int)
    requires
        0 <= from <= to <= s.len(),
        ascii_between(s, from, to),
    ensures
        ascii_bytes(s.subrange(from, to)),
{
    let piece = s.subrange(from, to);
    assert forall|k: int| 0 <= k < piece.len() implies #[trigger] piece[k] < 128 by {
        assert(s[from + k] < 128);
    }
}

/// Reads a word: a letter of the given case and the word bytes behind it.
pub fn word<'a>(input: &'a [u8], pos: usize, capital: bool) -> (r: Outcome<&'a str>)
    ensures
        r@ == word_at(input@, pos as int, capital),
        r@.within(pos as int, input@.len()),
{
    if pos >= input.len() {
        return Outcome::Incomplete;
    }
    let first = input[pos];
    let fits = if capital {
        is_upper(first)
    } else {
        is_lower(first)
    };
    if !fits {
        return Outcome::Malformed(
            pos,
            if capital {
                Expected::Upper
            } else {
                Expected::Lower
            },
        );
    }
    let end = scan_word(input, pos + 1);
    if end >= input.len() {
        return Outcome::Incomplete;
    }
    proof {
        lemma_ascii_between(input@, pos as int, end as int);
    }
    Outcome::Complete(ascii_str(input, pos, end), end)
}

/// Reads a word that begins with a lower-case letter.
pub fn lower_word<'a>(input: &'a [u8], pos: usize) -> (r: Outcome<LowerWord<'a>>)
    ensures
        r@ == word_at(input@, pos as int, false),
        r@.within(pos as int, input@.len()),
        r matches Outcome::Complete(w, _) ==> w.wf(),
{
    proof {
        lemma_word_wf(input@, pos as int, false);
    }
    match word(input, pos, false) {
        Outcome::Complete(w, end) => Outcome::Complete(LowerWord(w), end),
        Outcome::Incomplete => Outcome::Incomplete,
        Outcome::Malformed(at, what) => Outcome::Malformed(at, what),
    }
}

/// Reads a word that begins with an upper-case letter.
pub fn upper_word<'a>(input: &'a [u8], pos: usize) -> (r: Outcome<UpperWord<'a>>)
    ensures
        r@ == word_at(input@, pos as int, true),
        r@.within(pos as int, input@.len()),
        r matches Outcome::Complete(w, _) ==> w.wf(),
{
    proof {
        lemma_word_wf(input@, pos as int, true);
    }
    match word(input, pos, true) {
        Outcome::Complete(w, end) => Outcome::Complete(UpperWord(w), end),
        Outcome::Incomplete => Outcome::Incomplete,
        Outcome::Malformed(at, what) => Outcome::Malformed(at, what),
    }
}

/// Reads a lower-case word behind one dollar sign.
pub fn dollar_word<'a>(input: &'a [u8], pos: usize) -> (r: Outcome<DollarWord<'a>>)
    ensures
        r@ == dollar_word_at(input@, pos as int),
        r@.within(pos as int, input@.len()),
{
    if pos >= input.len() {
        return Outcome::Incomplete;
    }
    if input[pos] != DOLLAR {
        return Outcome::Malformed(pos, Expected::Dollar);
    }
    match lower_word(input, pos + 1) {
        Outcome::Complete(w, end) => Outcome::Complete(DollarWord(w), end),
        Outcome::Incomplete => Outcome::Incomplete,
        Outcome::Malformed(at, what) => Outcome::Malformed(at, what),
    }
}

/// Reads a lower-case word behind two dollar signs.
pub fn dollar_dollar_word<'a>(input: &'a [u8], pos: usize) -> (r: Outcome<DollarDollarWord<'a>>)
    ensures
        r@ == dollar_dollar_word_at(input@, pos as int),
        r@.within(pos as int, input@.len()),
{
    if pos >= input.len() {
        return Outcome::Incomplete;
    }
    if input[pos] != DOLLAR {
        return Outcome::Malformed(pos, Expected::Dollar);
    }
    if input.len() - pos < 2 {
        return Outcome::Incomplete;
    }
    if input[pos + 1] != DOLLAR {
        return Outcome::Malformed(pos + 1, Expected::Dollar);
    }
    match lower_word(input, pos + 2) {
        Outcome::Complete(w, end) => Outcome::Complete(DollarDollarWord(w), end),
        Outcome::Incomplete => Outcome::Incomplete,
        Outcome::Malformed(at, what) => Outcome::Malformed(at, what),
    }
}

/// Finds the quote that closes what is quoted from `start` on.
fn scan_quoted(input: &[u8], start: usize, quote: u8) -> (r: Outcome<()>)
    requires
        start <= input@.len(),
        quote < 128,
    ensures
        r@ == quoted_end(input@, start as int, quote),
        r@.within(start as int - 1, input@.len()),
        r matches Outcome::Complete(_, close) ==> close < input@.len() && ascii_between(
            input@,
            start as int,
            close as int + 1,
        ),
{
    let mut k = start;
    loop
        invariant
            start <= k <= input@.len(),
            quote < 128,
            quoted_end(input@, k as int, quote) == quoted_end(input@, start as int, quote),
            ascii_between(input@, start as int, k as int),
        decreases input@.len() - k,
    {
        if k >= input.len() {
            return Outcome::Incomplete;
        }
        let b = input[k];
        if b == quote {
            assert forall|j: int| start <= j < k + 1 implies #[trigger] input@[j] < 128 by {
                if j < k {
                    assert(ascii_between(input@, start as int, k as int));
                }
            }
            return Outcome::Complete((), k);
        } else if b == BACKSLASH {
            if input.len() - k < 2 {
                return Outcome::Incomplete;
            }
            let escaped = input[k + 1];
            if escaped != quote && escaped != BACKSLASH {
                return Outcome::Malformed(k + 1, Expected::Escape);
            }
            assert forall|j: int| start <= j < k + 2 implies #[trigger] input@[j] < 128 by {
                if j < k {
                    assert(ascii_between(input@, start as int, k as int));
                }
            }
            k += 2;
        } else if is_printable(b) {
            assert forall|j: int| start <= j < k + 1 implies #[trigger] input@[j] < 128 by {
                if j < k {
                    assert(ascii_between(input@, start as int, k as int));
                }
            }
            k += 1;
        } else {
            return Outcome::Malformed(k, Expected::QuotedChar);
        }
    }
}

/// Reads what stands between two quotes.
fn quoted<'a>(input: &'a [u8], pos: usize, quote: u8) -> (r: Outcome<&'a str>)
    requires
        quote < 128,
    ensures
        r@ == quoted_at(input@, pos as int, quote),
        r@.within(pos as int, input@.len()),
{
    if pos >= input.len() {
        return Outcome::Incomplete;
    }
    if input[pos] != quote {
        return Outcome::Malformed(pos, Expected::Quote);
    }
    match scan_quoted(input, pos + 1, quote) {
        Outcome::Complete(_, close) => {
            if quote == SINGLE_QUOTE && close == pos + 1 {
                return Outcome::Malformed(close, Expected::QuotedChar);
            }
            proof {
                lemma_ascii_between(input@, pos as int + 1, close as int);
            }
            Outcome::Complete(ascii_str(input, pos + 1, close), close + 1)
        },
        Outcome::Incomplete => Outcome::Incomplete,
        Outcome::Malformed(at, what) => Outcome::Malformed(at, what),
    }
}

/// Reads a single-quoted word.
pub fn single_quoted<'a>(input: &'a [u8], pos: usize) -> (r: Outcome<SingleQuoted<'a>>)
    ensures
        r@ == quoted_at(input@, pos as int, SINGLE_QUOTE),
        r@.within(pos as int, input@.len()),
        r matches Outcome::Complete(w, _) ==> w.wf(),
{
    proof {
        lemma_quoted_wf(input@, pos as int, SINGLE_QUOTE);
    }
    match quoted(input, pos, SINGLE_QUOTE) {
        Outcome::Complete(w, end) => Outcome::Complete(SingleQuoted(w), end),
        Outcome::Incomplete => Outcome::Incomplete,
        Outcome::Malformed(at, what) => Outcome::Malformed(at, what),
    }
}

/// Reads a distinct object.
pub fn distinct_object<'a>(input: &'a [u8], pos: usize) -> (r: Outcome<DistinctObject<'a>>)
    ensures
        r@ == quoted_at(input@, pos as int, DOUBLE_QUOTE),
        r@.within(pos as int, input@.len()),
        r matches Outcome::Complete(w, _) ==> w.wf(),
{
    proof {
        lemma_quoted_wf(input@, pos as int, DOUBLE_QUOTE);
    }
    match quoted(input, pos, DOUBLE_QUOTE) {
        Outcome::Complete(w, end) => Outcome::Complete(DistinctObject(w), end),
        Outcome::Incomplete => Outcome::Incomplete,
        Outcome::Malformed(at, what) => Outcome::Malformed(at, what),
    }
}

/// Reads a lower-case word or a single-quoted one.
pub fn atomic_word<'a>(input: &'a [u8], pos: usize) -> (r: Outcome<AtomicWord<'a>>)
    ensures
        r@ == atomic_word_at(input@, pos as int),
        r@.within(pos as int, input@.len()),
{
    if pos >= input.len() {
        return Outcome::Incomplete;
    }
    if input[pos] == SINGLE_QUOTE {
        match single_quoted(input, pos) {
            Outcome::Complete(w, end) => Outcome::Complete(AtomicWord::SingleQuoted(w), end),
            Outcome::Incomplete => Outcome::Incomplete,
            Outcome::Malformed(at, what) => Outcome::Malformed(at, what),
        }
    } else {
        match lower_word(input, pos) {
            Outcome::Complete(w, end) => Outcome::Complete(AtomicWord::Lower(w), end),
            Outcome::Incomplete => Outcome::Incomplete,
            Outcome::Malformed(at, what) => Outcome::Malformed(at, what),
        }
    }
}

/// Finds the end of the exponent that begins at `start`.
pub fn scan_exponent(input: &[u8], start: usize) -> (end: usize)
    ensures
        end == exponent_end(input@, start as int),
        start <= end,
        start < input@.len() ==> end <= input@.len() && ascii_between(
            input@,
            start as int,
            end as int,
        ),
{
    if start >= input.len() {
        return start;
    }
    if !is_exponent_mark(input[start]) {
        return start;
    }
    if input.len() - start < 2 {
        return input.len();
    }
    let g = if is_sign(input[start + 1]) {
        start + 2
    } else {
        start + 1
    };
    if g >= input.len() {
        return input.len();
    }
    if !is_digit(input[g]) {
        return start;
    }
    let end = scan_digits(input, g + 1);
    assert(ascii_between(input@, start as int, end as int)) by {
        assert forall|k: int| start <= k < end implies #[trigger] input@[k] < 128 by {
            if k > g {
                assert(digit(input@[k]));
            }
        }
    }
    end
}

/// Reads a numeral.
pub fn number<'a>(input: &'a [u8], pos: usize) -> (r: Outcome<Number<'a>>)
    ensures
        r@ == number_at(input@, pos as int),
        r@.within(pos as int, input@.len()),
        r matches Outcome::Complete(n, _) ==> n@.wf(),
{
    proof {
        lemma_number_wf(input@, pos as int);
    }
    proof {
        reveal(number_at);
    }
    let len = input.len();
    if pos >= len {
        return Outcome::Incomplete;
    }
    let a = if is_sign(input[pos]) {
        pos + 1
    } else {
        pos
    };
    if a >= len {
        return Outcome::Incomplete;
    }
    if !is_digit(input[a]) {
        return Outcome::Malformed(a, Expected::Digit);
    }
    let d = if input[a] == ZERO {
        a + 1
    } else {
        scan_digits(input, a + 1)
    };
    if d >= len {
        return Outcome::Incomplete;
    }
    assert(ascii_between(input@, pos as int, d as int)) by {
        assert forall|k: int| pos <= k < d implies #[trigger] input@[k] < 128 by {
            if k > a {
                assert(digit(input@[k]));
            }
        }
    }
    if input[d] == SLASH {
        if len - d < 2 {
            return Outcome::Incomplete;
        }
        if !is_nonzero_digit(input[d + 1]) {
            proof {
                lemma_ascii_between(input@, pos as int, d as int);
            }
            return Outcome::Complete(Number::Integer(Integer(ascii_str(input, pos, d))), d);
        }
        let e = scan_digits(input, d + 2);
        if e >= len {
            return Outcome::Incomplete;
        }
        proof {
            assert forall|k: int| pos <= k < e implies #[trigger] input@[k] < 128 by {
                if k > d + 1 {
                    assert(digit(input@[k]));
                }
            }
        }
        Outcome::Complete(Number::Rational(Rational(ascii_str(input, pos, e))), e)
    } else if input[d] == DOT {
        if len - d < 2 {
            return Outcome::Incomplete;
        }
        if !is_digit(input[d + 1]) {
            proof {
                lemma_ascii_between(input@, pos as int, d as int);
            }
            return Outcome::Complete(Number::Integer(Integer(ascii_str(input, pos, d))), d);
        }
        let f = scan_digits(input, d + 2);
        if f >= len {
            return Outcome::Incomplete;
        }
        let e = scan_exponent(input, f);
        if e >= len {
            return Outcome::Incomplete;
        }
        proof {
            assert forall|k: int| pos <= k < e implies #[trigger] input@[k] < 128 by {
                if d + 1 < k < f {
                    assert(digit(input@[k]));
                }
            }
        }
        Outcome::Complete(Number::Real(Real(ascii_str(input, pos, e))), e)
    } else {
        let e = scan_exponent(input, d);
        if e >= len {
            return Outcome::Incomplete;
        }
        proof {
            lemma_ascii_between(input@, pos as int, e as int);
        }
        if e > d {
            Outcome::Complete(Number::Real(Real(ascii_str(input, pos, e))), e)
        } else {
            Outcome::Complete(Number::Integer(Integer(ascii_str(input, pos, d))), d)
        }
    }
}

} // verus!
