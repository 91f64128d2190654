//! Words, quoted tokens and numerals: what is read is well formed, and what
//! is well formed is read back.

use crate::ascii::{
    alnum, BACKSLASH, bytes_of, chars_of, digit, DOT, DOUBLE_QUOTE, exponent_mark,
    lemma_occurs_split, lower, occurs, SINGLE_QUOTE, SLASH,
};
use crate::grammar::{
    atomic_word_at, dollar_dollar_word_at, dollar_word_at, number_at, quoted_at, quoted_end, span,
    word_at,
};
use crate::lexical::{
    ascii_between, decimal_end, digits_end, exponent_end, lemma_digits_end, lemma_word_end,
    quoted_shape, sign_end, word_end, word_shape,
};
use crate::model::{AtomicWordModel, lower_word_wf, NumberModel};
use crate::outcome::Parsed;
use vstd::prelude::*;
use vstd::utf8::is_ascii_chars;

verus! {

/// An ASCII text that occurs in the buffer is the text between its two ends.
pub proof fn lemma_span_of_occurs(s: Seq<u8>, i: int, w: Seq<char>)
    requires
        occurs(s, i, w),
        is_ascii_chars(w),
    ensures
        span(s, i, i + w.len()) == w,
        ascii_between(s, i, i + w.len()),
{
    let piece = s.subrange(i, i + w.len());
    assert forall|k: int| 0 <= k < w.len() implies #[trigger] chars_of(piece)[k] == w[k] by {
        assert(piece[k] == s[i + k]);
    }
    assert forall|k: int| i <= k < i + w.len() implies #[trigger] s[k] < 128 by {
        assert(s[i + (k - i)] == w[k - i] as u8);
    }
}

/// The text between two offsets of a buffer whose bytes there are ASCII
/// occurs at the first of them, and its bytes are those of the buffer.
pub proof fn lemma_occurs_of_span(s: Seq<u8>, i: int, e: int)
    requires
        0 <= i <= e <= s.len(),
        ascii_between(s, i, e),
    ensures
        is_ascii_chars(span(s, i, e)),
        bytes_of(span(s, i, e)) == s.subrange(i, e),
        span(s, i, e).len() == e - i,
        occurs(s, i, span(s, i, e)),
{
    let piece = s.subrange(i, e);
    let w = span(s, i, e);
    assert forall|k: int| 0 <= k < w.len() implies s[i + k] == #[trigger] w[k] as u8 by {
        assert(bytes_of(w)[k] == piece[k]);
    }
}

/// A run of word bytes ends where they end.
pub proof fn lemma_word_run(s: Seq<u8>, from: int, to: int)
    requires
        0 <= from <= to <= s.len(),
        forall|k: int| from <= k < to ==> alnum(#[trigger] s[k]),
        to < s.len() ==> !alnum(s[to]),
    ensures
        word_end(s, from) == to,
    decreases to - from,
{
    if from < to {
        lemma_word_run(s, from + 1, to);
    }
}

/// A run of digits ends where they end.
pub proof fn lemma_digits_run(s: Seq<u8>, from: int, to: int)
    requires
        0 <= from <= to <= s.len(),
        forall|k: int| from <= k < to ==> digit(#[trigger] s[k]),
        to < s.len() ==> !digit(s[to]),
    ensures
        digits_end(s, from) == to,
    decreases to - from,
{
    if from < to {
        lemma_digits_run(s, from + 1, to);
    }
}

/// A word that is read has the shape of a word.
pub proof fn lemma_word_wf(s: Seq<u8>, i: int, capital: bool)
    ensures
        word_at(s, i, capital) matches Parsed::Done(w, end) ==> {
            &&& is_ascii_chars(w)
            &&& word_shape(bytes_of(w), capital)
            &&& i < end < s.len()
        },
{
    if let Parsed::Done(w, end) = word_at(s, i, capital) {
        lemma_word_end(s, i + 1);
        assert forall|k: int| i <= k < end implies #[trigger] s[k] < 128 by {
            if k > i {
                assert(alnum(s[k]));
            }
        }
        let b = bytes_of(w);
        assert forall|k: int| 0 <= k < b.len() implies alnum(#[trigger] b[k]) by {
            if k > 0 {
                assert(alnum(s[i + k]));
            }
        }
    }
}

/// A word is read back where it stands in front of a byte that is none of a
/// word.
pub proof fn lemma_word_round_trip(w: Seq<char>, capital: bool, s: Seq<u8>, i: int)
    requires
        is_ascii_chars(w),
        word_shape(bytes_of(w), capital),
        occurs(s, i, w),
        i + w.len() < s.len(),
        !alnum(s[i + w.len()]),
    ensures
        word_at(s, i, capital) == Parsed::Done(w, i + w.len()),
{
    let b = bytes_of(w);
    let end = i + w.len();
    assert forall|k: int| i + 1 <= k < end implies alnum(#[trigger] s[k]) by {
        assert(alnum(b[k - i]));
    }
    lemma_word_run(s, i + 1, end);
    lemma_span_of_occurs(s, i, w);
}

/// What is quoted up to the closing quote has the shape that the syntax asks
/// of it, and is ASCII.
pub proof fn lemma_quoted_scan_wf(s: Seq<u8>, start: int, k: int, quote: u8)
    requires
        0 <= start <= k,
        quote < 128,
    ensures
        quoted_end(s, k, quote) matches Parsed::Done(_, close) ==> {
            &&& k <= close < s.len()
            &&& s[close] == quote
            &&& ascii_between(s, k, close)
            &&& quoted_shape(s.subrange(start, close), quote, k - start)
        },
    decreases s.len() - k,
{
    if let Parsed::Done(_, close) = quoted_end(s, k, quote) {
        if s[k] == quote {
        } else if s[k] == BACKSLASH {
            lemma_quoted_scan_wf(s, start, k + 2, quote);
            assert forall|j: int| k <= j < close implies #[trigger] s[j] < 128 by {
                if j >= k + 2 {
                    assert(ascii_between(s, k + 2, close));
                }
            }
        } else {
            lemma_quoted_scan_wf(s, start, k + 1, quote);
            assert forall|j: int| k <= j < close implies #[trigger] s[j] < 128 by {
                if j >= k + 1 {
                    assert(ascii_between(s, k + 1, close));
                }
            }
        }
    }
}

/// What is quoted in a well-shaped token is scanned to its closing quote.
pub proof fn lemma_quoted_scan_round_trip(w: Seq<char>, quote: u8, s: Seq<u8>, start: int, k: int)
    requires
        is_ascii_chars(w),
        quote != BACKSLASH,
        0 <= k <= w.len(),
        quoted_shape(bytes_of(w), quote, k),
        occurs(s, start, w),
        start + w.len() < s.len(),
        s[start + w.len()] == quote,
    ensures
        quoted_end(s, start + k, quote) == Parsed::Done((), start + w.len()),
    decreases w.len() - k,
{
    let b = bytes_of(w);
    if k < w.len() {
        if b[k] == BACKSLASH {
            lemma_quoted_scan_round_trip(w, quote, s, start, k + 2);
        } else {
            lemma_quoted_scan_round_trip(w, quote, s, start, k + 1);
        }
    }
}

/// A quoted token that is read is well formed.
pub proof fn lemma_quoted_wf(s: Seq<u8>, i: int, quote: u8)
    requires
        quote == SINGLE_QUOTE || quote == DOUBLE_QUOTE,
    ensures
        quoted_at(s, i, quote) matches Parsed::Done(w, end) ==> {
            &&& is_ascii_chars(w)
            &&& quoted_shape(bytes_of(w), quote, 0)
            &&& (quote == SINGLE_QUOTE ==> w.len() >= 1)
            &&& i < end <= s.len()
        },
{
    if let Parsed::Done(w, end) = quoted_at(s, i, quote) {
        lemma_quoted_scan_wf(s, i + 1, i + 1, quote);
        lemma_occurs_of_span(s, i + 1, end - 1);
    }
}

/// A quoted token is read back where it stands between its quotes.
pub proof fn lemma_quoted_round_trip(w: Seq<char>, quote: u8, s: Seq<u8>, i: int)
    requires
        quote == SINGLE_QUOTE || quote == DOUBLE_QUOTE,
        is_ascii_chars(w),
        quoted_shape(bytes_of(w), quote, 0),
        quote == SINGLE_QUOTE ==> w.len() >= 1,
        0 <= i,
        i + w.len() + 1 < s.len(),
        s[i] == quote,
        occurs(s, i + 1, w),
        s[i + 1 + w.len()] == quote,
    ensures
        quoted_at(s, i, quote) == Parsed::Done(w, i + w.len() + 2),
{
    lemma_quoted_scan_round_trip(w, quote, s, i + 1, 0);
    lemma_span_of_occurs(s, i + 1, w);
}

/// Two buffers hold the same `n` bytes, one from `x` on and the other from
/// `y` on.
pub open spec fn same_bytes(a: Seq<u8>, x: int, b: Seq<u8>, y: int, n: int) -> bool {
    &&& 0 <= x
    &&& 0 <= y
    &&& 0 <= n
    &&& x + n <= a.len()
    &&& y + n <= b.len()
    &&& forall|j: int| 0 <= j < n ==> #[trigger] a[x + j] == b[y + j]
}

/// Where two buffers hold the same bytes, a run of digits that ends among
/// them ends at the same byte in both.
pub proof fn lemma_digits_window(a: Seq<u8>, x: int, b: Seq<u8>, y: int, n: int, k: int)
    requires
        same_bytes(a, x, b, y, n),
        0 <= k <= n,
    ensures
        digits_end(a, x + k) - x < n ==> digits_end(b, y + k) - y == digits_end(a, x + k) - x,
        digits_end(a, x + k) - x >= n ==> digits_end(b, y + k) - y >= n,
    decreases n - k,
{
    if k < n {
        if digit(a[x + k]) {
            lemma_digits_window(a, x, b, y, n, k + 1);
        }
    } else {
        lemma_digits_end(a, x + k);
        lemma_digits_end(b, y + k);
    }
}

/// A run of digits in a token ends at the same byte in a buffer that holds
/// the token in front of a byte that is no digit.
pub proof fn lemma_digits_to_buffer(b: Seq<u8>, k: int, s: Seq<u8>, i: int)
    requires
        same_bytes(b, 0, s, i, b.len() as int),
        0 <= k <= b.len(),
        i + b.len() < s.len(),
        !digit(s[i + b.len()]),
    ensures
        digits_end(s, i + k) == i + digits_end(b, k),
{
    let n = b.len() as int;
    lemma_digits_window(b, 0, s, i, n, k);
    lemma_digits_end(b, k);
    lemma_digits_end(s, i + k);
    if digits_end(b, k) >= n {
        if digits_end(s, i + k) > i + n {
            assert(digit(s[i + n]));
        }
    }
}

/// A run of digits in a buffer ends at the same byte in the piece of the
/// buffer that holds it, or at the end of the piece.
pub proof fn lemma_digits_to_piece(s: Seq<u8>, i: int, e: int, k: int)
    requires
        0 <= i <= e <= s.len(),
        0 <= k <= e - i,
    ensures
        digits_end(s, i + k) < e ==> digits_end(s.subrange(i, e), k) == digits_end(s, i + k) - i,
        digits_end(s, i + k) >= e ==> digits_end(s.subrange(i, e), k) == e - i,
{
    let b = s.subrange(i, e);
    assert(same_bytes(s, i, b, 0, e - i)) by {
        assert forall|j: int| 0 <= j < e - i implies #[trigger] s[i + j] == b[0 + j] by {}
    }
    lemma_digits_window(s, i, b, 0, e - i, k);
    lemma_digits_end(b, k);
}

/// The bytes of a numeral that is read are ASCII, and the numeral has the
/// shape of its kind.
pub proof fn lemma_number_wf(s: Seq<u8>, i: int)
    ensures
        number_at(s, i) matches Parsed::Done(n, end) ==> n.wf() && i < end < s.len(),
{
    reveal(number_at);
    if let Parsed::Done(n, end) = number_at(s, i) {
        let a = sign_end(s, i);
        let d = decimal_end(s, a);
        lemma_digits_end(s, a + 1);
        lemma_digits_end(s, d + 2);
        if s[d] == DOT && d + 1 < s.len() && digit(s[d + 1]) {
            let f = digits_end(s, d + 2);
            lemma_digits_end(s, sign_end(s, f + 1) + 1);
        } else if s[d] != SLASH {
            lemma_digits_end(s, sign_end(s, d + 1) + 1);
        }
        if n is Integer {
            lemma_digits_to_piece(s, i, end, a + 1 - i);
            assert forall|k: int| i <= k < end implies #[trigger] s[k] < 128 by {
                if k > a {
                    assert(digit(s[k]));
                }
            }
        } else if n is Rational {
            lemma_digits_to_piece(s, i, end, a + 1 - i);
            lemma_digits_to_piece(s, i, end, d + 2 - i);
            assert forall|k: int| i <= k < end implies #[trigger] s[k] < 128 by {
                if a < k < d || k > d + 1 {
                    assert(digit(s[k]));
                }
            }
        } else {
            let f = if s[d] == DOT {
                digits_end(s, d + 2)
            } else {
                d
            };
            let g = sign_end(s, f + 1);
            lemma_digits_to_piece(s, i, end, a + 1 - i);
            if s[d] == DOT {
                lemma_digits_to_piece(s, i, end, d + 2 - i);
            }
            if end > f {
                lemma_digits_to_piece(s, i, end, g + 1 - i);
            }
            assert forall|k: int| i <= k < end implies #[trigger] s[k] < 128 by {
                if a < k < d || (s[d] == DOT && d + 1 < k < f) || k > g {
                    assert(digit(s[k]));
                }
            }
        }
        lemma_occurs_of_span(s, i, end);
    }
}

/// A byte that cannot continue a numeral.
pub open spec fn number_stop(b: u8) -> bool {
    !digit(b) && !exponent_mark(b) && b != DOT && b != SLASH
}

/// A numeral is read back where it stands in front of a byte that cannot
/// continue it.
pub proof fn lemma_number_round_trip(n: NumberModel, s: Seq<u8>, i: int)
    requires
        n.wf(),
        occurs(s, i, n.text()),
        i + n.text().len() < s.len(),
        number_stop(s[i + n.text().len()]),
    ensures
        number_at(s, i) == Parsed::Done(n, i + n.text().len()),
{
    reveal(number_at);
    let w = n.text();
    let b = bytes_of(w);
    let len = w.len() as int;
    let end = i + len;
    assert(same_bytes(b, 0, s, i, len)) by {
        assert forall|j: int| 0 <= j < len implies #[trigger] b[0 + j] == s[i + j] by {
            assert(s[i + j] == w[j] as u8);
        }
    }
    lemma_span_of_occurs(s, i, w);
    let a = sign_end(b, 0);
    let d = decimal_end(b, a);
    lemma_digits_to_buffer(b, a + 1, s, i);
    match n {
        NumberModel::Integer(_) => {
            assert(d == len);
        },
        NumberModel::Rational(_) => {
            lemma_digits_to_buffer(b, d + 2, s, i);
        },
        NumberModel::Real(_) => {
            let f = if b[d] == DOT {
                digits_end(b, d + 2)
            } else {
                d
            };
            if b[d] == DOT {
                lemma_digits_to_buffer(b, d + 2, s, i);
            }
            if f < len {
                let g = sign_end(b, f + 1);
                lemma_digits_to_buffer(b, g + 1, s, i);
            } else {
                assert(exponent_end(s, i + f) == end);
            }
        },
    }
}

/// An atomic word that is read is well formed.
pub proof fn lemma_atomic_word_wf(s: Seq<u8>, i: int)
    ensures
        atomic_word_at(s, i) matches Parsed::Done(w, end) ==> w.wf() && i < end <= s.len(),
{
    lemma_word_wf(s, i, false);
    lemma_quoted_wf(s, i, SINGLE_QUOTE);
}

/// An atomic word is read back where it stands in front of a byte that is
/// none of a word.
pub proof fn lemma_atomic_word_round_trip(w: AtomicWordModel, s: Seq<u8>, i: int)
    requires
        w.wf(),
        occurs(s, i, w.text()),
        i + w.text().len() < s.len(),
        !alnum(s[i + w.text().len()]),
    ensures
        atomic_word_at(s, i) == Parsed::Done(w, i + w.text().len()),
        w.text().len() > 0,
        w is Lower ==> lower(s[i]),
        w is SingleQuoted ==> s[i] == SINGLE_QUOTE,
{
    match w {
        AtomicWordModel::Lower(word) => {
            lemma_word_round_trip(word, false, s, i);
        },
        AtomicWordModel::SingleQuoted(inner) => {
            reveal_strlit("'");
            let quote = "'"@;
            assert(quote.len() == 1 && quote[0] == '\'');
            lemma_occurs_split(s, i, quote + inner, quote);
            lemma_occurs_split(s, i, quote, inner);
            lemma_quoted_round_trip(inner, SINGLE_QUOTE, s, i);
        },
    }
}

/// A word behind dollar signs that is read is a lower-case word.
pub proof fn lemma_dollar_words_wf(s: Seq<u8>, i: int)
    ensures
        dollar_word_at(s, i) matches Parsed::Done(w, end) ==> lower_word_wf(w) && i
            < end < s.len(),
        dollar_dollar_word_at(s, i) matches Parsed::Done(w, end) ==> lower_word_wf(
            w,
        ) && i < end < s.len(),
{
    lemma_word_wf(s, i + 1, false);
    lemma_word_wf(s, i + 2, false);
}

} // verus!
