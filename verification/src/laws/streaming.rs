//! More bytes change no outcome but an incomplete one.
//!
//! A production that is complete or malformed in a buffer has looked only at
//! bytes of that buffer.  It is therefore the same in every buffer that
//! begins with this one: once an outcome is decided, it is final, and a
//! caller who is told that a production is incomplete loses nothing by
//! reading on and trying again from the same offset.

use crate::ascii::{
    alnum, BACKSLASH, BANG, CLOSE_BRACKET, COLON, COMMA, digit, DOLLAR, DOT, DOUBLE_QUOTE, EQUALS,
    exponent_mark, lower, NEWLINE, nonzero_digit, OPEN_BRACKET, OPEN_PAREN, PERCENT, PIPE,
    printable, QUESTION, sign, SINGLE_QUOTE, SLASH, space, STAR, TILDE, upper, ZERO,
};
use crate::grammar::{
    arguments_at, assoc_byte, atomic_at, atomic_word_at, cnf_formula_at, connective_at,
    continued_at, disjunction_at, dollar_dollar_word_at, dollar_word_at, function_term_at,
    lemma_connective_within, literal_at, literals_after, logic_at, number_at, operands_after,
    optional_tail_at, plain_term_at, quantified_at, quoted_at, quoted_end, span, system_term_at,
    tail_at, term_at, term_led_at, term_list_at, unit_at, variables_at, word_at,
};
use crate::laws::progress::{
    lemma_disjunction_within, lemma_logic_within, lemma_number_within, lemma_quoted_end_within,
    lemma_term_list_within,
};
use crate::lexical::{
    block_end, decimal_end, digits_end, exponent_end, lemma_block_end, lemma_digits_end,
    lemma_line_end, lemma_skip, lemma_word_end, line_end, sign_end, skip, word_end,
};
use crate::model::UnitModel;
use crate::outcome::Parsed;
use crate::syntax::{AssocConnective, Connective};
use vstd::prelude::*;

verus! {

/// The buffer `t` begins with the buffer `s`.
pub open spec fn extends(t: Seq<u8>, s: Seq<u8>) -> bool {
    &&& s.len() <= t.len()
    &&& forall|k: int| 0 <= k < s.len() ==> #[trigger] t[k] == s[k]
}

/// The text between two offsets of a buffer is the same in a longer one.
pub proof fn lemma_span_stable(s: Seq<u8>, t: Seq<u8>, i: int, e: int)
    requires
        extends(t, s),
        0 <= i <= e <= s.len(),
    ensures
        span(t, i, e) == span(s, i, e),
{
    assert(t.subrange(i, e) =~= s.subrange(i, e)) by {
        assert forall|k: int| 0 <= k < e - i implies t.subrange(i, e)[k] == s.subrange(i, e)[k] by {
            assert(t[i + k] == s[i + k]);
        }
    }
}

/// A run of word bytes that ends within a buffer ends at the same byte in every buffer
/// that begins with it.
pub proof fn lemma_word_end_stable(s: Seq<u8>, t: Seq<u8>, i: int)
    requires
        extends(t, s),
        0 <= i,
        word_end(s, i) < s.len(),
    ensures
        word_end(t, i) == word_end(s, i),
    decreases s.len() - i,
{
    if i < s.len() {
        if alnum(s[i]) {
            lemma_word_end_stable(s, t, i + 1);
        }
    }
}

/// A run of digits that ends within a buffer ends at the same byte in every buffer
/// that begins with it.
pub proof fn lemma_digits_end_stable(s: Seq<u8>, t: Seq<u8>, i: int)
    requires
        extends(t, s),
        0 <= i,
        digits_end(s, i) < s.len(),
    ensures
        digits_end(t, i) == digits_end(s, i),
    decreases s.len() - i,
{
    if i < s.len() {
        if digit(s[i]) {
            lemma_digits_end_stable(s, t, i + 1);
        }
    }
}

/// A line that ends within a buffer ends at the same byte in every buffer
/// that begins with it.
pub proof fn lemma_line_end_stable(s: Seq<u8>, t: Seq<u8>, i: int)
    requires
        extends(t, s),
        0 <= i,
        line_end(s, i) < s.len(),
    ensures
        line_end(t, i) == line_end(s, i),
    decreases s.len() - i,
{
    if i < s.len() {
        if s[i] != NEWLINE {
            lemma_line_end_stable(s, t, i + 1);
        }
    }
}

/// A block comment that ends within a buffer ends at the same byte in every buffer
/// that begins with it.
pub proof fn lemma_block_end_stable(s: Seq<u8>, t: Seq<u8>, i: int)
    requires
        extends(t, s),
        0 <= i,
        block_end(s, i) < s.len(),
    ensures
        block_end(t, i) == block_end(s, i),
    decreases s.len() - i,
{
    if i + 1 < s.len() {
        if !(s[i] == STAR && s[i + 1] == SLASH) {
            lemma_block_end_stable(s, t, i + 1);
        }
    }
}

/// The ignorable spans that end within a buffer end at the same byte in a
/// longer one.
pub proof fn lemma_skip_stable(s: Seq<u8>, t: Seq<u8>, i: int)
    requires
        extends(t, s),
        0 <= i,
        skip(s, i) < s.len(),
    ensures
        skip(t, i) == skip(s, i),
    decreases s.len() - i,
{
    if i < s.len() {
        if space(s[i]) {
            lemma_skip_stable(s, t, i + 1);
        } else if s[i] == PERCENT {
            let end = line_end(s, i + 1);
            lemma_line_end(s, i + 1);
            lemma_skip(s, end);
            lemma_line_end_stable(s, t, i + 1);
            lemma_skip_stable(s, t, end);
        } else if s[i] == SLASH {
            if s[i + 1] == STAR {
                let end = block_end(s, i + 2);
                lemma_block_end(s, i + 2);
                lemma_skip(s, end);
                lemma_block_end_stable(s, t, i + 2);
                lemma_skip_stable(s, t, end);
            }
        }
    }
}

/// A word that is complete or malformed in a buffer is the same in every buffer
/// that begins with it.
pub proof fn lemma_word_stable(s: Seq<u8>, t: Seq<u8>, i: int, capital: bool)
    requires
        extends(t, s),
        !(word_at(s, i, capital) is Incomplete),
    ensures
        word_at(t, i, capital) == word_at(s, i, capital),
{
    if let Parsed::Done(_, end) = word_at(s, i, capital) {
        lemma_word_end(s, i + 1);
        lemma_word_end_stable(s, t, i + 1);
        lemma_span_stable(s, t, i, end);
    }
}

/// What is quoted, where its end or a fault is found in a buffer, is the same
/// in every buffer that begins with it.
pub proof fn lemma_quoted_end_stable(s: Seq<u8>, t: Seq<u8>, k: int, quote: u8)
    requires
        extends(t, s),
        !(quoted_end(s, k, quote) is Incomplete),
    ensures
        quoted_end(t, k, quote) == quoted_end(s, k, quote),
    decreases s.len() - k,
{
    if s[k] != quote {
        if s[k] == BACKSLASH {
            if s[k + 1] == quote || s[k + 1] == BACKSLASH {
                lemma_quoted_end_stable(s, t, k + 2, quote);
            }
        } else if printable(s[k]) {
            lemma_quoted_end_stable(s, t, k + 1, quote);
        }
    }
}

/// A quoted token that is complete or malformed in a buffer is the same in every buffer
/// that begins with it.
pub proof fn lemma_quoted_stable(s: Seq<u8>, t: Seq<u8>, i: int, quote: u8)
    requires
        extends(t, s),
        !(quoted_at(s, i, quote) is Incomplete),
    ensures
        quoted_at(t, i, quote) == quoted_at(s, i, quote),
{
    if s[i] == quote {
        lemma_quoted_end_stable(s, t, i + 1, quote);
        lemma_quoted_end_within(s, i + 1, quote);
        if let Parsed::Done(_, close) = quoted_end(s, i + 1, quote) {
            lemma_span_stable(s, t, i + 1, close);
        }
    }
}

/// An exponent that ends within a buffer ends at the same byte in every buffer
/// that begins with it.
pub proof fn lemma_exponent_end_stable(s: Seq<u8>, t: Seq<u8>, i: int)
    requires
        extends(t, s),
        0 <= i,
        exponent_end(s, i) < s.len(),
    ensures
        exponent_end(t, i) == exponent_end(s, i),
{
    if i < s.len() {
        if exponent_mark(s[i]) {
            let g = sign_end(s, i + 1);
            if digit(s[g]) {
                lemma_digits_end_stable(s, t, g + 1);
            }
        }
    }
}

/// A numeral that is complete or malformed in a buffer is the same in every buffer
/// that begins with it.
pub proof fn lemma_number_stable(s: Seq<u8>, t: Seq<u8>, i: int)
    requires
        extends(t, s),
        !(number_at(s, i) is Incomplete),
    ensures
        number_at(t, i) == number_at(s, i),
{
    reveal(number_at);
    let a = sign_end(s, i);
    if digit(s[a]) {
        let d = decimal_end(s, a);
        lemma_digits_end(s, a + 1);
        if !(s[a] == ZERO) {
            lemma_digits_end_stable(s, t, a + 1);
        }
        if let Parsed::Done(_, end) = number_at(s, i) {
            lemma_number_within(s, i);
            lemma_span_stable(s, t, i, end);
            if s[d] == SLASH {
                if nonzero_digit(s[d + 1]) {
                    lemma_digits_end_stable(s, t, d + 2);
                }
            } else if s[d] == DOT {
                if digit(s[d + 1]) {
                    lemma_digits_end_stable(s, t, d + 2);
                    lemma_exponent_end_stable(s, t, digits_end(s, d + 2));
                }
            } else {
                lemma_exponent_end_stable(s, t, d);
            }
        }
    }
}

/// An atomic word that is complete or malformed in a buffer is the same in every buffer
/// that begins with it.
pub proof fn lemma_atomic_word_stable(s: Seq<u8>, t: Seq<u8>, i: int)
    requires
        extends(t, s),
        !(atomic_word_at(s, i) is Incomplete),
    ensures
        atomic_word_at(t, i) == atomic_word_at(s, i),
{
    if s[i] == SINGLE_QUOTE {
        lemma_quoted_stable(s, t, i, SINGLE_QUOTE);
    } else {
        lemma_word_stable(s, t, i, false);
    }
}

/// A word behind dollar signs that is complete or malformed in a buffer is the
/// same in every buffer that begins with it.
pub proof fn lemma_dollar_words_stable(s: Seq<u8>, t: Seq<u8>, i: int)
    requires
        extends(t, s),
    ensures
        !(dollar_word_at(s, i) is Incomplete) ==> dollar_word_at(t, i) == dollar_word_at(s, i),
        !(dollar_dollar_word_at(s, i) is Incomplete) ==> dollar_dollar_word_at(t, i)
            == dollar_dollar_word_at(s, i),
{
    if 0 <= i < s.len() {
        if !(dollar_word_at(s, i) is Incomplete) && s[i] == DOLLAR {
            lemma_word_stable(s, t, i + 1, false);
        }
        if !(dollar_dollar_word_at(s, i) is Incomplete) && s[i] == DOLLAR {
            if s[i + 1] == DOLLAR {
                lemma_word_stable(s, t, i + 2, false);
            }
        }
    }
}

/// A term that is complete or malformed in a buffer is the same in every
/// buffer that begins with it.
pub proof fn lemma_term_stable(s: Seq<u8>, t: Seq<u8>, i: int)
    requires
        extends(t, s),
        !(term_at(s, i) is Incomplete),
    ensures
        term_at(t, i) == term_at(s, i),
    decreases s.len() - i, 5int,
{
    if upper(s[i]) {
        lemma_word_stable(s, t, i, true);
    } else {
        lemma_function_term_stable(s, t, i);
    }
}

/// A function term that is complete or malformed in a buffer is the same in every buffer
/// that begins with it.
pub proof fn lemma_function_term_stable(s: Seq<u8>, t: Seq<u8>, i: int)
    requires
        extends(t, s),
        !(function_term_at(s, i) is Incomplete),
    ensures
        function_term_at(t, i) == function_term_at(s, i),
    decreases s.len() - i, 4int,
{
    if s[i] == DOLLAR {
        if s[i + 1] == DOLLAR {
            lemma_system_term_stable(s, t, i);
        } else {
            lemma_dollar_words_stable(s, t, i);
        }
    } else if digit(s[i]) || sign(s[i]) {
        lemma_number_stable(s, t, i);
    } else if s[i] == DOUBLE_QUOTE {
        lemma_quoted_stable(s, t, i, DOUBLE_QUOTE);
    } else {
        lemma_plain_term_stable(s, t, i);
    }
}

/// A plain term that is complete or malformed in a buffer is the same in every buffer
/// that begins with it.
pub proof fn lemma_plain_term_stable(s: Seq<u8>, t: Seq<u8>, i: int)
    requires
        extends(t, s),
        !(plain_term_at(s, i) is Incomplete),
    ensures
        plain_term_at(t, i) == plain_term_at(s, i),
    decreases s.len() - i, 3int,
{
    lemma_atomic_word_stable(s, t, i);
    if let Parsed::Done(_, end) = atomic_word_at(s, i) {
        lemma_arguments_stable(s, t, end);
    }
}

/// A system term that is complete or malformed in a buffer is the same in every buffer
/// that begins with it.
pub proof fn lemma_system_term_stable(s: Seq<u8>, t: Seq<u8>, i: int)
    requires
        extends(t, s),
        !(system_term_at(s, i) is Incomplete),
    ensures
        system_term_at(t, i) == system_term_at(s, i),
    decreases s.len() - i, 3int,
{
    lemma_dollar_words_stable(s, t, i);
    if let Parsed::Done(_, end) = dollar_dollar_word_at(s, i) {
        lemma_arguments_stable(s, t, end);
    }
}

/// The arguments of a functor that are decided in a buffer are the same in
/// every buffer that begins with it.
pub proof fn lemma_arguments_stable(s: Seq<u8>, t: Seq<u8>, end: int)
    requires
        extends(t, s),
        !(arguments_at(s, end) is Incomplete),
    ensures
        arguments_at(t, end) == arguments_at(s, end),
    decreases s.len() - end, 2int,
{
    let open = skip(s, end);
    lemma_skip(s, end);
    lemma_skip_stable(s, t, end);
    if s[open] == OPEN_PAREN {
        let first = skip(s, open + 1);
        lemma_skip(s, open + 1);
        lemma_skip_stable(s, t, open + 1);
        lemma_term_list_stable(s, t, first);
        lemma_term_list_within(s, first);
        if let Parsed::Done(_, last) = term_list_at(s, first) {
            lemma_skip(s, last);
            lemma_skip_stable(s, t, last);
        }
    }
}

/// A list of terms that is complete or malformed in a buffer is the same in every buffer
/// that begins with it.
pub proof fn lemma_term_list_stable(s: Seq<u8>, t: Seq<u8>, i: int)
    requires
        extends(t, s),
        !(term_list_at(s, i) is Incomplete),
    ensures
        term_list_at(t, i) == term_list_at(s, i),
    decreases s.len() - i, 6int,
{
    lemma_term_stable(s, t, i);
    if let Parsed::Done(_, end) = term_at(s, i) {
        let comma = skip(s, end);
        lemma_skip(s, end);
        lemma_skip_stable(s, t, end);
        if s[comma] == COMMA {
            let next = skip(s, comma + 1);
            lemma_skip(s, comma + 1);
            lemma_skip_stable(s, t, comma + 1);
            lemma_term_list_stable(s, t, next);
        }
    }
}

/// A tail that is complete or malformed in a buffer is the same in every buffer
/// that begins with it.
pub proof fn lemma_tail_stable(s: Seq<u8>, t: Seq<u8>, end: int, unequal: bool)
    requires
        extends(t, s),
        !(tail_at(s, end, unequal) is Incomplete),
    ensures
        tail_at(t, end, unequal) == tail_at(s, end, unequal),
        optional_tail_at(t, end, unequal) == optional_tail_at(s, end, unequal),
{
    reveal(tail_at);
    let op = skip(s, end);
    lemma_skip(s, end);
    lemma_skip_stable(s, t, end);
    if s[op] == EQUALS {
        lemma_skip_stable(s, t, op + 1);
        lemma_term_stable(s, t, skip(s, op + 1));
    } else if unequal && s[op] == BANG {
        if s[op + 1] == EQUALS {
            lemma_skip_stable(s, t, op + 2);
            lemma_term_stable(s, t, skip(s, op + 2));
        }
    }
}

/// A formula that begins with a term, where it is complete or malformed in a
/// buffer, is the same in every buffer that begins with it.
pub proof fn lemma_term_led_stable(s: Seq<u8>, t: Seq<u8>, i: int, system: bool, unequal: bool)
    requires
        extends(t, s),
        !(term_led_at(s, i, system, unequal) is Incomplete),
    ensures
        term_led_at(t, i, system, unequal) == term_led_at(s, i, system, unequal),
{
    reveal(term_led_at);
    if lower(s[i]) || s[i] == SINGLE_QUOTE {
        lemma_plain_term_stable(s, t, i);
        if let Parsed::Done(_, end) = plain_term_at(s, i) {
            lemma_tail_stable(s, t, end, unequal);
        }
    } else {
        lemma_term_stable(s, t, i);
        if let Parsed::Done(_, end) = term_at(s, i) {
            lemma_tail_stable(s, t, end, unequal);
        }
    }
}

/// An atomic formula that is complete or malformed in a buffer is the same in every buffer
/// that begins with it.
pub proof fn lemma_atomic_stable(s: Seq<u8>, t: Seq<u8>, i: int)
    requires
        extends(t, s),
        !(atomic_at(s, i) is Incomplete),
    ensures
        atomic_at(t, i) == atomic_at(s, i),
{
    lemma_term_led_stable(s, t, i, true, false);
}

/// A literal that is complete or malformed in a buffer is the same in every
/// buffer that begins with it.
pub proof fn lemma_literal_stable(s: Seq<u8>, t: Seq<u8>, i: int)
    requires
        extends(t, s),
        !(literal_at(s, i) is Incomplete),
    ensures
        literal_at(t, i) == literal_at(s, i),
{
    reveal(literal_at);
    if s[i] != TILDE {
        lemma_term_led_stable(s, t, i, false, true);
    } else {
        lemma_skip_stable(s, t, i + 1);
        lemma_atomic_stable(s, t, skip(s, i + 1));
    }
}

/// The literals behind a literal that are decided in a buffer are the same in
/// every buffer that begins with it.
pub proof fn lemma_literals_after_stable(s: Seq<u8>, t: Seq<u8>, end: int)
    requires
        extends(t, s),
        !(literals_after(s, end) is Incomplete),
    ensures
        literals_after(t, end) == literals_after(s, end),
    decreases s.len() - end,
{
    let bar = skip(s, end);
    lemma_skip(s, end);
    lemma_skip_stable(s, t, end);
    if s[bar] == PIPE {
        let next = skip(s, bar + 1);
        lemma_skip(s, bar + 1);
        lemma_skip_stable(s, t, bar + 1);
        lemma_literal_stable(s, t, next);
        if let Parsed::Done(_, after) = literal_at(s, next) {
            lemma_literals_after_stable(s, t, after);
        }
    }
}

/// A clause that is complete or malformed in a buffer is the same in every buffer
/// that begins with it.
pub proof fn lemma_disjunction_stable(s: Seq<u8>, t: Seq<u8>, i: int)
    requires
        extends(t, s),
        !(disjunction_at(s, i) is Incomplete),
    ensures
        disjunction_at(t, i) == disjunction_at(s, i),
{
    reveal(disjunction_at);
    lemma_literal_stable(s, t, i);
    if let Parsed::Done(_, end) = literal_at(s, i) {
        lemma_literals_after_stable(s, t, end);
    }
}

/// A formula in clausal normal form that is complete or malformed in a
/// buffer is the same in every buffer that begins with it.
pub proof fn lemma_cnf_formula_stable(s: Seq<u8>, t: Seq<u8>, i: int)
    requires
        extends(t, s),
        !(cnf_formula_at(s, i) is Incomplete),
    ensures
        cnf_formula_at(t, i) == cnf_formula_at(s, i),
{
    reveal(cnf_formula_at);
    if s[i] != OPEN_PAREN {
        lemma_disjunction_stable(s, t, i);
    } else {
        let first = skip(s, i + 1);
        lemma_skip(s, i + 1);
        lemma_skip_stable(s, t, i + 1);
        lemma_disjunction_stable(s, t, first);
        lemma_disjunction_within(s, first);
        if let Parsed::Done(_, end) = disjunction_at(s, first) {
            lemma_skip(s, end);
            lemma_skip_stable(s, t, end);
        }
    }
}

/// A list of variables that is complete or malformed in a buffer is the same in every buffer
/// that begins with it.
pub proof fn lemma_variables_stable(s: Seq<u8>, t: Seq<u8>, i: int)
    requires
        extends(t, s),
        !(variables_at(s, i) is Incomplete),
    ensures
        variables_at(t, i) == variables_at(s, i),
    decreases s.len() - i,
{
    lemma_word_stable(s, t, i, true);
    if let Parsed::Done(_, end) = word_at(s, i, true) {
        let comma = skip(s, end);
        lemma_skip(s, end);
        lemma_skip_stable(s, t, end);
        if s[comma] == COMMA {
            let next = skip(s, comma + 1);
            lemma_skip(s, comma + 1);
            lemma_skip_stable(s, t, comma + 1);
            lemma_variables_stable(s, t, next);
        }
    }
}

/// A connective that is complete or malformed in a buffer is the same in every buffer
/// that begins with it.
pub proof fn lemma_connective_stable(s: Seq<u8>, t: Seq<u8>, i: int)
    requires
        extends(t, s),
        !(connective_at(s, i) is Incomplete),
    ensures
        connective_at(t, i) == connective_at(s, i),
{
    reveal(connective_at);
    if i + 1 < s.len() {
        assert(t[i + 1] == s[i + 1]);
    }
    if i + 2 < s.len() {
        assert(t[i + 2] == s[i + 2]);
    }
}

/// A unit formula that is complete or malformed in a buffer is the same in every buffer
/// that begins with it.
pub proof fn lemma_unit_stable(s: Seq<u8>, t: Seq<u8>, i: int)
    requires
        extends(t, s),
        !(unit_at(s, i) is Incomplete),
    ensures
        unit_at(t, i) == unit_at(s, i),
    decreases s.len() - i, 1int,
{
    if s[i] == BANG || s[i] == QUESTION {
        lemma_quantified_stable(s, t, i);
    } else if s[i] != TILDE && s[i] != OPEN_PAREN {
        lemma_term_led_stable(s, t, i, true, true);
    } else {
        let inner = skip(s, i + 1);
        lemma_skip(s, i + 1);
        lemma_skip_stable(s, t, i + 1);
        if s[i] == TILDE {
            lemma_unit_stable(s, t, inner);
        } else {
            lemma_logic_stable(s, t, inner);
            lemma_logic_within(s, inner);
            if let Parsed::Done(_, end) = logic_at(s, inner) {
                lemma_skip(s, end);
                lemma_skip_stable(s, t, end);
            }
        }
    }
}

/// A quantified formula that is complete or malformed in a buffer is the same in every buffer
/// that begins with it.
pub proof fn lemma_quantified_stable(s: Seq<u8>, t: Seq<u8>, i: int)
    requires
        extends(t, s),
        !(quantified_at(s, i) is Incomplete),
    ensures
        quantified_at(t, i) == quantified_at(s, i),
    decreases s.len() - i, 0int,
{
    if s[i] == BANG || s[i] == QUESTION {
        let open = skip(s, i + 1);
        lemma_skip(s, i + 1);
        lemma_skip_stable(s, t, i + 1);
        if s[open] == OPEN_BRACKET {
            let first = skip(s, open + 1);
            lemma_skip(s, open + 1);
            lemma_skip_stable(s, t, open + 1);
            lemma_variables_stable(s, t, first);
            if let Parsed::Done(_, end) = variables_at(s, first) {
                let close = skip(s, end);
                lemma_skip(s, end);
                lemma_skip_stable(s, t, end);
                if s[close] == CLOSE_BRACKET {
                    let colon = skip(s, close + 1);
                    lemma_skip(s, close + 1);
                    lemma_skip_stable(s, t, close + 1);
                    if s[colon] == COLON {
                        let body = skip(s, colon + 1);
                        lemma_skip(s, colon + 1);
                        lemma_skip_stable(s, t, colon + 1);
                        lemma_unit_stable(s, t, body);
                    }
                }
            }
        }
    }
}

/// The operands behind an operand that are decided in a buffer are the same in
/// every buffer that begins with it.
pub proof fn lemma_operands_after_stable(s: Seq<u8>, t: Seq<u8>, end: int, c: AssocConnective)
    requires
        extends(t, s),
        !(operands_after(s, end, c) is Incomplete),
    ensures
        operands_after(t, end, c) == operands_after(s, end, c),
    decreases s.len() - end, 2int,
{
    let op = skip(s, end);
    lemma_skip(s, end);
    lemma_skip_stable(s, t, end);
    if s[op] == assoc_byte(c) {
        let next = skip(s, op + 1);
        lemma_skip(s, op + 1);
        lemma_skip_stable(s, t, op + 1);
        lemma_unit_stable(s, t, next);
        if let Parsed::Done(_, after) = unit_at(s, next) {
            lemma_operands_after_stable(s, t, after, c);
        }
    }
}

/// The formula that a unit formula begins, where it is decided in a buffer, is
/// the same in every buffer that begins with it.
pub proof fn lemma_continued_stable(s: Seq<u8>, t: Seq<u8>, u: UnitModel, end: int)
    requires
        extends(t, s),
        end <= s.len(),
        !(continued_at(s, u, end) is Incomplete),
    ensures
        continued_at(t, u, end) == continued_at(s, u, end),
    decreases s.len() - end, 3int,
{
    let op = skip(s, end);
    lemma_skip(s, end);
    lemma_connective_within(s, op);
    if op < s.len() {
        lemma_skip_stable(s, t, end);
        lemma_connective_stable(s, t, op);
        match connective_at(s, op) {
            Parsed::Done(Connective::Assoc(c), _) => {
                lemma_operands_after_stable(s, t, end, c);
            },
            Parsed::Done(Connective::Nonassoc(c), after) => {
                let right = skip(s, after);
                lemma_skip(s, after);
                lemma_skip_stable(s, t, after);
                lemma_unit_stable(s, t, right);
            },
            _ => {},
        }
    } else {
        reveal(connective_at);
    }
}

/// A formula that is complete or malformed in a buffer is the same in every
/// buffer that begins with it.
pub proof fn lemma_logic_stable(s: Seq<u8>, t: Seq<u8>, i: int)
    requires
        extends(t, s),
        !(logic_at(s, i) is Incomplete),
    ensures
        logic_at(t, i) == logic_at(s, i),
    decreases s.len() - i, 4int,
{
    lemma_unit_stable(s, t, i);
    if let Parsed::Done(u, end) = unit_at(s, i) {
        lemma_continued_stable(s, t, u, end);
    }
}

} // verus!
