//! Every production consumes at least one byte, and ends within the buffer.
//! Where it is malformed, the offending byte is one of the buffer, at or
//! after the offset at which the production began.

use crate::ascii::{
    BACKSLASH, BANG, COMMA, digit, DOLLAR, DOUBLE_QUOTE, lower, OPEN_PAREN, PIPE, QUESTION, sign,
    SINGLE_QUOTE, TILDE, upper,
};
use crate::grammar::{
    arguments_at, assoc_byte, atomic_at, atomic_word_at, cnf_formula_at, connective_at,
    continued_at, disjunction_at, dollar_dollar_word_at, dollar_word_at, function_term_at,
    lemma_connective_within, literal_at, literals_after, logic_at, number_at, operands_after,
    optional_tail_at, plain_term_at, quantified_at, quoted_at, quoted_end, system_term_at, tail_at,
    term_at, term_led_at, term_list_at, unit_at, variables_at, word_at,
};
use crate::laws::tokens::lemma_number_wf;
use crate::lexical::{lemma_skip, lemma_word_end, skip};
use crate::model::UnitModel;
use crate::outcome::Parsed;
use crate::syntax::{AssocConnective, Connective};
use vstd::prelude::*;

verus! {

/// What may follow a production and is read only where it can be: the
/// result ends at or after `end` and within the buffer, and is never
/// malformed at a byte before `end`.
pub open spec fn follows<T>(r: Parsed<T>, end: int, len: nat) -> bool {
    match r {
        Parsed::Done(_, after) => end <= after <= len,
        Parsed::Incomplete => true,
        Parsed::Malformed(at, _) => end <= at < len,
    }
}

/// A word consumes at least one byte and ends within the buffer.
pub proof fn lemma_word_within(s: Seq<u8>, i: int, capital: bool)
    ensures
        word_at(s, i, capital).within(i, s.len()),
{
    lemma_word_end(s, i + 1);
}

/// What is quoted ends at or after its beginning, at a quote of the buffer.
pub proof fn lemma_quoted_end_within(s: Seq<u8>, k: int, quote: u8)
    ensures
        follows(quoted_end(s, k, quote), k, s.len()),
        quoted_end(s, k, quote) matches Parsed::Done(_, close) ==> close < s.len(),
    decreases s.len() - k,
{
    if 0 <= k < s.len() && s[k] != quote {
        if s[k] == BACKSLASH {
            if k + 1 < s.len() {
                lemma_quoted_end_within(s, k + 2, quote);
            }
        } else {
            lemma_quoted_end_within(s, k + 1, quote);
        }
    }
}

/// A quoted token consumes at least one byte and ends within the buffer.
pub proof fn lemma_quoted_within(s: Seq<u8>, i: int, quote: u8)
    ensures
        quoted_at(s, i, quote).within(i, s.len()),
{
    lemma_quoted_end_within(s, i + 1, quote);
}

/// A numeral consumes at least one byte and ends within the buffer.
pub proof fn lemma_number_within(s: Seq<u8>, i: int)
    ensures
        number_at(s, i).within(i, s.len()),
{
    reveal(number_at);
    lemma_number_wf(s, i);
}

/// A word behind dollar signs and an atomic word consume at least one byte and
/// end within the buffer.
pub proof fn lemma_tokens_within(s: Seq<u8>, i: int)
    ensures
        dollar_word_at(s, i).within(i, s.len()),
        dollar_dollar_word_at(s, i).within(i, s.len()),
        atomic_word_at(s, i).within(i, s.len()),
{
    lemma_word_within(s, i, false);
    lemma_word_within(s, i + 1, false);
    lemma_word_within(s, i + 2, false);
    lemma_quoted_within(s, i, SINGLE_QUOTE);
}

/// A term consumes at least one byte and ends within the buffer.
pub proof fn lemma_term_within(s: Seq<u8>, i: int)
    ensures
        term_at(s, i).within(i, s.len()),
    decreases s.len() - i, 5int,
{
    if 0 <= i < s.len() {
        if upper(s[i]) {
            lemma_word_within(s, i, true);
        } else {
            lemma_function_term_within(s, i);
        }
    }
}

/// A function term consumes at least one byte and ends within the buffer.
pub proof fn lemma_function_term_within(s: Seq<u8>, i: int)
    ensures
        function_term_at(s, i).within(i, s.len()),
    decreases s.len() - i, 4int,
{
    if 0 <= i < s.len() {
        if s[i] == DOLLAR {
            if i + 1 < s.len() {
                if s[i + 1] == DOLLAR {
                    lemma_system_term_within(s, i);
                } else {
                    lemma_tokens_within(s, i);
                }
            }
        } else if digit(s[i]) || sign(s[i]) {
            lemma_number_within(s, i);
        } else if s[i] == DOUBLE_QUOTE {
            lemma_quoted_within(s, i, DOUBLE_QUOTE);
        } else {
            lemma_plain_term_within(s, i);
        }
    }
}

/// A plain term consumes at least one byte and ends within the buffer.
pub proof fn lemma_plain_term_within(s: Seq<u8>, i: int)
    ensures
        plain_term_at(s, i).within(i, s.len()),
    decreases s.len() - i, 3int,
{
    lemma_tokens_within(s, i);
    if let Parsed::Done(_, end) = atomic_word_at(s, i).beyond(i, s.len()) {
        lemma_arguments_within(s, end);
    }
}

/// A system term consumes at least one byte and ends within the buffer.
pub proof fn lemma_system_term_within(s: Seq<u8>, i: int)
    ensures
        system_term_at(s, i).within(i, s.len()),
    decreases s.len() - i, 3int,
{
    if let Parsed::Done(_, end) = dollar_dollar_word_at(s, i).beyond(i, s.len()) {
        lemma_arguments_within(s, end);
    }
}

/// The arguments of a functor end within the buffer, behind the functor where
/// there are any and where the functor ends where there are none.
pub proof fn lemma_arguments_within(s: Seq<u8>, end: int)
    ensures
        follows(arguments_at(s, end), end, s.len()),
        arguments_at(s, end) matches Parsed::Done(args, after) ==> (args is Some ==> end < after)
            && (args is None ==> after == end),
    decreases s.len() - end, 2int,
{
    let open = skip(s, end);
    let first = skip(s, open + 1);
    lemma_skip(s, end);
    lemma_skip(s, open + 1);
    if 0 <= end && open < s.len() && s[open] == OPEN_PAREN && first < s.len() {
        lemma_term_list_within(s, first);
        if let Parsed::Done(args, last) = term_list_at(s, first) {
            lemma_skip(s, last);
        }
    }
}

/// A list of terms consumes at least one byte and ends within the buffer.
pub proof fn lemma_term_list_within(s: Seq<u8>, i: int)
    ensures
        term_list_at(s, i).within(i, s.len()),
    decreases s.len() - i, 6int,
{
    lemma_term_within(s, i);
    if let Parsed::Done(_, end) = term_at(s, i).beyond(i, s.len()) {
        let comma = skip(s, end);
        let next = skip(s, comma + 1);
        lemma_skip(s, end);
        lemma_skip(s, comma + 1);
        if comma < s.len() && s[comma] == COMMA && next < s.len() {
            lemma_term_list_within(s, next);
        }
    }
}

/// A tail consumes at least one byte and ends within the buffer; where none is
/// read, nothing is consumed.
pub proof fn lemma_tail_within(s: Seq<u8>, end: int, unequal: bool)
    ensures
        tail_at(s, end, unequal).within(end, s.len()),
        follows(optional_tail_at(s, end, unequal), end, s.len()),
        !(optional_tail_at(s, end, unequal) is Malformed),
        optional_tail_at(s, end, unequal) matches Parsed::Done(tail, after) ==> (tail is Some
            ==> end < after) && (tail is None ==> after == end),
{
    reveal(tail_at);
    let op = skip(s, end);
    lemma_skip(s, end);
    lemma_skip(s, op + 1);
    lemma_skip(s, op + 2);
    lemma_term_within(s, skip(s, op + 1));
    lemma_term_within(s, skip(s, op + 2));
}

/// A formula that begins with a term consumes at least one byte and ends within the buffer.
pub proof fn lemma_term_led_within(s: Seq<u8>, i: int, system: bool, unequal: bool)
    ensures
        term_led_at(s, i, system, unequal).within(i, s.len()),
{
    reveal(term_led_at);
    if 0 <= i < s.len() {
        if lower(s[i]) || s[i] == SINGLE_QUOTE {
            lemma_plain_term_within(s, i);
            if let Parsed::Done(_, end) = plain_term_at(s, i) {
                lemma_tail_within(s, end, unequal);
            }
        } else {
            lemma_term_within(s, i);
            if let Parsed::Done(_, end) = term_at(s, i) {
                lemma_tail_within(s, end, unequal);
            }
        }
    }
}

/// An atomic formula consumes at least one byte and ends within the buffer.
pub proof fn lemma_atomic_within(s: Seq<u8>, i: int)
    ensures
        atomic_at(s, i).within(i, s.len()),
{
    lemma_term_led_within(s, i, true, false);
}

/// A literal consumes at least one byte and ends within the buffer.
pub proof fn lemma_literal_within(s: Seq<u8>, i: int)
    ensures
        literal_at(s, i).within(i, s.len()),
{
    reveal(literal_at);
    lemma_term_led_within(s, i, false, true);
    lemma_skip(s, i + 1);
    lemma_atomic_within(s, skip(s, i + 1));
}

/// The literals behind a literal end within the buffer, at or after the end of
/// that literal, and are never malformed.
pub proof fn lemma_literals_after_within(s: Seq<u8>, end: int)
    ensures
        follows(literals_after(s, end), end, s.len()),
        !(literals_after(s, end) is Malformed),
    decreases s.len() - end,
{
    let bar = skip(s, end);
    let next = skip(s, bar + 1);
    lemma_skip(s, end);
    lemma_skip(s, bar + 1);
    if 0 <= end && bar < s.len() && s[bar] == PIPE && next < s.len() {
        if let Parsed::Done(_, after) = literal_at(s, next).beyond(next, s.len()) {
            lemma_literals_after_within(s, after);
        }
    }
}

/// A clause consumes at least one byte and ends within the buffer.
pub proof fn lemma_disjunction_within(s: Seq<u8>, i: int)
    ensures
        disjunction_at(s, i).within(i, s.len()),
{
    reveal(disjunction_at);
    lemma_literal_within(s, i);
    if let Parsed::Done(_, end) = literal_at(s, i) {
        lemma_literals_after_within(s, end);
    }
}

/// A formula in clausal normal form consumes at least one byte and ends within the buffer.
pub proof fn lemma_cnf_formula_within(s: Seq<u8>, i: int)
    ensures
        cnf_formula_at(s, i).within(i, s.len()),
{
    reveal(cnf_formula_at);
    lemma_disjunction_within(s, i);
    let first = skip(s, i + 1);
    lemma_skip(s, i + 1);
    lemma_disjunction_within(s, first);
    if let Parsed::Done(_, end) = disjunction_at(s, first) {
        lemma_skip(s, end);
    }
}

/// A list of variables consumes at least one byte and ends within the buffer.
pub proof fn lemma_variables_within(s: Seq<u8>, i: int)
    ensures
        variables_at(s, i).within(i, s.len()),
    decreases s.len() - i,
{
    if let Parsed::Done(_, end) = word_at(s, i, true).beyond(i, s.len()) {
        let comma = skip(s, end);
        let next = skip(s, comma + 1);
        lemma_skip(s, end);
        lemma_skip(s, comma + 1);
        if comma < s.len() && s[comma] == COMMA && next < s.len() {
            lemma_variables_within(s, next);
        }
    }
}

/// A unit formula consumes at least one byte and ends within the buffer.
pub proof fn lemma_unit_within(s: Seq<u8>, i: int)
    ensures
        unit_at(s, i).within(i, s.len()),
    decreases s.len() - i, 1int,
{
    let inner = skip(s, i + 1);
    if 0 <= i < s.len() {
        if s[i] == BANG || s[i] == QUESTION {
            lemma_quantified_within(s, i);
        } else if s[i] != TILDE && s[i] != OPEN_PAREN {
            lemma_term_led_within(s, i, true, true);
        } else if inner < s.len() {
            lemma_skip(s, i + 1);
            if s[i] == TILDE {
                lemma_unit_within(s, inner);
            } else {
                lemma_logic_within(s, inner);
                if let Parsed::Done(_, end) = logic_at(s, inner) {
                    lemma_skip(s, end);
                }
            }
        }
    }
}

/// A quantified formula consumes at least one byte and ends within the buffer.
pub proof fn lemma_quantified_within(s: Seq<u8>, i: int)
    ensures
        quantified_at(s, i).within(i, s.len()),
    decreases s.len() - i, 0int,
{
    let open = skip(s, i + 1);
    let first = skip(s, open + 1);
    lemma_skip(s, i + 1);
    lemma_skip(s, open + 1);
    lemma_variables_within(s, first);
    if 0 <= i < s.len() && open < s.len() && first < s.len() {
        if let Parsed::Done(_, end) = variables_at(s, first).beyond(first, s.len()) {
            let close = skip(s, end);
            let colon = skip(s, close + 1);
            let body = skip(s, colon + 1);
            lemma_skip(s, end);
            lemma_skip(s, close + 1);
            lemma_skip(s, colon + 1);
            if close < s.len() && colon < s.len() && body < s.len() {
                lemma_unit_within(s, body);
            }
        }
    }
}

/// The operands behind an operand end within the buffer, at or after the end
/// of that operand, and are never malformed.
pub proof fn lemma_operands_after_within(s: Seq<u8>, end: int, c: AssocConnective)
    ensures
        follows(operands_after(s, end, c), end, s.len()),
        !(operands_after(s, end, c) is Malformed),
    decreases s.len() - end, 2int,
{
    let op = skip(s, end);
    let next = skip(s, op + 1);
    lemma_skip(s, end);
    lemma_skip(s, op + 1);
    if 0 <= end && op < s.len() && s[op] == assoc_byte(c) && next < s.len() {
        if let Parsed::Done(_, after) = unit_at(s, next).beyond(next, s.len()) {
            lemma_operands_after_within(s, after, c);
        }
    }
}

/// The formula that a unit formula begins ends within the buffer, at or after
/// the end of that unit formula, and is never malformed.
pub proof fn lemma_continued_within(s: Seq<u8>, u: UnitModel, end: int)
    requires
        end <= s.len(),
    ensures
        follows(continued_at(s, u, end), end, s.len()),
        !(continued_at(s, u, end) is Malformed),
    decreases s.len() - end, 3int,
{
    let op = skip(s, end);
    lemma_skip(s, end);
    lemma_connective_within(s, op);
    if 0 <= end {
        match connective_at(s, op) {
            Parsed::Done(Connective::Assoc(c), _) => {
                lemma_operands_after_within(s, end, c);
            },
            Parsed::Done(Connective::Nonassoc(c), after) => {
                let right = skip(s, after);
                lemma_skip(s, after);
                if right < s.len() {
                    lemma_unit_within(s, right);
                }
            },
            _ => {},
        }
    }
}

/// A formula consumes at least one byte and ends within the buffer.
pub proof fn lemma_logic_within(s: Seq<u8>, i: int)
    ensures
        logic_at(s, i).within(i, s.len()),
    decreases s.len() - i, 4int,
{
    lemma_unit_within(s, i);
    if let Parsed::Done(u, end) = unit_at(s, i).beyond(i, s.len()) {
        lemma_continued_within(s, u, end);
    }
}

} // verus!
