//! The grammar, as functions from a buffer and an offset to what is read
//! there.
//!
//! The buffer stands for the beginning of a stream.  A production that would
//! have to look at a byte beyond the end of the buffer is incomplete; one
//! that meets a byte that it cannot accept is malformed at that byte.  The
//! offset at which a production is read is that of its first byte: the
//! ignorable spans before it have been passed over by whoever reads it.  The
//! offset that is handed back is that of the byte after its last token.
//!
//! What may follow a complete production without belonging to it (an
//! equation's right-hand side after a term, a connective and another operand
//! after a unit formula, a further literal after a literal) is taken where it
//! can be read and left alone where it turns out malformed.  What has been
//! opened (an argument list, a parenthesis, a quantifier) must be closed.

use crate::ascii::{
    AMPERSAND, BACKSLASH, BANG, chars_of, CLOSE_BRACKET, CLOSE_PAREN, COLON, COMMA, digit, DOLLAR,
    DOT, DOUBLE_QUOTE, EQUALS, GREATER, LESS, lower, nonzero_digit, OPEN_BRACKET, OPEN_PAREN, PIPE,
    printable, QUESTION, sign, SINGLE_QUOTE, SLASH, TILDE, upper,
};
use crate::lexical::{decimal_end, digits_end, exponent_end, lemma_skip, sign_end, skip, word_end};
use crate::model::{
    AssocModel, AtomicModel, AtomicWordModel, BinaryModel, CnfModel, DefinedAtomicModel,
    DefinedTermModel, FofDefinedTermModel, FunctionTermModel, InfixModel, LiteralModel, LogicModel,
    NonassocModel, NumberModel, PlainTermModel, QuantifiedModel, SystemTermModel, TermModel,
    UnaryModel, UnitaryModel, UnitModel,
};
use crate::outcome::{Expected, Parsed, prepend};
use crate::syntax::{AssocConnective, Connective, FofQuantifier, NonassocConnective};
use vstd::prelude::*;

verus! {

/// The text between two offsets of the buffer.
pub open spec fn span(s: Seq<u8>, from: int, to: int) -> Seq<char> {
    chars_of(s.subrange(from, to))
}

/// A word: a letter of the given case, and the word bytes that follow it.
pub open spec fn word_at(s: Seq<u8>, i: int, capital: bool) -> Parsed<Seq<char>> {
    let end = word_end(s, i + 1);
    if i < 0 || i >= s.len() {
        Parsed::Incomplete
    } else if !(if capital {
        upper(s[i])
    } else {
        lower(s[i])
    }) {
        Parsed::Malformed(
            i,
            if capital {
                Expected::Upper
            } else {
                Expected::Lower
            },
        )
    } else if end >= s.len() {
        Parsed::Incomplete
    } else {
        Parsed::Done(span(s, i, end), end)
    }
}

/// The offset of the quote that closes what is quoted from `k` on.
pub open spec fn quoted_end(s: Seq<u8>, k: int, quote: u8) -> Parsed<()>
    decreases s.len() - k,
{
    if k < 0 || k >= s.len() {
        Parsed::Incomplete
    } else if s[k] == quote {
        Parsed::Done((), k)
    } else if s[k] == BACKSLASH {
        if k + 1 >= s.len() {
            Parsed::Incomplete
        } else if s[k + 1] == quote || s[k + 1] == BACKSLASH {
            quoted_end(s, k + 2, quote)
        } else {
            Parsed::Malformed(k + 1, Expected::Escape)
        }
    } else if printable(s[k]) {
        quoted_end(s, k + 1, quote)
    } else {
        Parsed::Malformed(k, Expected::QuotedChar)
    }
}

/// A quoted token: what stands between two quotes, which between single
/// quotes is one character at least.
pub open spec fn quoted_at(s: Seq<u8>, i: int, quote: u8) -> Parsed<Seq<char>> {
    if i < 0 || i >= s.len() {
        Parsed::Incomplete
    } else if s[i] != quote {
        Parsed::Malformed(i, Expected::Quote)
    } else {
        match quoted_end(s, i + 1, quote) {
            Parsed::Done(_, close) => if quote == SINGLE_QUOTE && close == i + 1 {
                Parsed::Malformed(close, Expected::QuotedChar)
            } else {
                Parsed::Done(span(s, i + 1, close), close + 1)
            },
            Parsed::Incomplete => Parsed::Incomplete,
            Parsed::Malformed(at, what) => Parsed::Malformed(at, what),
        }
    }
}

/// A dollar sign and a lower-case word: the word.
pub open spec fn dollar_word_at(s: Seq<u8>, i: int) -> Parsed<Seq<char>> {
    if i < 0 || i >= s.len() {
        Parsed::Incomplete
    } else if s[i] != DOLLAR {
        Parsed::Malformed(i, Expected::Dollar)
    } else {
        word_at(s, i + 1, false)
    }
}

/// Two dollar signs and a lower-case word: the word.
pub open spec fn dollar_dollar_word_at(s: Seq<u8>, i: int) -> Parsed<Seq<char>> {
    if i < 0 || i >= s.len() {
        Parsed::Incomplete
    } else if s[i] != DOLLAR {
        Parsed::Malformed(i, Expected::Dollar)
    } else if i + 1 >= s.len() {
        Parsed::Incomplete
    } else if s[i + 1] != DOLLAR {
        Parsed::Malformed(i + 1, Expected::Dollar)
    } else {
        word_at(s, i + 2, false)
    }
}

/// A numeral.  It is the longest of the three kinds that can be read: an
/// integer is followed by a slash and a denominator, or by a fraction or an
/// exponent, only where these are complete.
#[verifier::opaque]
pub open spec fn number_at(s: Seq<u8>, i: int) -> Parsed<NumberModel> {
    let a = sign_end(s, i);
    let d = decimal_end(s, a);
    if i < 0 || a >= s.len() {
        Parsed::Incomplete
    } else if !digit(s[a]) {
        Parsed::Malformed(a, Expected::Digit)
    } else if d >= s.len() {
        Parsed::Incomplete
    } else if s[d] == SLASH {
        let e = digits_end(s, d + 2);
        if d + 1 >= s.len() {
            Parsed::Incomplete
        } else if !nonzero_digit(s[d + 1]) {
            Parsed::Done(NumberModel::Integer(span(s, i, d)), d)
        } else if e >= s.len() {
            Parsed::Incomplete
        } else {
            Parsed::Done(NumberModel::Rational(span(s, i, e)), e)
        }
    } else if s[d] == DOT {
        let f = digits_end(s, d + 2);
        let e = exponent_end(s, f);
        if d + 1 >= s.len() {
            Parsed::Incomplete
        } else if !digit(s[d + 1]) {
            Parsed::Done(NumberModel::Integer(span(s, i, d)), d)
        } else if f >= s.len() || e >= s.len() {
            Parsed::Incomplete
        } else {
            Parsed::Done(NumberModel::Real(span(s, i, e)), e)
        }
    } else {
        let e = exponent_end(s, d);
        if e >= s.len() {
            Parsed::Incomplete
        } else if e > d {
            Parsed::Done(NumberModel::Real(span(s, i, e)), e)
        } else {
            Parsed::Done(NumberModel::Integer(span(s, i, d)), d)
        }
    }
}

/// A lower-case word or a single-quoted one.
pub open spec fn atomic_word_at(s: Seq<u8>, i: int) -> Parsed<AtomicWordModel> {
    if i < 0 || i >= s.len() {
        Parsed::Incomplete
    } else if s[i] == SINGLE_QUOTE {
        quoted_at(s, i, SINGLE_QUOTE).map(|w: Seq<char>| AtomicWordModel::SingleQuoted(w))
    } else {
        word_at(s, i, false).map(|w: Seq<char>| AtomicWordModel::Lower(w))
    }
}

/// A term.  An upper-case letter begins a variable; anything else must be a
/// function term.
pub open spec fn term_at(s: Seq<u8>, i: int) -> Parsed<TermModel>
    decreases s.len() - i, 5int,
{
    if i < 0 || i >= s.len() {
        Parsed::Incomplete
    } else if upper(s[i]) {
        word_at(s, i, true).map(|w: Seq<char>| TermModel::Variable(w))
    } else {
        function_term_at(s, i).map(|f: FunctionTermModel| TermModel::Function(f))
    }
}

/// A function term.  Two dollar signs begin a system term, one a defined
/// constant, a digit or a sign a numeral, a double quote a distinct object,
/// a lower-case letter or a single quote a plain term.  Nothing else begins
/// a term.
pub open spec fn function_term_at(s: Seq<u8>, i: int) -> Parsed<FunctionTermModel>
    decreases s.len() - i, 4int,
{
    if i < 0 || i >= s.len() {
        Parsed::Incomplete
    } else if s[i] == DOLLAR {
        if i + 1 >= s.len() {
            Parsed::Incomplete
        } else if s[i + 1] == DOLLAR {
            system_term_at(s, i).map(|t: SystemTermModel| FunctionTermModel::System(t))
        } else {
            dollar_word_at(s, i).map(
                |w: Seq<char>| FunctionTermModel::Defined(FofDefinedTermModel::Atomic(w)),
            )
        }
    } else if digit(s[i]) || sign(s[i]) {
        number_at(s, i).map(
            |n: NumberModel|
                FunctionTermModel::Defined(
                    FofDefinedTermModel::Defined(DefinedTermModel::Number(n)),
                ),
        )
    } else if s[i] == DOUBLE_QUOTE {
        quoted_at(s, i, DOUBLE_QUOTE).map(
            |w: Seq<char>|
                FunctionTermModel::Defined(
                    FofDefinedTermModel::Defined(DefinedTermModel::Distinct(w)),
                ),
        )
    } else if lower(s[i]) || s[i] == SINGLE_QUOTE {
        plain_term_at(s, i).map(|t: PlainTermModel| FunctionTermModel::Plain(t))
    } else {
        Parsed::Malformed(i, Expected::Term)
    }
}

/// A plain term: a functor, and its arguments where a parenthesis follows.
pub open spec fn plain_term_at(s: Seq<u8>, i: int) -> Parsed<PlainTermModel>
    decreases s.len() - i, 3int,
{
    match atomic_word_at(s, i).beyond(i, s.len()) {
        Parsed::Done(name, end) => match arguments_at(s, end) {
            Parsed::Done(Some(args), after) => Parsed::Done(
                PlainTermModel::Function(name, args),
                after,
            ),
            Parsed::Done(None, _) => Parsed::Done(PlainTermModel::Constant(name), end),
            Parsed::Incomplete => Parsed::Incomplete,
            Parsed::Malformed(at, what) => Parsed::Malformed(at, what),
        },
        Parsed::Incomplete => Parsed::Incomplete,
        Parsed::Malformed(at, what) => Parsed::Malformed(at, what),
    }
}

/// A system term: a functor behind two dollar signs, and its arguments where
/// a parenthesis follows.
pub open spec fn system_term_at(s: Seq<u8>, i: int) -> Parsed<SystemTermModel>
    decreases s.len() - i, 3int,
{
    match dollar_dollar_word_at(s, i).beyond(i, s.len()) {
        Parsed::Done(name, end) => match arguments_at(s, end) {
            Parsed::Done(Some(args), after) => Parsed::Done(
                SystemTermModel::Function(name, args),
                after,
            ),
            Parsed::Done(None, _) => Parsed::Done(SystemTermModel::Constant(name), end),
            Parsed::Incomplete => Parsed::Incomplete,
            Parsed::Malformed(at, what) => Parsed::Malformed(at, what),
        },
        Parsed::Incomplete => Parsed::Incomplete,
        Parsed::Malformed(at, what) => Parsed::Malformed(at, what),
    }
}

/// The arguments of the functor that ends at `end`, where it has any.  An
/// opening parenthesis commits: it must be followed by one term or more,
/// with commas between them, and a closing parenthesis.  Anything else after
/// the functor leaves it a constant, and nothing is consumed.
pub open spec fn arguments_at(s: Seq<u8>, end: int) -> Parsed<Option<Seq<TermModel>>>
    decreases s.len() - end, 2int,
{
    let open = skip(s, end);
    let first = skip(s, open + 1);
    if end < 0 || open >= s.len() {
        Parsed::Incomplete
    } else if s[open] != OPEN_PAREN {
        Parsed::Done(None, end)
    } else if first >= s.len() {
        Parsed::Incomplete
    } else {
        proof {
            lemma_skip(s, end);
            lemma_skip(s, open + 1);
        }
        match term_list_at(s, first) {
            Parsed::Done(args, last) => {
                let close = skip(s, last);
                if close >= s.len() {
                    Parsed::Incomplete
                } else if s[close] != CLOSE_PAREN {
                    Parsed::Malformed(close, Expected::CloseParen)
                } else {
                    Parsed::Done(Some(args), close + 1)
                }
            },
            Parsed::Incomplete => Parsed::Incomplete,
            Parsed::Malformed(at, what) => Parsed::Malformed(at, what),
        }
    }
}

/// One term or more, with commas between them.  A comma commits: a term must
/// follow it.
pub open spec fn term_list_at(s: Seq<u8>, i: int) -> Parsed<Seq<TermModel>>
    decreases s.len() - i, 6int,
{
    match term_at(s, i).beyond(i, s.len()) {
        Parsed::Done(t, end) => {
            let comma = skip(s, end);
            let next = skip(s, comma + 1);
            if comma >= s.len() {
                Parsed::Incomplete
            } else if s[comma] != COMMA {
                Parsed::Done(seq![t], end)
            } else if next >= s.len() {
                Parsed::Incomplete
            } else {
                proof {
                    lemma_skip(s, end);
                    lemma_skip(s, comma + 1);
                }
                prepend(seq![t], term_list_at(s, next))
            }
        },
        Parsed::Incomplete => Parsed::Incomplete,
        Parsed::Malformed(at, what) => Parsed::Malformed(at, what),
    }
}

/// What may follow a term to make an equation or an inequation of it.
pub ghost enum TailModel {
    Equal(TermModel),
    NotEqual(TermModel),
}

impl TailModel {
    /// The literal that the tail makes of the term on its left.
    pub open spec fn finish(self, left: TermModel) -> LiteralModel {
        match self {
            TailModel::Equal(right) => LiteralModel::Atomic(
                AtomicModel::Defined(DefinedAtomicModel::Infix(InfixModel { left, right })),
            ),
            TailModel::NotEqual(right) => LiteralModel::Infix(InfixModel { left, right }),
        }
    }
}

/// The tail behind the term that ends at `end`: `=` and a term, or, where
/// `unequal` allows it, `!=` and a term.
#[verifier::opaque]
pub open spec fn tail_at(s: Seq<u8>, end: int, unequal: bool) -> Parsed<TailModel> {
    let op = skip(s, end);
    if end < 0 || op >= s.len() {
        Parsed::Incomplete
    } else if s[op] == EQUALS {
        let right = skip(s, op + 1);
        if right >= s.len() {
            Parsed::Incomplete
        } else {
            term_at(s, right).map(|t: TermModel| TailModel::Equal(t))
        }
    } else if unequal && s[op] == BANG {
        let right = skip(s, op + 2);
        if op + 1 >= s.len() {
            Parsed::Incomplete
        } else if s[op + 1] != EQUALS {
            Parsed::Malformed(op, Expected::Equality)
        } else if right >= s.len() {
            Parsed::Incomplete
        } else {
            term_at(s, right).map(|t: TermModel| TailModel::NotEqual(t))
        }
    } else {
        Parsed::Malformed(op, Expected::Equality)
    }
}

/// The tail behind the term that ends at `end`, where one can be read: a
/// tail that turns out malformed is none, and nothing is consumed.
pub open spec fn optional_tail_at(s: Seq<u8>, end: int, unequal: bool) -> Parsed<
    Option<TailModel>,
> {
    match tail_at(s, end, unequal) {
        Parsed::Done(tail, after) => Parsed::Done(Some(tail), after),
        Parsed::Incomplete => Parsed::Incomplete,
        Parsed::Malformed(_, _) => Parsed::Done(None, end),
    }
}

/// What a term stands for when no tail follows it: a defined constant is a
/// defined proposition, and a system term is a system proposition where
/// `system` allows it.  Nothing else is a formula.
pub open spec fn proposition(t: TermModel, system: bool) -> Option<AtomicModel> {
    match t {
        TermModel::Function(FunctionTermModel::Defined(FofDefinedTermModel::Atomic(w))) => Some(
            AtomicModel::Defined(DefinedAtomicModel::Plain(w)),
        ),
        TermModel::Function(FunctionTermModel::System(t)) => if system {
            Some(AtomicModel::System(t))
        } else {
            None
        },
        _ => None,
    }
}

/// A formula that begins with a term: an atomic formula or an inequation.
///
/// A plain term may stand alone, as a proposition, or be followed by a tail.
/// Any other term must be followed by a tail, unless it is a proposition by
/// itself.  `system` says whether a system term is one; `unequal` says
/// whether an inequation may be read.
#[verifier::opaque]
pub open spec fn term_led_at(s: Seq<u8>, i: int, system: bool, unequal: bool) -> Parsed<
    LiteralModel,
> {
    if i < 0 || i >= s.len() {
        Parsed::Incomplete
    } else if lower(s[i]) || s[i] == SINGLE_QUOTE {
        match plain_term_at(s, i) {
            Parsed::Done(p, end) => match optional_tail_at(s, end, unequal) {
                Parsed::Done(Some(tail), after) => Parsed::Done(
                    tail.finish(TermModel::Function(FunctionTermModel::Plain(p))),
                    after,
                ),
                Parsed::Done(None, _) => Parsed::Done(
                    LiteralModel::Atomic(AtomicModel::Plain(p)),
                    end,
                ),
                Parsed::Incomplete => Parsed::Incomplete,
                Parsed::Malformed(at, what) => Parsed::Malformed(at, what),
            },
            Parsed::Incomplete => Parsed::Incomplete,
            Parsed::Malformed(at, what) => Parsed::Malformed(at, what),
        }
    } else {
        match term_at(s, i) {
            Parsed::Done(t, end) => match tail_at(s, end, unequal) {
                Parsed::Done(tail, after) => Parsed::Done(tail.finish(t), after),
                Parsed::Incomplete => Parsed::Incomplete,
                Parsed::Malformed(at, what) => match proposition(t, system) {
                    Some(a) => Parsed::Done(LiteralModel::Atomic(a), end),
                    None => Parsed::Malformed(at, what),
                },
            },
            Parsed::Incomplete => Parsed::Incomplete,
            Parsed::Malformed(at, what) => Parsed::Malformed(at, what),
        }
    }
}

/// An atomic formula: a plain, defined or system proposition, or an
/// equation.
pub open spec fn atomic_at(s: Seq<u8>, i: int) -> Parsed<AtomicModel> {
    term_led_at(s, i, true, false).map(|l: LiteralModel| l.atomic())
}

/// A literal: a negation sign and an atomic formula, or a formula that
/// begins with a term, where a system term alone is none.
#[verifier::opaque]
pub open spec fn literal_at(s: Seq<u8>, i: int) -> Parsed<LiteralModel> {
    let atom = skip(s, i + 1);
    if i < 0 || i >= s.len() {
        Parsed::Incomplete
    } else if s[i] != TILDE {
        term_led_at(s, i, false, true)
    } else if atom >= s.len() {
        Parsed::Incomplete
    } else {
        atomic_at(s, atom).map(|a: AtomicModel| LiteralModel::NegatedAtomic(a))
    }
}

/// The literals that follow the one that ends at `end`, each behind a `|`.
/// A `|` that no literal can be read behind ends the list, and is not
/// consumed.
pub open spec fn literals_after(s: Seq<u8>, end: int) -> Parsed<Seq<LiteralModel>>
    decreases s.len() - end,
{
    let bar = skip(s, end);
    let next = skip(s, bar + 1);
    if end < 0 || bar >= s.len() {
        Parsed::Incomplete
    } else if s[bar] != PIPE {
        Parsed::Done(Seq::empty(), end)
    } else if next >= s.len() {
        Parsed::Incomplete
    } else {
        proof {
            lemma_skip(s, end);
            lemma_skip(s, bar + 1);
        }
        match literal_at(s, next).beyond(next, s.len()) {
            Parsed::Done(l, after) => prepend(seq![l], literals_after(s, after)),
            Parsed::Incomplete => Parsed::Incomplete,
            Parsed::Malformed(_, _) => Parsed::Done(Seq::empty(), end),
        }
    }
}

/// A clause: one literal or more, with `|` between them.
#[verifier::opaque]
pub open spec fn disjunction_at(s: Seq<u8>, i: int) -> Parsed<Seq<LiteralModel>> {
    match literal_at(s, i) {
        Parsed::Done(l, end) => prepend(seq![l], literals_after(s, end)),
        Parsed::Incomplete => Parsed::Incomplete,
        Parsed::Malformed(at, what) => Parsed::Malformed(at, what),
    }
}

/// A formula in clausal normal form: a clause, bare or in parentheses.
#[verifier::opaque]
pub open spec fn cnf_formula_at(s: Seq<u8>, i: int) -> Parsed<CnfModel> {
    let first = skip(s, i + 1);
    if i < 0 || i >= s.len() {
        Parsed::Incomplete
    } else if s[i] != OPEN_PAREN {
        disjunction_at(s, i).map(|d: Seq<LiteralModel>| CnfModel::Disjunction(d))
    } else if first >= s.len() {
        Parsed::Incomplete
    } else {
        match disjunction_at(s, first) {
            Parsed::Done(d, end) => {
                let close = skip(s, end);
                if close >= s.len() {
                    Parsed::Incomplete
                } else if s[close] != CLOSE_PAREN {
                    Parsed::Malformed(close, Expected::CloseParen)
                } else {
                    Parsed::Done(CnfModel::Parenthesised(d), close + 1)
                }
            },
            Parsed::Incomplete => Parsed::Incomplete,
            Parsed::Malformed(at, what) => Parsed::Malformed(at, what),
        }
    }
}

/// One variable or more, with commas between them.
pub open spec fn variables_at(s: Seq<u8>, i: int) -> Parsed<Seq<Seq<char>>>
    decreases s.len() - i,
{
    match word_at(s, i, true).beyond(i, s.len()) {
        Parsed::Done(v, end) => {
            let comma = skip(s, end);
            let next = skip(s, comma + 1);
            if comma >= s.len() {
                Parsed::Incomplete
            } else if s[comma] != COMMA {
                Parsed::Done(seq![v], end)
            } else if next >= s.len() {
                Parsed::Incomplete
            } else {
                proof {
                    lemma_skip(s, end);
                    lemma_skip(s, comma + 1);
                }
                prepend(seq![v], variables_at(s, next))
            }
        },
        Parsed::Incomplete => Parsed::Incomplete,
        Parsed::Malformed(at, what) => Parsed::Malformed(at, what),
    }
}

/// The binary connective at `i`.  Of two connectives of which one begins the
/// other, the longer one is read.
#[verifier::opaque]
pub open spec fn connective_at(s: Seq<u8>, i: int) -> Parsed<Connective> {
    if i < 0 || i >= s.len() {
        Parsed::Incomplete
    } else if s[i] == AMPERSAND {
        Parsed::Done(Connective::Assoc(AssocConnective::And), i + 1)
    } else if s[i] == PIPE {
        Parsed::Done(Connective::Assoc(AssocConnective::Or), i + 1)
    } else if s[i] != EQUALS && s[i] != LESS && s[i] != TILDE {
        Parsed::Malformed(i, Expected::Connective)
    } else if i + 1 >= s.len() {
        Parsed::Incomplete
    } else if s[i] == EQUALS {
        if s[i + 1] == GREATER {
            Parsed::Done(Connective::Nonassoc(NonassocConnective::LRImplies), i + 2)
        } else {
            Parsed::Malformed(i, Expected::Connective)
        }
    } else if s[i] == TILDE {
        if s[i + 1] == PIPE {
            Parsed::Done(Connective::Nonassoc(NonassocConnective::NotOr), i + 2)
        } else if s[i + 1] == AMPERSAND {
            Parsed::Done(Connective::Nonassoc(NonassocConnective::NotAnd), i + 2)
        } else {
            Parsed::Malformed(i, Expected::Connective)
        }
    } else if s[i + 1] != EQUALS && s[i + 1] != TILDE {
        Parsed::Malformed(i, Expected::Connective)
    } else if i + 2 >= s.len() {
        Parsed::Incomplete
    } else if s[i + 1] == EQUALS {
        if s[i + 2] == GREATER {
            Parsed::Done(Connective::Nonassoc(NonassocConnective::Equivalent), i + 3)
        } else {
            Parsed::Done(Connective::Nonassoc(NonassocConnective::RLImplies), i + 2)
        }
    } else if s[i + 2] == GREATER {
        Parsed::Done(Connective::Nonassoc(NonassocConnective::NotEquivalent), i + 3)
    } else {
        Parsed::Malformed(i, Expected::Connective)
    }
}

/// A connective is at least one byte long.
pub proof fn lemma_connective_within(s: Seq<u8>, i: int)
    ensures
        connective_at(s, i).within(i, s.len()),
{
    reveal(connective_at);
}

/// The byte that an associative connective is written with.
pub open spec fn assoc_byte(c: AssocConnective) -> u8 {
    match c {
        AssocConnective::And => AMPERSAND,
        AssocConnective::Or => PIPE,
    }
}

/// A run of operands under an associative connective.
pub open spec fn assoc(c: AssocConnective, units: Seq<UnitModel>) -> AssocModel {
    match c {
        AssocConnective::And => AssocModel::And(units),
        AssocConnective::Or => AssocModel::Or(units),
    }
}

/// A unit formula: a negation, a quantified formula, a formula in
/// parentheses, or a formula that begins with a term.
pub open spec fn unit_at(s: Seq<u8>, i: int) -> Parsed<UnitModel>
    decreases s.len() - i, 1int,
{
    let inner = skip(s, i + 1);
    if i < 0 || i >= s.len() {
        Parsed::Incomplete
    } else if s[i] == BANG || s[i] == QUESTION {
        quantified_at(s, i).map(
            |q: QuantifiedModel| UnitModel::Unitary(UnitaryModel::Quantified(q)),
        )
    } else if s[i] != TILDE && s[i] != OPEN_PAREN {
        term_led_at(s, i, true, true).map(|l: LiteralModel| l.as_unit())
    } else if inner >= s.len() {
        Parsed::Incomplete
    } else {
        proof {
            lemma_skip(s, i + 1);
        }
        if s[i] == TILDE {
            unit_at(s, inner).map(|u: UnitModel| UnitModel::Unary(UnaryModel::Unary(Box::new(u))))
        } else {
            match logic_at(s, inner) {
                Parsed::Done(l, end) => {
                    let close = skip(s, end);
                    if close >= s.len() {
                        Parsed::Incomplete
                    } else if s[close] != CLOSE_PAREN {
                        Parsed::Malformed(close, Expected::CloseParen)
                    } else {
                        Parsed::Done(
                            UnitModel::Unitary(UnitaryModel::Parenthesised(Box::new(l))),
                            close + 1,
                        )
                    }
                },
                Parsed::Incomplete => Parsed::Incomplete,
                Parsed::Malformed(at, what) => Parsed::Malformed(at, what),
            }
        }
    }
}

/// A quantified formula: a quantifier, its variables in square brackets, a
/// colon, and the unit formula that it governs.
pub open spec fn quantified_at(s: Seq<u8>, i: int) -> Parsed<QuantifiedModel>
    decreases s.len() - i, 0int,
{
    let open = skip(s, i + 1);
    let first = skip(s, open + 1);
    if i < 0 || i >= s.len() {
        Parsed::Incomplete
    } else if s[i] != BANG && s[i] != QUESTION {
        Parsed::Malformed(i, Expected::Quantifier)
    } else if open >= s.len() {
        Parsed::Incomplete
    } else if s[open] != OPEN_BRACKET {
        Parsed::Malformed(open, Expected::OpenBracket)
    } else if first >= s.len() {
        Parsed::Incomplete
    } else {
        match variables_at(s, first).beyond(first, s.len()) {
            Parsed::Done(bound, end) => {
                let close = skip(s, end);
                let colon = skip(s, close + 1);
                let body = skip(s, colon + 1);
                if close >= s.len() {
                    Parsed::Incomplete
                } else if s[close] != CLOSE_BRACKET {
                    Parsed::Malformed(close, Expected::CloseBracket)
                } else if colon >= s.len() {
                    Parsed::Incomplete
                } else if s[colon] != COLON {
                    Parsed::Malformed(colon, Expected::Colon)
                } else if body >= s.len() {
                    Parsed::Incomplete
                } else {
                    proof {
                        lemma_skip(s, i + 1);
                        lemma_skip(s, open + 1);
                        lemma_skip(s, end);
                        lemma_skip(s, close + 1);
                        lemma_skip(s, colon + 1);
                    }
                    unit_at(s, body).map(
                        |u: UnitModel|
                            QuantifiedModel {
                                quantifier: if s[i] == BANG {
                                    FofQuantifier::Forall
                                } else {
                                    FofQuantifier::Exists
                                },
                                bound,
                                formula: Box::new(u),
                            },
                    )
                }
            },
            Parsed::Incomplete => Parsed::Incomplete,
            Parsed::Malformed(at, what) => Parsed::Malformed(at, what),
        }
    }
}

/// The operands that follow the one that ends at `end`, each behind the
/// connective `c`.  A connective that no operand can be read behind ends the
/// run, and is not consumed; so does any other connective.
pub open spec fn operands_after(s: Seq<u8>, end: int, c: AssocConnective) -> Parsed<
    Seq<UnitModel>,
>
    decreases s.len() - end, 2int,
{
    let op = skip(s, end);
    let next = skip(s, op + 1);
    if end < 0 || op >= s.len() {
        Parsed::Incomplete
    } else if s[op] != assoc_byte(c) {
        Parsed::Done(Seq::empty(), end)
    } else if next >= s.len() {
        Parsed::Incomplete
    } else {
        proof {
            lemma_skip(s, end);
            lemma_skip(s, op + 1);
        }
        match unit_at(s, next).beyond(next, s.len()) {
            Parsed::Done(u, after) => prepend(seq![u], operands_after(s, after, c)),
            Parsed::Incomplete => Parsed::Incomplete,
            Parsed::Malformed(_, _) => Parsed::Done(Seq::empty(), end),
        }
    }
}

/// A formula of any shape: a unit formula, and what a binary connective
/// joins to it.
pub open spec fn logic_at(s: Seq<u8>, i: int) -> Parsed<LogicModel>
    decreases s.len() - i, 4int,
{
    match unit_at(s, i).beyond(i, s.len()) {
        Parsed::Done(u, end) => continued_at(s, u, end),
        Parsed::Incomplete => Parsed::Incomplete,
        Parsed::Malformed(at, what) => Parsed::Malformed(at, what),
    }
}

/// The formula that begins with the unit formula `u`, which ends at `end`.
///
/// Behind `&` or `|` the longest run of operands under that one connective
/// is read, and makes one flat list with `u`.  Behind any other connective
/// exactly one operand is read.  Where no connective follows, or no operand
/// can be read behind it, the formula is `u` alone, and ends where `u` ends.
pub open spec fn continued_at(s: Seq<u8>, u: UnitModel, end: int) -> Parsed<LogicModel>
    decreases s.len() - end, 3int,
{
    let op = skip(s, end);
    if end < 0 {
        Parsed::Incomplete
    } else {
        match connective_at(s, op) {
            Parsed::Done(Connective::Assoc(c), _) => match operands_after(s, end, c) {
                Parsed::Done(rest, last) => if rest.len() == 0 {
                    Parsed::Done(u.as_logic(), end)
                } else {
                    Parsed::Done(
                        LogicModel::Binary(BinaryModel::Assoc(assoc(c, seq![u] + rest))),
                        last,
                    )
                },
                Parsed::Incomplete => Parsed::Incomplete,
                Parsed::Malformed(at, what) => Parsed::Malformed(at, what),
            },
            Parsed::Done(Connective::Nonassoc(c), after) => {
                let right = skip(s, after);
                if right >= s.len() {
                    Parsed::Incomplete
                } else {
                    proof {
                        lemma_skip(s, end);
                        lemma_skip(s, after);
                        lemma_connective_within(s, op);
                    }
                    match unit_at(s, right) {
                        Parsed::Done(r, last) => Parsed::Done(
                            LogicModel::Binary(
                                BinaryModel::Nonassoc(
                                    NonassocModel { left: Box::new(u), op: c, right: Box::new(r) },
                                ),
                            ),
                            last,
                        ),
                        Parsed::Incomplete => Parsed::Incomplete,
                        Parsed::Malformed(_, _) => Parsed::Done(u.as_logic(), end),
                    }
                }
            },
            Parsed::Incomplete => Parsed::Incomplete,
            Parsed::Malformed(_, _) => Parsed::Done(u.as_logic(), end),
        }
    }
}

} // verus!
