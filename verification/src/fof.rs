//! Readers of terms and of first-order formulas.
//!
//! Each reader takes the buffer and the offset of the first byte of what it
//! is to read, and answers with what the grammar reads there.  The readers
//! call each other as the grammar's productions do, so the depth of their
//! recursion is that of the nesting of the input.

use crate::ascii::{
    AMPERSAND, BANG, CLOSE_BRACKET, CLOSE_PAREN, COLON, COMMA, DOLLAR, DOUBLE_QUOTE, EQUALS,
    GREATER, is_digit, is_lower, is_sign, is_upper, LESS, OPEN_BRACKET, OPEN_PAREN, PIPE, QUESTION,
    SINGLE_QUOTE, TILDE,
};
use crate::cnf::term_led;
use crate::grammar;
use crate::laws::clauses::lemma_atomic_wf;
use crate::laws::formulas::{lemma_logic_wf, lemma_unit_wf};
use crate::laws::terms::lemma_term_wf;
use crate::lexical::{
    atomic_word, distinct_object, dollar_dollar_word, dollar_word, number, skip_ignored, upper_word,
};
use crate::model::{BinaryModel, LogicModel, NonassocModel, UnitaryModel, UnitModel};
use crate::outcome::{
    Expected, lemma_prepend_nothing, lemma_prepend_twice, lemma_views_insert, lemma_views_push,
    Outcome, prepend, views,
};
use crate::syntax::{
    AssocConnective, AtomicDefinedWord, AtomicSystemWord, Connective, Constant, DefinedConstant,
    DefinedFunctor, DefinedInfixPred, DefinedTerm, FofAndFormula, FofArguments, FofAtomicFormula,
    FofBinaryAssoc, FofBinaryFormula, FofBinaryNonassoc, FofDefinedAtomicFormula,
    FofDefinedAtomicTerm, FofDefinedInfixFormula, FofDefinedPlainTerm, FofDefinedTerm, FofFormula,
    FofFunctionTerm, FofLogicFormula, FofOrFormula, FofPlainTerm, FofQuantifiedFormula,
    FofQuantifier, FofSystemTerm, FofTerm, FofUnaryFormula, FofUnitaryFormula, FofUnitFormula,
    FofVariableList, Functor, InfixEquality, Literal, NonassocConnective, SystemConstant,
    SystemFunctor, UnaryConnective, Variable,
};
use vstd::prelude::*;

verus! {

/// Reads a term.
pub fn term<'a>(input: &'a [u8], pos: usize) -> (r: Outcome<FofTerm<'a>>)
    ensures
        r@ == grammar::term_at(input@, pos as int),
        r@.within(pos as int, input@.len()),
        r matches Outcome::Complete(tree, _) ==> tree.wf(),
    decreases input@.len() - pos, 5int,
{
    proof {
        lemma_term_wf(input@, pos as int);
    }
    if pos >= input.len() {
        return Outcome::Incomplete;
    }
    if is_upper(input[pos]) {
        match upper_word(input, pos) {
            Outcome::Complete(w, end) => Outcome::Complete(FofTerm::Variable(Variable(w)), end),
            Outcome::Incomplete => Outcome::Incomplete,
            Outcome::Malformed(at, what) => Outcome::Malformed(at, what),
        }
    } else {
        match function_term(input, pos) {
            Outcome::Complete(f, end) => Outcome::Complete(FofTerm::Function(f), end),
            Outcome::Incomplete => Outcome::Incomplete,
            Outcome::Malformed(at, what) => Outcome::Malformed(at, what),
        }
    }
}

/// Reads a term that is no variable.
pub fn function_term<'a>(input: &'a [u8], pos: usize) -> (r: Outcome<FofFunctionTerm<'a>>)
    ensures
        r@ == grammar::function_term_at(input@, pos as int),
        r@.within(pos as int, input@.len()),
    decreases input@.len() - pos, 4int,
{
    let len = input.len();
    if pos >= len {
        return Outcome::Incomplete;
    }
    let first = input[pos];
    if first == DOLLAR {
        if len - pos < 2 {
            return Outcome::Incomplete;
        }
        if input[pos + 1] == DOLLAR {
            match system_term(input, pos) {
                Outcome::Complete(t, end) => Outcome::Complete(FofFunctionTerm::System(t), end),
                Outcome::Incomplete => Outcome::Incomplete,
                Outcome::Malformed(at, what) => Outcome::Malformed(at, what),
            }
        } else {
            match dollar_word(input, pos) {
                Outcome::Complete(w, end) => {
                    let constant = DefinedConstant(DefinedFunctor(AtomicDefinedWord(w)));
                    let atomic = FofDefinedAtomicTerm(FofDefinedPlainTerm(constant));
                    Outcome::Complete(
                        FofFunctionTerm::Defined(FofDefinedTerm::Atomic(atomic)),
                        end,
                    )
                },
                Outcome::Incomplete => Outcome::Incomplete,
                Outcome::Malformed(at, what) => Outcome::Malformed(at, what),
            }
        }
    } else if is_digit(first) || is_sign(first) {
        match number(input, pos) {
            Outcome::Complete(n, end) => Outcome::Complete(
                FofFunctionTerm::Defined(FofDefinedTerm::Defined(DefinedTerm::Number(n))),
                end,
            ),
            Outcome::Incomplete => Outcome::Incomplete,
            Outcome::Malformed(at, what) => Outcome::Malformed(at, what),
        }
    } else if first == DOUBLE_QUOTE {
        match distinct_object(input, pos) {
            Outcome::Complete(d, end) => Outcome::Complete(
                FofFunctionTerm::Defined(FofDefinedTerm::Defined(DefinedTerm::Distinct(d))),
                end,
            ),
            Outcome::Incomplete => Outcome::Incomplete,
            Outcome::Malformed(at, what) => Outcome::Malformed(at, what),
        }
    } else if is_lower(first) || first == SINGLE_QUOTE {
        match plain_term(input, pos) {
            Outcome::Complete(t, end) => Outcome::Complete(FofFunctionTerm::Plain(t), end),
            Outcome::Incomplete => Outcome::Incomplete,
            Outcome::Malformed(at, what) => Outcome::Malformed(at, what),
        }
    } else {
        Outcome::Malformed(pos, Expected::Term)
    }
}

/// Reads a plain term: a functor, and its arguments where a parenthesis
/// follows.
pub fn plain_term<'a>(input: &'a [u8], pos: usize) -> (r: Outcome<FofPlainTerm<'a>>)
    ensures
        r@ == grammar::plain_term_at(input@, pos as int),
        r@.within(pos as int, input@.len()),
    decreases input@.len() - pos, 3int,
{
    match atomic_word(input, pos) {
        Outcome::Complete(name, end) => match arguments(input, end) {
            Outcome::Complete(Some(args), after) => Outcome::Complete(
                FofPlainTerm::Function(Functor(name), args),
                after,
            ),
            Outcome::Complete(None, _) => Outcome::Complete(
                FofPlainTerm::Constant(Constant(Functor(name))),
                end,
            ),
            Outcome::Incomplete => Outcome::Incomplete,
            Outcome::Malformed(at, what) => Outcome::Malformed(at, what),
        },
        Outcome::Incomplete => Outcome::Incomplete,
        Outcome::Malformed(at, what) => Outcome::Malformed(at, what),
    }
}

/// Reads a system term: a functor behind two dollar signs, and its arguments
/// where a parenthesis follows.
pub fn system_term<'a>(input: &'a [u8], pos: usize) -> (r: Outcome<FofSystemTerm<'a>>)
    ensures
        r@ == grammar::system_term_at(input@, pos as int),
        r@.within(pos as int, input@.len()),
    decreases input@.len() - pos, 3int,
{
    match dollar_dollar_word(input, pos) {
        Outcome::Complete(w, end) => {
            let name = SystemFunctor(AtomicSystemWord(w));
            match arguments(input, end) {
                Outcome::Complete(Some(args), after) => Outcome::Complete(
                    FofSystemTerm::Function(name, args),
                    after,
                ),
                Outcome::Complete(None, _) => Outcome::Complete(
                    FofSystemTerm::Constant(SystemConstant(name)),
                    end,
                ),
                Outcome::Incomplete => Outcome::Incomplete,
                Outcome::Malformed(at, what) => Outcome::Malformed(at, what),
            }
        },
        Outcome::Incomplete => Outcome::Incomplete,
        Outcome::Malformed(at, what) => Outcome::Malformed(at, what),
    }
}

/// Reads the arguments of the functor that ends at `end`, where it has any.
pub fn arguments<'a>(input: &'a [u8], end: usize) -> (r: Outcome<Option<FofArguments<'a>>>)
    ensures
        r.optional_view() == grammar::arguments_at(input@, end as int),
        r matches Outcome::Complete(args, after) ==> end <= after <= input@.len() && (args is Some
            ==> end < after),
        r matches Outcome::Malformed(at, _) ==> end <= at < input@.len(),
    decreases input@.len() - end, 2int,
{
    if end > input.len() {
        return Outcome::Incomplete;
    }
    let len = input.len();
    let open = skip_ignored(input, end);
    if open >= len {
        return Outcome::Incomplete;
    }
    if input[open] != OPEN_PAREN {
        return Outcome::Complete(None, end);
    }
    let first = skip_ignored(input, open + 1);
    if first >= len {
        return Outcome::Incomplete;
    }
    match term_list(input, first) {
        Outcome::Complete(items, last) => {
            let close = skip_ignored(input, last);
            if close >= len {
                return Outcome::Incomplete;
            }
            if input[close] != CLOSE_PAREN {
                return Outcome::Malformed(close, Expected::CloseParen);
            }
            let args = FofArguments(items);
            assert(args@ =~= views(items@));
            Outcome::Complete(Some(args), close + 1)
        },
        Outcome::Incomplete => Outcome::Incomplete,
        Outcome::Malformed(at, what) => Outcome::Malformed(at, what),
    }
}

/// Reads one term or more, with commas between them.
pub fn term_list<'a>(input: &'a [u8], pos: usize) -> (r: Outcome<Vec<FofTerm<'a>>>)
    ensures
        r.list_view() == grammar::term_list_at(input@, pos as int),
        r.list_view().within(pos as int, input@.len()),
    decreases input@.len() - pos, 6int,
{
    let len = input.len();
    let mut items: Vec<FofTerm<'a>> = Vec::new();
    let mut cur = pos;
    proof {
        lemma_prepend_nothing(grammar::term_list_at(input@, pos as int));
    }
    loop
        invariant
            len == input@.len(),
            pos <= cur,
            cur == pos || cur <= len,
            grammar::term_list_at(input@, pos as int) == prepend(
                views(items@),
                grammar::term_list_at(input@, cur as int),
            ),
        decreases len - cur,
    {
        match term(input, cur) {
            Outcome::Complete(t, end) => {
                let comma = skip_ignored(input, end);
                if comma >= len {
                    return Outcome::Incomplete;
                }
                proof {
                    lemma_views_push(items@, t);
                }
                if input[comma] != COMMA {
                    items.push(t);
                    return Outcome::Complete(items, end);
                }
                let next = skip_ignored(input, comma + 1);
                if next >= len {
                    return Outcome::Incomplete;
                }
                proof {
                    lemma_prepend_twice(
                        views(items@),
                        seq![t@],
                        grammar::term_list_at(input@, next as int),
                    );
                }
                items.push(t);
                cur = next;
            },
            Outcome::Incomplete => {
                return Outcome::Incomplete;
            },
            Outcome::Malformed(at, what) => {
                return Outcome::Malformed(at, what);
            },
        }
    }
}

/// Reads one variable or more, with commas between them.
pub fn variable_list<'a>(input: &'a [u8], pos: usize) -> (r: Outcome<FofVariableList<'a>>)
    ensures
        r@ == grammar::variables_at(input@, pos as int),
        r@.within(pos as int, input@.len()),
{
    let len = input.len();
    let mut items: Vec<Variable<'a>> = Vec::new();
    let mut cur = pos;
    proof {
        lemma_prepend_nothing(grammar::variables_at(input@, pos as int));
    }
    loop
        invariant
            len == input@.len(),
            pos <= cur,
            grammar::variables_at(input@, pos as int) == prepend(
                views(items@),
                grammar::variables_at(input@, cur as int),
            ),
        decreases len - cur,
    {
        match upper_word(input, cur) {
            Outcome::Complete(w, end) => {
                let v = Variable(w);
                let comma = skip_ignored(input, end);
                if comma >= len {
                    return Outcome::Incomplete;
                }
                proof {
                    lemma_views_push(items@, v);
                }
                if input[comma] != COMMA {
                    items.push(v);
                    let list = FofVariableList(items);
                    return Outcome::Complete(list, end);
                }
                let next = skip_ignored(input, comma + 1);
                if next >= len {
                    return Outcome::Incomplete;
                }
                proof {
                    lemma_prepend_twice(
                        views(items@),
                        seq![v@],
                        grammar::variables_at(input@, next as int),
                    );
                }
                items.push(v);
                cur = next;
            },
            Outcome::Incomplete => {
                return Outcome::Incomplete;
            },
            Outcome::Malformed(at, what) => {
                return Outcome::Malformed(at, what);
            },
        }
    }
}

/// Reads an atomic formula.
pub fn atomic_formula<'a>(input: &'a [u8], pos: usize) -> (r: Outcome<FofAtomicFormula<'a>>)
    ensures
        r@ == grammar::atomic_at(input@, pos as int),
        r@.within(pos as int, input@.len()),
        r matches Outcome::Complete(tree, _) ==> tree.wf(),
{
    proof {
        lemma_atomic_wf(input@, pos as int);
    }
    match term_led(input, pos, true, false) {
        Outcome::Complete(l, end) => Outcome::Complete(atomic_of(l), end),
        Outcome::Incomplete => Outcome::Incomplete,
        Outcome::Malformed(at, what) => Outcome::Malformed(at, what),
    }
}

/// The atomic formula of a literal: what it asserts or denies, and for an
/// inequation the equation of its two terms.
pub fn atomic_of<'a>(l: Literal<'a>) -> (a: FofAtomicFormula<'a>)
    ensures
        a@ == l@.atomic(),
{
    match l {
        Literal::Atomic(a) => a,
        Literal::NegatedAtomic(a) => a,
        Literal::Infix(x) => FofAtomicFormula::Defined(
            FofDefinedAtomicFormula::Infix(
                FofDefinedInfixFormula {
                    left: x.left,
                    op: DefinedInfixPred(InfixEquality),
                    right: x.right,
                },
            ),
        ),
    }
}

/// The unit formula that says the same as a literal.
pub fn unit_of<'a>(l: Literal<'a>) -> (u: FofUnitFormula<'a>)
    ensures
        u@ == l@.as_unit(),
{
    match l {
        Literal::Atomic(a) => FofUnitFormula::Unitary(FofUnitaryFormula::Atomic(a)),
        Literal::NegatedAtomic(a) => {
            let atom = FofUnitFormula::Unitary(FofUnitaryFormula::Atomic(a));
            assert(atom@ == UnitModel::Unitary(UnitaryModel::Atomic(a@)));
            FofUnitFormula::Unary(FofUnaryFormula::Unary(UnaryConnective, Box::new(atom)))
        },
        Literal::Infix(x) => FofUnitFormula::Unary(FofUnaryFormula::InfixUnary(x)),
    }
}

/// A unit formula as a formula of any shape.
pub fn logic_of<'a>(u: FofUnitFormula<'a>) -> (l: FofLogicFormula<'a>)
    ensures
        l@ == u@.as_logic(),
{
    match u {
        FofUnitFormula::Unitary(u) => FofLogicFormula::Unitary(u),
        FofUnitFormula::Unary(u) => FofLogicFormula::Unary(u),
    }
}

/// Reads the binary connective at `pos`.
pub fn connective(input: &[u8], pos: usize) -> (r: Outcome<Connective>)
    ensures
        r@ == grammar::connective_at(input@, pos as int),
        r@.within(pos as int, input@.len()),
{
    proof {
        reveal(grammar::connective_at);
    }
    let len = input.len();
    if pos >= len {
        return Outcome::Incomplete;
    }
    let first = input[pos];
    if first == AMPERSAND {
        return Outcome::Complete(Connective::Assoc(AssocConnective::And), pos + 1);
    }
    if first == PIPE {
        return Outcome::Complete(Connective::Assoc(AssocConnective::Or), pos + 1);
    }
    if first != EQUALS && first != LESS && first != TILDE {
        return Outcome::Malformed(pos, Expected::Connective);
    }
    if len - pos < 2 {
        return Outcome::Incomplete;
    }
    let second = input[pos + 1];
    if first == EQUALS {
        return if second == GREATER {
            Outcome::Complete(Connective::Nonassoc(NonassocConnective::LRImplies), pos + 2)
        } else {
            Outcome::Malformed(pos, Expected::Connective)
        };
    }
    if first == TILDE {
        return if second == PIPE {
            Outcome::Complete(Connective::Nonassoc(NonassocConnective::NotOr), pos + 2)
        } else if second == AMPERSAND {
            Outcome::Complete(Connective::Nonassoc(NonassocConnective::NotAnd), pos + 2)
        } else {
            Outcome::Malformed(pos, Expected::Connective)
        };
    }
    if second != EQUALS && second != TILDE {
        return Outcome::Malformed(pos, Expected::Connective);
    }
    if len - pos < 3 {
        return Outcome::Incomplete;
    }
    let third = input[pos + 2];
    if second == EQUALS {
        if third == GREATER {
            Outcome::Complete(Connective::Nonassoc(NonassocConnective::Equivalent), pos + 3)
        } else {
            Outcome::Complete(Connective::Nonassoc(NonassocConnective::RLImplies), pos + 2)
        }
    } else if third == GREATER {
        Outcome::Complete(Connective::Nonassoc(NonassocConnective::NotEquivalent), pos + 3)
    } else {
        Outcome::Malformed(pos, Expected::Connective)
    }
}

/// The byte that an associative connective is written with.
pub fn assoc_byte(c: AssocConnective) -> (b: u8)
    ensures
        b == grammar::assoc_byte(c),
{
    match c {
        AssocConnective::And => AMPERSAND,
        AssocConnective::Or => PIPE,
    }
}

/// Reads a unit formula.
pub fn unit_formula<'a>(input: &'a [u8], pos: usize) -> (r: Outcome<FofUnitFormula<'a>>)
    ensures
        r@ == grammar::unit_at(input@, pos as int),
        r@.within(pos as int, input@.len()),
        r matches Outcome::Complete(tree, _) ==> tree.wf(),
    decreases input@.len() - pos, 1int,
{
    proof {
        lemma_unit_wf(input@, pos as int);
    }
    let len = input.len();
    if pos >= len {
        return Outcome::Incomplete;
    }
    let first = input[pos];
    if first == BANG || first == QUESTION {
        return match quantified_formula(input, pos) {
            Outcome::Complete(q, end) => Outcome::Complete(
                FofUnitFormula::Unitary(FofUnitaryFormula::Quantified(q)),
                end,
            ),
            Outcome::Incomplete => Outcome::Incomplete,
            Outcome::Malformed(at, what) => Outcome::Malformed(at, what),
        };
    }
    if first != TILDE && first != OPEN_PAREN {
        return match term_led(input, pos, true, true) {
            Outcome::Complete(l, end) => Outcome::Complete(unit_of(l), end),
            Outcome::Incomplete => Outcome::Incomplete,
            Outcome::Malformed(at, what) => Outcome::Malformed(at, what),
        };
    }
    let inner = skip_ignored(input, pos + 1);
    if inner >= len {
        return Outcome::Incomplete;
    }
    if first == TILDE {
        match unit_formula(input, inner) {
            Outcome::Complete(u, end) => Outcome::Complete(
                FofUnitFormula::Unary(FofUnaryFormula::Unary(UnaryConnective, Box::new(u))),
                end,
            ),
            Outcome::Incomplete => Outcome::Incomplete,
            Outcome::Malformed(at, what) => Outcome::Malformed(at, what),
        }
    } else {
        match logic_formula(input, inner) {
            Outcome::Complete(l, end) => {
                let close = skip_ignored(input, end);
                if close >= len {
                    return Outcome::Incomplete;
                }
                if input[close] != CLOSE_PAREN {
                    return Outcome::Malformed(close, Expected::CloseParen);
                }
                Outcome::Complete(
                    FofUnitFormula::Unitary(FofUnitaryFormula::Parenthesised(Box::new(l))),
                    close + 1,
                )
            },
            Outcome::Incomplete => Outcome::Incomplete,
            Outcome::Malformed(at, what) => Outcome::Malformed(at, what),
        }
    }
}

/// Reads a quantified formula.
pub fn quantified_formula<'a>(input: &'a [u8], pos: usize) -> (r: Outcome<
    FofQuantifiedFormula<'a>,
>)
    ensures
        r@ == grammar::quantified_at(input@, pos as int),
        r@.within(pos as int, input@.len()),
    decreases input@.len() - pos, 0int,
{
    let len = input.len();
    if pos >= len {
        return Outcome::Incomplete;
    }
    let first = input[pos];
    if first != BANG && first != QUESTION {
        return Outcome::Malformed(pos, Expected::Quantifier);
    }
    let quantifier = if first == BANG {
        FofQuantifier::Forall
    } else {
        FofQuantifier::Exists
    };
    let open = skip_ignored(input, pos + 1);
    if open >= len {
        return Outcome::Incomplete;
    }
    if input[open] != OPEN_BRACKET {
        return Outcome::Malformed(open, Expected::OpenBracket);
    }
    let start = skip_ignored(input, open + 1);
    if start >= len {
        return Outcome::Incomplete;
    }
    match variable_list(input, start) {
        Outcome::Complete(bound, end) => {
            let close = skip_ignored(input, end);
            if close >= len {
                return Outcome::Incomplete;
            }
            if input[close] != CLOSE_BRACKET {
                return Outcome::Malformed(close, Expected::CloseBracket);
            }
            let colon = skip_ignored(input, close + 1);
            if colon >= len {
                return Outcome::Incomplete;
            }
            if input[colon] != COLON {
                return Outcome::Malformed(colon, Expected::Colon);
            }
            let body = skip_ignored(input, colon + 1);
            if body >= len {
                return Outcome::Incomplete;
            }
            match unit_formula(input, body) {
                Outcome::Complete(u, last) => Outcome::Complete(
                    FofQuantifiedFormula { quantifier, bound, formula: Box::new(u) },
                    last,
                ),
                Outcome::Incomplete => Outcome::Incomplete,
                Outcome::Malformed(at, what) => Outcome::Malformed(at, what),
            }
        },
        Outcome::Incomplete => Outcome::Incomplete,
        Outcome::Malformed(at, what) => Outcome::Malformed(at, what),
    }
}

/// Reads the operands that follow the one that ends at `end`, each behind
/// the connective `c`.
pub fn operands_after<'a>(input: &'a [u8], end: usize, c: AssocConnective) -> (r: Outcome<
    Vec<FofUnitFormula<'a>>,
>)
    ensures
        r.list_view() == grammar::operands_after(input@, end as int, c),
        r matches Outcome::Complete(items, last) ==> end <= last <= input@.len(),
        !(r is Malformed),
    decreases input@.len() - end, 2int,
{
    if end > input.len() {
        return Outcome::Incomplete;
    }
    let len = input.len();
    let glyph = assoc_byte(c);
    let mut items: Vec<FofUnitFormula<'a>> = Vec::new();
    let mut cur = end;
    proof {
        lemma_prepend_nothing(grammar::operands_after(input@, end as int, c));
    }
    loop
        invariant
            len == input@.len(),
            glyph == grammar::assoc_byte(c),
            end <= cur <= len,
            grammar::operands_after(input@, end as int, c) == prepend(
                views(items@),
                grammar::operands_after(input@, cur as int, c),
            ),
        decreases len - cur,
    {
        let op = skip_ignored(input, cur);
        if op >= len {
            return Outcome::Incomplete;
        }
        if input[op] != glyph {
            return Outcome::Complete(items, cur);
        }
        let next = skip_ignored(input, op + 1);
        if next >= len {
            return Outcome::Incomplete;
        }
        match unit_formula(input, next) {
            Outcome::Complete(u, after) => {
                proof {
                    lemma_prepend_twice(
                        views(items@),
                        seq![u@],
                        grammar::operands_after(input@, after as int, c),
                    );
                    lemma_views_push(items@, u);
                }
                items.push(u);
                cur = after;
            },
            Outcome::Incomplete => {
                return Outcome::Incomplete;
            },
            Outcome::Malformed(_, _) => {
                return Outcome::Complete(items, cur);
            },
        }
    }
}

/// The formula that joins the operand `first` and the operands `rest`, of
/// which there is one at least, under the associative connective `c`.
pub fn binary_assoc<'a>(
    c: AssocConnective,
    first: FofUnitFormula<'a>,
    rest: Vec<FofUnitFormula<'a>>,
) -> (l: FofLogicFormula<'a>)
    ensures
        l@ == LogicModel::Binary(
            BinaryModel::Assoc(grammar::assoc(c, seq![first@] + views(rest@))),
        ),
{
    let mut operands = rest;
    proof {
        lemma_views_insert(operands@, first);
    }
    operands.insert(0, first);
    let run = match c {
        AssocConnective::And => {
            let run = FofAndFormula(operands);
            assert(run@ =~= views(operands@));
            FofBinaryAssoc::And(run)
        },
        AssocConnective::Or => {
            let run = FofOrFormula(operands);
            assert(run@ =~= views(operands@));
            FofBinaryAssoc::Or(run)
        },
    };
    assert(run@ == grammar::assoc(c, seq![first@] + views(rest@)));
    let binary = FofBinaryFormula::Assoc(run);
    FofLogicFormula::Binary(binary)
}

/// The formula that joins two operands under the connective `op`.
pub fn binary_nonassoc<'a>(
    left: FofUnitFormula<'a>,
    op: NonassocConnective,
    right: FofUnitFormula<'a>,
) -> (l: FofLogicFormula<'a>)
    ensures
        l@ == LogicModel::Binary(
            BinaryModel::Nonassoc(
                NonassocModel { left: Box::new(left@), op, right: Box::new(right@) },
            ),
        ),
{
    let joined = FofBinaryNonassoc { left: Box::new(left), op, right: Box::new(right) };
    assert(joined@ == NonassocModel { left: Box::new(left@), op, right: Box::new(right@) });
    let binary = FofBinaryFormula::Nonassoc(joined);
    FofLogicFormula::Binary(binary)
}

/// Reads a formula of any shape.
pub fn logic_formula<'a>(input: &'a [u8], pos: usize) -> (r: Outcome<FofLogicFormula<'a>>)
    ensures
        r@ == grammar::logic_at(input@, pos as int),
        r@.within(pos as int, input@.len()),
        r matches Outcome::Complete(tree, _) ==> tree.wf(),
    decreases input@.len() - pos, 4int,
{
    proof {
        lemma_logic_wf(input@, pos as int);
    }
    match unit_formula(input, pos) {
        Outcome::Complete(u, end) => continued(input, u, end),
        Outcome::Incomplete => Outcome::Incomplete,
        Outcome::Malformed(at, what) => Outcome::Malformed(at, what),
    }
}

/// Reads the formula that begins with the unit formula `u`, which ends at
/// `end`.
pub fn continued<'a>(input: &'a [u8], u: FofUnitFormula<'a>, end: usize) -> (r: Outcome<
    FofLogicFormula<'a>,
>)
    ensures
        r@ == grammar::continued_at(input@, u@, end as int),
        r matches Outcome::Complete(_, last) ==> end <= last <= input@.len(),
        r matches Outcome::Malformed(at, _) ==> end <= at < input@.len(),
    decreases input@.len() - end, 3int,
{
    proof {
        reveal(grammar::connective_at);
    }
    if end > input.len() {
        return Outcome::Incomplete;
    }
    let len = input.len();
    let op = skip_ignored(input, end);
    match connective(input, op) {
        Outcome::Complete(Connective::Assoc(c), _) => match operands_after(input, end, c) {
            Outcome::Complete(rest, last) => {
                if rest.len() == 0 {
                    Outcome::Complete(logic_of(u), end)
                } else {
                    Outcome::Complete(binary_assoc(c, u, rest), last)
                }
            },
            Outcome::Incomplete => Outcome::Incomplete,
            Outcome::Malformed(at, what) => Outcome::Malformed(at, what),
        },
        Outcome::Complete(Connective::Nonassoc(c), after) => {
            let right = skip_ignored(input, after);
            if right >= len {
                return Outcome::Incomplete;
            }
            match unit_formula(input, right) {
                Outcome::Complete(r, last) => Outcome::Complete(binary_nonassoc(u, c, r), last),
                Outcome::Incomplete => Outcome::Incomplete,
                Outcome::Malformed(_, _) => Outcome::Complete(logic_of(u), end),
            }
        },
        Outcome::Incomplete => Outcome::Incomplete,
        Outcome::Malformed(_, _) => Outcome::Complete(logic_of(u), end),
    }
}

impl<'a> FofTerm<'a> {
    /// Reads a term from the beginning of `x`.
    pub fn parse(x: &'a [u8]) -> (r: Outcome<FofTerm<'a>>)
        ensures
            r@ == grammar::term_at(x@, 0),
            r@.within(0, x@.len()),
            r matches Outcome::Complete(tree, _) ==> tree.wf(),
    {
        term(x, 0)
    }
}

impl<'a> FofAtomicFormula<'a> {
    /// Reads an atomic formula from the beginning of `x`.
    pub fn parse(x: &'a [u8]) -> (r: Outcome<FofAtomicFormula<'a>>)
        ensures
            r@ == grammar::atomic_at(x@, 0),
            r@.within(0, x@.len()),
            r matches Outcome::Complete(tree, _) ==> tree.wf(),
    {
        atomic_formula(x, 0)
    }
}

impl<'a> FofUnitFormula<'a> {
    /// Reads a unit formula from the beginning of `x`.
    pub fn parse(x: &'a [u8]) -> (r: Outcome<FofUnitFormula<'a>>)
        ensures
            r@ == grammar::unit_at(x@, 0),
            r@.within(0, x@.len()),
            r matches Outcome::Complete(tree, _) ==> tree.wf(),
    {
        unit_formula(x, 0)
    }
}

impl<'a> FofLogicFormula<'a> {
    /// Reads a formula of any shape from the beginning of `x`.
    pub fn parse(x: &'a [u8]) -> (r: Outcome<FofLogicFormula<'a>>)
        ensures
            r@ == grammar::logic_at(x@, 0),
            r@.within(0, x@.len()),
            r matches Outcome::Complete(tree, _) ==> tree.wf(),
    {
        logic_formula(x, 0)
    }
}

impl<'a> FofFormula<'a> {
    /// Reads a first-order formula from the beginning of `x`.
    pub fn parse(x: &'a [u8]) -> (r: Outcome<FofFormula<'a>>)
        ensures
            r@ == grammar::logic_at(x@, 0),
            r@.within(0, x@.len()),
            r matches Outcome::Complete(tree, _) ==> tree.wf(),
    {
        match logic_formula(x, 0) {
            Outcome::Complete(l, end) => Outcome::Complete(FofFormula(l), end),
            Outcome::Incomplete => Outcome::Incomplete,
            Outcome::Malformed(at, what) => Outcome::Malformed(at, what),
        }
    }
}

} // verus!
