//! Readers of clauses: literals, disjunctions, and formulas in clausal
//! normal form.

pub use crate::syntax::{Disjunction, Literal};
use crate::ascii::{BANG, CLOSE_PAREN, EQUALS, is_lower, OPEN_PAREN, PIPE, SINGLE_QUOTE, TILDE};
use crate::fof::{atomic_formula, plain_term, term};
use crate::grammar;
use crate::grammar::TailModel;
use crate::laws::clauses::{
    lemma_cnf_formula_wf, lemma_disjunction_wf, lemma_literal_wf, no_bare_system,
};
use crate::lexical::skip_ignored;
use crate::outcome::{
    Expected, lemma_prepend_nothing, lemma_prepend_twice, lemma_views_insert, lemma_views_push,
    option_view, Outcome, prepend, views,
};
use crate::syntax::{
    CnfFormula, DefinedInfixPred, FofAtomicFormula, FofDefinedAtomicFormula, FofDefinedInfixFormula,
    FofDefinedPlainFormula, FofDefinedTerm, FofFunctionTerm, FofInfixUnary, FofPlainAtomicFormula,
    FofSystemAtomicFormula, FofTerm, InfixEquality, InfixInequality,
};
use vstd::prelude::*;

verus! {

/// A formula in clausal normal form.
pub type Formula<'a> = CnfFormula<'a>;

/// What follows a term to make an equation or an inequation of it: the sign
/// and the term on its right.
#[derive(Debug, PartialOrd, Ord, PartialEq, Eq, Hash)]
pub enum LiteralTail<'a> {
    Equal(DefinedInfixPred, Box<FofTerm<'a>>),
    NotEqual(InfixInequality, Box<FofTerm<'a>>),
}

impl<'a> View for LiteralTail<'a> {
    type V = TailModel;

    open spec fn view(&self) -> TailModel {
        match self {
            LiteralTail::Equal(_, right) => TailModel::Equal(right@),
            LiteralTail::NotEqual(_, right) => TailModel::NotEqual(right@),
        }
    }
}

impl<'a> Clone for LiteralTail<'a> {
    fn clone(&self) -> (copy: Self)
        ensures
            copy@ == self@,
    {
        match self {
            LiteralTail::Equal(op, right) => LiteralTail::Equal(*op, Box::new((**right).clone())),
            LiteralTail::NotEqual(op, right) => LiteralTail::NotEqual(
                *op,
                Box::new((**right).clone()),
            ),
        }
    }
}

impl<'a> LiteralTail<'a> {
    /// Makes a literal of the tail and the term on its left: an equation is
    /// an atomic formula, an inequation a literal of its own kind.
    pub fn finish(self, left: FofTerm<'a>) -> (literal: Literal<'a>)
        ensures
            literal@ == self@.finish(left@),
    {
        let left = Box::new(left);
        match self {
            LiteralTail::Equal(op, right) => {
                let infix = FofDefinedInfixFormula { left, op, right };
                let defined = FofDefinedAtomicFormula::Infix(infix);
                let atomic = FofAtomicFormula::Defined(defined);
                Literal::Atomic(atomic)
            },
            LiteralTail::NotEqual(op, right) => {
                let infix = FofInfixUnary { left, op, right };
                Literal::Infix(infix)
            },
        }
    }

    /// Reads the tail behind the term that ends at `end`: `=` and a term, or,
    /// where `unequal` allows it, `!=` and a term.
    pub fn parse(input: &'a [u8], end: usize, unequal: bool) -> (r: Outcome<LiteralTail<'a>>)
        ensures
            r@ == grammar::tail_at(input@, end as int, unequal),
            r@.within(end as int, input@.len()),
            r matches Outcome::Complete(tail, _) ==> (tail is NotEqual ==> unequal),
    {
        proof {
            reveal(grammar::tail_at);
        }
        if end > input.len() {
            return Outcome::Incomplete;
        }
        let len = input.len();
        let op = skip_ignored(input, end);
        if op >= len {
            return Outcome::Incomplete;
        }
        if input[op] == EQUALS {
            let right = skip_ignored(input, op + 1);
            if right >= len {
                return Outcome::Incomplete;
            }
            match term(input, right) {
                Outcome::Complete(t, after) => Outcome::Complete(
                    LiteralTail::Equal(DefinedInfixPred(InfixEquality), Box::new(t)),
                    after,
                ),
                Outcome::Incomplete => Outcome::Incomplete,
                Outcome::Malformed(at, what) => Outcome::Malformed(at, what),
            }
        } else if unequal && input[op] == BANG {
            if len - op < 2 {
                return Outcome::Incomplete;
            }
            if input[op + 1] != EQUALS {
                return Outcome::Malformed(op, Expected::Equality);
            }
            let right = skip_ignored(input, op + 2);
            if right >= len {
                return Outcome::Incomplete;
            }
            match term(input, right) {
                Outcome::Complete(t, after) => Outcome::Complete(
                    LiteralTail::NotEqual(InfixInequality, Box::new(t)),
                    after,
                ),
                Outcome::Incomplete => Outcome::Incomplete,
                Outcome::Malformed(at, what) => Outcome::Malformed(at, what),
            }
        } else {
            Outcome::Malformed(op, Expected::Equality)
        }
    }

    /// Reads the tail behind the term that ends at `end`, where there is one.
    /// A tail that turns out malformed is none, and nothing is consumed.
    pub fn parse_optional(input: &'a [u8], end: usize, unequal: bool) -> (r: Outcome<
        Option<LiteralTail<'a>>,
    >)
        ensures
            r.optional_view() == grammar::optional_tail_at(input@, end as int, unequal),
            r matches Outcome::Complete(tail, after) ==> end <= after <= input@.len() && (
            tail is Some ==> end < after),
            r matches Outcome::Complete(Some(tail), _) ==> (tail is NotEqual ==> unequal),
            !(r is Malformed),
    {
        match LiteralTail::parse(input, end, unequal) {
            Outcome::Complete(tail, after) => Outcome::Complete(Some(tail), after),
            Outcome::Incomplete => Outcome::Incomplete,
            Outcome::Malformed(_, _) => Outcome::Complete(None, end),
        }
    }
}

/// What a term is as a formula when no tail follows it: a defined constant
/// is a defined proposition, and a system term is a system proposition where
/// `system` allows it.  Nothing else is a formula.
pub fn proposition<'a>(t: FofTerm<'a>, system: bool) -> (r: Option<FofAtomicFormula<'a>>)
    ensures
        option_view(r) == grammar::proposition(t@, system),
{
    match t {
        FofTerm::Function(FofFunctionTerm::Defined(FofDefinedTerm::Atomic(constant))) => Some(
            FofAtomicFormula::Defined(
                FofDefinedAtomicFormula::Plain(FofDefinedPlainFormula(constant.0)),
            ),
        ),
        FofTerm::Function(FofFunctionTerm::System(t)) => if system {
            Some(FofAtomicFormula::System(FofSystemAtomicFormula(t)))
        } else {
            None
        },
        _ => None,
    }
}

/// Reads a formula that begins with a term: an atomic formula or an
/// inequation.  `system` says whether a system term alone is a formula;
/// `unequal` says whether an inequation may be read.
pub fn term_led<'a>(input: &'a [u8], pos: usize, system: bool, unequal: bool) -> (r: Outcome<
    Literal<'a>,
>)
    ensures
        r@ == grammar::term_led_at(input@, pos as int, system, unequal),
        r@.within(pos as int, input@.len()),
        r matches Outcome::Complete(l, _) ==> !(l is NegatedAtomic) && (!unequal ==> l is Atomic),
{
    proof {
        reveal(grammar::term_led_at);
    }
    if pos >= input.len() {
        return Outcome::Incomplete;
    }
    let first = input[pos];
    if is_lower(first) || first == SINGLE_QUOTE {
        match plain_term(input, pos) {
            Outcome::Complete(p, end) => match LiteralTail::parse_optional(input, end, unequal) {
                Outcome::Complete(Some(tail), after) => Outcome::Complete(
                    tail.finish(FofTerm::Function(FofFunctionTerm::Plain(p))),
                    after,
                ),
                Outcome::Complete(None, _) => Outcome::Complete(
                    Literal::Atomic(FofAtomicFormula::Plain(FofPlainAtomicFormula(p))),
                    end,
                ),
                Outcome::Incomplete => Outcome::Incomplete,
                Outcome::Malformed(at, what) => Outcome::Malformed(at, what),
            },
            Outcome::Incomplete => Outcome::Incomplete,
            Outcome::Malformed(at, what) => Outcome::Malformed(at, what),
        }
    } else {
        match term(input, pos) {
            Outcome::Complete(t, end) => match LiteralTail::parse(input, end, unequal) {
                Outcome::Complete(tail, after) => Outcome::Complete(tail.finish(t), after),
                Outcome::Incomplete => Outcome::Incomplete,
                Outcome::Malformed(at, what) => match proposition(t, system) {
                    Some(a) => Outcome::Complete(Literal::Atomic(a), end),
                    None => Outcome::Malformed(at, what),
                },
            },
            Outcome::Incomplete => Outcome::Incomplete,
            Outcome::Malformed(at, what) => Outcome::Malformed(at, what),
        }
    }
}

/// Reads a literal.
pub fn literal<'a>(input: &'a [u8], pos: usize) -> (r: Outcome<Literal<'a>>)
    ensures
        r@ == grammar::literal_at(input@, pos as int),
        r@.within(pos as int, input@.len()),
        r matches Outcome::Complete(tree, _) ==> tree.wf() && !tree@.bare_system(),
{
    proof {
        lemma_literal_wf(input@, pos as int);
    }
    proof {
        reveal(grammar::literal_at);
    }
    if pos >= input.len() {
        return Outcome::Incomplete;
    }
    if input[pos] != TILDE {
        return term_led(input, pos, false, true);
    }
    let atom = skip_ignored(input, pos + 1);
    if atom >= input.len() {
        return Outcome::Incomplete;
    }
    match atomic_formula(input, atom) {
        Outcome::Complete(a, end) => Outcome::Complete(Literal::NegatedAtomic(a), end),
        Outcome::Incomplete => Outcome::Incomplete,
        Outcome::Malformed(at, what) => Outcome::Malformed(at, what),
    }
}

/// Reads the literals that follow the one that ends at `end`, each behind a
/// `|`.
pub fn literals_after<'a>(input: &'a [u8], end: usize) -> (r: Outcome<Vec<Literal<'a>>>)
    ensures
        r.list_view() == grammar::literals_after(input@, end as int),
        r matches Outcome::Complete(items, last) ==> end <= last <= input@.len(),
        !(r is Malformed),
{
    if end > input.len() {
        return Outcome::Incomplete;
    }
    let len = input.len();
    let mut items: Vec<Literal<'a>> = Vec::new();
    let mut cur = end;
    proof {
        lemma_prepend_nothing(grammar::literals_after(input@, end as int));
    }
    loop
        invariant
            len == input@.len(),
            end <= cur <= len,
            grammar::literals_after(input@, end as int) == prepend(
                views(items@),
                grammar::literals_after(input@, cur as int),
            ),
        decreases len - cur,
    {
        let bar = skip_ignored(input, cur);
        if bar >= len {
            return Outcome::Incomplete;
        }
        if input[bar] != PIPE {
            return Outcome::Complete(items, cur);
        }
        let next = skip_ignored(input, bar + 1);
        if next >= len {
            return Outcome::Incomplete;
        }
        match literal(input, next) {
            Outcome::Complete(l, after) => {
                proof {
                    lemma_prepend_twice(
                        views(items@),
                        seq![l@],
                        grammar::literals_after(input@, after as int),
                    );
                    lemma_views_push(items@, l);
                }
                items.push(l);
                cur = after;
            },
            Outcome::Incomplete => {
                return Outcome::Incomplete;
            },
            Outcome::Malformed(_, _) => {
                return Outcome::Complete(items, cur);
            },
        }
    }
}

/// Reads a clause: one literal or more, with `|` between them.
pub fn disjunction<'a>(input: &'a [u8], pos: usize) -> (r: Outcome<Disjunction<'a>>)
    ensures
        r@ == grammar::disjunction_at(input@, pos as int),
        r@.within(pos as int, input@.len()),
        r matches Outcome::Complete(tree, _) ==> tree.wf() && no_bare_system(tree@),
{
    proof {
        lemma_disjunction_wf(input@, pos as int);
    }
    proof {
        reveal(grammar::disjunction_at);
    }
    match literal(input, pos) {
        Outcome::Complete(l, end) => match literals_after(input, end) {
            Outcome::Complete(rest, last) => {
                let mut items = rest;
                proof {
                    lemma_views_insert(items@, l);
                }
                items.insert(0, l);
                let d = Disjunction(items);
                Outcome::Complete(d, last)
            },
            Outcome::Incomplete => Outcome::Incomplete,
            Outcome::Malformed(at, what) => Outcome::Malformed(at, what),
        },
        Outcome::Incomplete => Outcome::Incomplete,
        Outcome::Malformed(at, what) => Outcome::Malformed(at, what),
    }
}

/// Reads a formula in clausal normal form: a clause, bare or in parentheses.
pub fn cnf_formula<'a>(input: &'a [u8], pos: usize) -> (r: Outcome<CnfFormula<'a>>)
    ensures
        r@ == grammar::cnf_formula_at(input@, pos as int),
        r@.within(pos as int, input@.len()),
        r matches Outcome::Complete(tree, _) ==> tree.wf() && no_bare_system(tree@.literals()),
{
    proof {
        lemma_cnf_formula_wf(input@, pos as int);
    }
    proof {
        reveal(grammar::cnf_formula_at);
    }
    let len = input.len();
    if pos >= len {
        return Outcome::Incomplete;
    }
    if input[pos] != OPEN_PAREN {
        return match disjunction(input, pos) {
            Outcome::Complete(d, end) => Outcome::Complete(CnfFormula::Disjunction(d), end),
            Outcome::Incomplete => Outcome::Incomplete,
            Outcome::Malformed(at, what) => Outcome::Malformed(at, what),
        };
    }
    let first = skip_ignored(input, pos + 1);
    if first >= len {
        return Outcome::Incomplete;
    }
    match disjunction(input, first) {
        Outcome::Complete(d, end) => {
            let close = skip_ignored(input, end);
            if close >= len {
                return Outcome::Incomplete;
            }
            if input[close] != CLOSE_PAREN {
                return Outcome::Malformed(close, Expected::CloseParen);
            }
            Outcome::Complete(CnfFormula::Parenthesised(d), close + 1)
        },
        Outcome::Incomplete => Outcome::Incomplete,
        Outcome::Malformed(at, what) => Outcome::Malformed(at, what),
    }
}

impl<'a> Literal<'a> {
    /// Reads a literal from the beginning of `x`.
    pub fn parse(x: &'a [u8]) -> (r: Outcome<Literal<'a>>)
        ensures
            r@ == grammar::literal_at(x@, 0),
            r@.within(0, x@.len()),
            r matches Outcome::Complete(tree, _) ==> tree.wf() && !tree@.bare_system(),
    {
        literal(x, 0)
    }
}

impl<'a> Disjunction<'a> {
    /// Reads a clause from the beginning of `x`.
    pub fn parse(x: &'a [u8]) -> (r: Outcome<Disjunction<'a>>)
        ensures
            r@ == grammar::disjunction_at(x@, 0),
            r@.within(0, x@.len()),
            r matches Outcome::Complete(tree, _) ==> tree.wf() && no_bare_system(tree@),
    {
        disjunction(x, 0)
    }
}

impl<'a> CnfFormula<'a> {
    /// Reads a formula in clausal normal form from the beginning of `x`.
    pub fn parse(x: &'a [u8]) -> (r: Outcome<CnfFormula<'a>>)
        ensures
            r@ == grammar::cnf_formula_at(x@, 0),
            r@.within(0, x@.len()),
            r matches Outcome::Complete(tree, _) ==> tree.wf() && no_bare_system(tree@.literals()),
    {
        cnf_formula(x, 0)
    }
}

} // verus!
