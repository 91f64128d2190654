//! Atomic formulas, literals and clauses: what is read is well formed, and
//! what is well formed is read back.

use crate::ascii::{
    BANG, EQUALS, GREATER, lemma_occurs_split, lower, occurs, PIPE, SINGLE_QUOTE, TILDE,
};
use crate::grammar::{
    atomic_at, cnf_formula_at, disjunction_at, literal_at, literals_after, optional_tail_at,
    plain_term_at, proposition, tail_at, TailModel, term_at, term_led_at,
};
use crate::laws::terms::{
    lemma_plain_term_round_trip, lemma_plain_term_wf, lemma_term_round_trip, lemma_term_wf,
    term_start, term_stop,
};
use crate::lexical::{lemma_skip, lemma_skip_solid, skip};
use crate::model::{
    AtomicModel, CnfModel, DefinedAtomicModel, disjunction_text, disjunction_wf,
    FofDefinedTermModel, FunctionTermModel, literal_texts, LiteralModel, TermModel,
};
use crate::outcome::Parsed;
use crate::text::{joined, remaining};
use vstd::prelude::*;

verus! {

/// The formula in front of offset `e` ends there: the byte at `e` ends a
/// term, and begins neither an equation nor an inequation.
pub open spec fn formula_stop(s: Seq<u8>, e: int) -> bool {
    &&& 0 <= e < s.len()
    &&& term_stop(s[e])
    &&& s[e] != BANG
    &&& (s[e] == EQUALS ==> e + 1 < s.len() && s[e + 1] == GREATER)
}

/// A byte that ends the clause in front of it.
pub open spec fn clause_stop(b: u8) -> bool {
    term_stop(b) && b != BANG && b != EQUALS && b != PIPE
}

/// A tail that is read holds a well-formed term, and an inequation only
/// where one may be read.
pub proof fn lemma_tail_wf(s: Seq<u8>, end: int, unequal: bool)
    ensures
        tail_at(s, end, unequal) matches Parsed::Done(tail, after) ==> {
            &&& tail matches TailModel::Equal(t) ==> t.wf()
            &&& tail matches TailModel::NotEqual(t) ==> t.wf() && unequal
        },
{
    reveal(tail_at);
    let op = skip(s, end);
    lemma_term_wf(s, skip(s, op + 1));
    lemma_term_wf(s, skip(s, op + 2));
}

/// No tail is read where the formula in front ends.
pub proof fn lemma_no_tail(s: Seq<u8>, end: int, unequal: bool)
    requires
        formula_stop(s, end),
    ensures
        tail_at(s, end, unequal) is Malformed,
        optional_tail_at(s, end, unequal) == Parsed::<Option<TailModel>>::Done(None, end),
{
    reveal(tail_at);
    if s[end] == EQUALS {
        lemma_skip_solid(s, end + 1);
    }
}

/// The text of a tail: the sign and the term on its right.
pub open spec fn tail_text(tail: TailModel) -> Seq<char> {
    match tail {
        TailModel::Equal(right) => "="@ + right.text(),
        TailModel::NotEqual(right) => "!="@ + right.text(),
    }
}

/// A tail is read back where its text stands in front of a byte that ends
/// its term.
pub proof fn lemma_tail_round_trip(tail: TailModel, s: Seq<u8>, end: int, unequal: bool)
    requires
        tail matches TailModel::Equal(t) ==> t.wf(),
        tail matches TailModel::NotEqual(t) ==> t.wf() && unequal,
        occurs(s, end, tail_text(tail)),
        end + tail_text(tail).len() < s.len(),
        term_stop(s[end + tail_text(tail).len()]),
    ensures
        tail_at(s, end, unequal) == Parsed::Done(tail, end + tail_text(tail).len()),
        optional_tail_at(s, end, unequal) == Parsed::Done(
            Some(tail),
            end + tail_text(tail).len(),
        ),
{
    reveal(tail_at);
    reveal_strlit("=");
    reveal_strlit("!=");
    match tail {
        TailModel::Equal(right) => {
            let op = "="@;
            lemma_occurs_split(s, end, op, right.text());
            assert(s[end + 0] == op[0] as u8);
            lemma_term_round_trip(right, s, end + 1);
        },
        TailModel::NotEqual(right) => {
            let op = "!="@;
            lemma_occurs_split(s, end, op, right.text());
            assert(s[end + 0] == op[0] as u8);
            assert(s[end + 1] == op[1] as u8);
            lemma_term_round_trip(right, s, end + 2);
        },
    }
}

/// A formula that begins with a term and is read is well formed; it is no
/// negated atomic formula, an inequation only where one may be read, and a
/// system proposition only where one may be read.
pub proof fn lemma_term_led_wf(s: Seq<u8>, i: int, system: bool, unequal: bool)
    ensures
        term_led_at(s, i, system, unequal) matches Parsed::Done(l, end) ==> {
            &&& l.wf()
            &&& !(l is NegatedAtomic)
            &&& (l is Infix ==> unequal)
            &&& (l.bare_system() ==> system)
        },
{
    reveal(term_led_at);
    if 0 <= i < s.len() {
        if lower(s[i]) || s[i] == SINGLE_QUOTE {
            lemma_plain_term_wf(s, i);
            if let Parsed::Done(_, end) = plain_term_at(s, i) {
                lemma_tail_wf(s, end, unequal);
            }
        } else {
            lemma_term_wf(s, i);
            if let Parsed::Done(_, end) = term_at(s, i) {
                lemma_tail_wf(s, end, unequal);
            }
        }
    }
}

/// The term on the left of a literal that begins with a term and has a
/// tail, and the tail.
pub open spec fn split_infix(l: LiteralModel) -> Option<(TermModel, TailModel)> {
    match l {
        LiteralModel::Atomic(AtomicModel::Defined(DefinedAtomicModel::Infix(x))) => Some(
            (x.left, TailModel::Equal(x.right)),
        ),
        LiteralModel::Infix(x) => Some((x.left, TailModel::NotEqual(x.right))),
        _ => None,
    }
}

/// A formula that begins with a term is read back where its text stands and
/// the formula ends.
pub proof fn lemma_term_led_round_trip(
    l: LiteralModel,
    s: Seq<u8>,
    i: int,
    system: bool,
    unequal: bool,
)
    requires
        l.wf(),
        !(l is NegatedAtomic),
        l is Infix ==> unequal,
        l.bare_system() ==> system,
        occurs(s, i, l.text()),
        formula_stop(s, i + l.text().len()),
    ensures
        term_led_at(s, i, system, unequal) == Parsed::Done(l, i + l.text().len()),
        l.text().len() > 0,
        term_start(s[i]),
{
    reveal(term_led_at);
    let end = i + l.text().len();
    match split_infix(l) {
        Some((left, tail)) => {
            let op = if tail is Equal {
                "="@
            } else {
                "!="@
            };
            let right = if tail is Equal {
                tail->Equal_0
            } else {
                tail->NotEqual_0
            };
            reveal_strlit("=");
            reveal_strlit("!=");
            assert(l.text() =~= left.text() + tail_text(tail)) by {
                assert(l.text() == left.text() + op + right.text());
            }
            lemma_occurs_split(s, i, left.text(), tail_text(tail));
            let middle = i + left.text().len();
            lemma_occurs_split(s, middle, op, right.text());
            assert(s[middle + 0] == op[0] as u8);
            lemma_term_round_trip(left, s, i);
            lemma_tail_round_trip(tail, s, middle, unequal);
            if let TermModel::Function(FunctionTermModel::Plain(p)) = left {
                lemma_plain_term_round_trip(p, s, i);
            }
        },
        None => {
            lemma_no_tail(s, end, unequal);
            match l {
                LiteralModel::Atomic(AtomicModel::Plain(p)) => {
                    lemma_plain_term_round_trip(p, s, i);
                },
                LiteralModel::Atomic(AtomicModel::Defined(DefinedAtomicModel::Plain(w))) => {
                    let t = TermModel::Function(
                        FunctionTermModel::Defined(FofDefinedTermModel::Atomic(w)),
                    );
                    lemma_term_round_trip(t, s, i);
                },
                LiteralModel::Atomic(AtomicModel::System(st)) => {
                    let t = TermModel::Function(FunctionTermModel::System(st));
                    lemma_term_round_trip(t, s, i);
                },
                _ => {},
            }
        },
    }
}

/// An atomic formula that is read is well formed.
pub proof fn lemma_atomic_wf(s: Seq<u8>, i: int)
    ensures
        atomic_at(s, i) matches Parsed::Done(a, end) ==> a.wf(),
{
    lemma_term_led_wf(s, i, true, false);
}

/// An atomic formula is read back where its text stands and the formula
/// ends.
pub proof fn lemma_atomic_round_trip(a: AtomicModel, s: Seq<u8>, i: int)
    requires
        a.wf(),
        occurs(s, i, a.text()),
        formula_stop(s, i + a.text().len()),
    ensures
        atomic_at(s, i) == Parsed::Done(a, i + a.text().len()),
        a.text().len() > 0,
        term_start(s[i]),
{
    lemma_term_led_round_trip(LiteralModel::Atomic(a), s, i, true, false);
}

/// A literal that is read is well formed, and is no system proposition that
/// stands alone.
pub proof fn lemma_literal_wf(s: Seq<u8>, i: int)
    ensures
        literal_at(s, i) matches Parsed::Done(l, end) ==> l.wf() && !l.bare_system(),
{
    reveal(literal_at);
    lemma_term_led_wf(s, i, false, true);
    lemma_atomic_wf(s, skip(s, i + 1));
}

/// A byte that a literal can begin with.
pub open spec fn literal_start(b: u8) -> bool {
    term_start(b) || b == TILDE
}

/// A literal is read back where its text stands and the formula ends,
/// unless it is a system proposition that stands alone.
pub proof fn lemma_literal_round_trip(l: LiteralModel, s: Seq<u8>, i: int)
    requires
        l.wf(),
        !l.bare_system(),
        occurs(s, i, l.text()),
        formula_stop(s, i + l.text().len()),
    ensures
        literal_at(s, i) == Parsed::Done(l, i + l.text().len()),
        l.text().len() > 0,
        literal_start(s[i]),
{
    reveal(literal_at);
    match l {
        LiteralModel::NegatedAtomic(a) => {
            reveal_strlit("~");
            let sign = "~"@;
            lemma_occurs_split(s, i, sign, a.text());
            assert(s[i + 0] == sign[0] as u8);
            lemma_atomic_round_trip(a, s, i + 1);
        },
        _ => {
            lemma_term_led_round_trip(l, s, i, false, true);
        },
    }
}

/// No literal of the list is a system proposition that stands alone.
pub open spec fn no_bare_system(literals: Seq<LiteralModel>) -> bool {
    forall|k: int| 0 <= k < literals.len() ==> !(#[trigger] literals[k]).bare_system()
}

/// The literals that are read behind a literal are well formed, and none is
/// a system proposition that stands alone.
pub proof fn lemma_literals_after_wf(s: Seq<u8>, end: int)
    ensures
        literals_after(s, end) matches Parsed::Done(rest, _) ==> {
            &&& forall|k: int| 0 <= k < rest.len() ==> (#[trigger] rest[k]).wf()
            &&& no_bare_system(rest)
        },
    decreases s.len() - end,
{
    let bar = skip(s, end);
    let next = skip(s, bar + 1);
    if 0 <= end && bar < s.len() && s[bar] == PIPE && next < s.len() {
        lemma_skip(s, end);
        lemma_skip(s, bar + 1);
        lemma_literal_wf(s, next);
        if let Parsed::Done(l, after) = literal_at(s, next).beyond(next, s.len()) {
            lemma_literals_after_wf(s, after);
            if let Parsed::Done(rest, _) = literals_after(s, after) {
                let all = seq![l] + rest;
                assert forall|k: int| 0 <= k < all.len() implies (#[trigger] all[k]).wf()
                    && !all[k].bare_system() by {
                    if k > 0 {
                        assert(all[k] == rest[k - 1]);
                    }
                }
            }
        }
    }
}

/// A clause that is read is well formed, and none of its literals is a
/// system proposition that stands alone.
pub proof fn lemma_disjunction_wf(s: Seq<u8>, i: int)
    ensures
        disjunction_at(s, i) matches Parsed::Done(d, _) ==> disjunction_wf(d) && no_bare_system(d),
{
    reveal(disjunction_at);
    lemma_literal_wf(s, i);
    if let Parsed::Done(l, end) = literal_at(s, i) {
        lemma_literals_after_wf(s, end);
        if let Parsed::Done(rest, _) = literals_after(s, end) {
            let all = seq![l] + rest;
            assert forall|k: int| 0 <= k < all.len() implies (#[trigger] all[k]).wf()
                && !all[k].bare_system() by {
                if k > 0 {
                    assert(all[k] == rest[k - 1]);
                }
            }
        }
    }
}

/// A formula in clausal normal form that is read is well formed, and none of
/// its literals is a system proposition that stands alone.
pub proof fn lemma_cnf_formula_wf(s: Seq<u8>, i: int)
    ensures
        cnf_formula_at(s, i) matches Parsed::Done(c, _) ==> c.wf() && no_bare_system(c.literals()),
{
    reveal(cnf_formula_at);
    lemma_disjunction_wf(s, i);
    lemma_disjunction_wf(s, skip(s, i + 1));
}

/// The literals of a clause from the `k`th on, each behind a `|`, are read
/// back where their text stands in front of a byte that ends the clause.
pub proof fn lemma_literals_after_round_trip(
    literals: Seq<LiteralModel>,
    k: int,
    s: Seq<u8>,
    end: int,
)
    requires
        1 <= k <= literals.len(),
        disjunction_wf(literals),
        no_bare_system(literals),
        occurs(s, end, remaining(literal_texts(literals), "|"@, k)),
        end + remaining(literal_texts(literals), "|"@, k).len() < s.len(),
        clause_stop(s[end + remaining(literal_texts(literals), "|"@, k).len()]),
    ensures
        literals_after(s, end) == Parsed::Done(
            literals.subrange(k, literals.len() as int),
            end + remaining(literal_texts(literals), "|"@, k).len(),
        ),
    decreases literals.len() - k,
{
    reveal_strlit("|");
    let bar = "|"@;
    let texts = literal_texts(literals);
    if k == literals.len() {
        assert(literals.subrange(k, literals.len() as int) =~= Seq::empty());
    } else {
        let l = literals[k];
        let follows = remaining(texts, bar, k + 1);
        assert(remaining(texts, bar, k) =~= bar + l.text() + follows);
        lemma_occurs_split(s, end, bar + l.text(), follows);
        lemma_occurs_split(s, end, bar, l.text());
        assert(s[end + 0] == bar[0] as u8);
        let after = end + 1 + l.text().len();
        if k + 1 < literals.len() {
            lemma_occurs_split(s, after, bar, joined(texts, bar, k + 1));
        }
        lemma_literal_round_trip(l, s, end + 1);
        lemma_literals_after_round_trip(literals, k + 1, s, after);
        assert(literals.subrange(k, literals.len() as int) =~= seq![l] + literals.subrange(
            k + 1,
            literals.len() as int,
        ));
    }
}

/// A clause is read back where its text stands in front of a byte that ends
/// it, unless one of its literals is a system proposition that stands
/// alone.
pub proof fn lemma_disjunction_round_trip(literals: Seq<LiteralModel>, s: Seq<u8>, i: int)
    requires
        disjunction_wf(literals),
        no_bare_system(literals),
        occurs(s, i, disjunction_text(literals)),
        i + disjunction_text(literals).len() < s.len(),
        clause_stop(s[i + disjunction_text(literals).len()]),
    ensures
        disjunction_at(s, i) == Parsed::Done(literals, i + disjunction_text(literals).len()),
        disjunction_text(literals).len() > 0,
        literal_start(s[i]),
{
    reveal(disjunction_at);
    reveal_strlit("|");
    let bar = "|"@;
    let texts = literal_texts(literals);
    let l = literals[0];
    let follows = remaining(texts, bar, 1);
    assert(disjunction_text(literals) =~= l.text() + follows);
    lemma_occurs_split(s, i, l.text(), follows);
    let end = i + l.text().len();
    if 1 < literals.len() {
        lemma_occurs_split(s, end, bar, joined(texts, bar, 1));
        assert(s[end + 0] == bar[0] as u8);
    }
    lemma_literal_round_trip(l, s, i);
    lemma_literals_after_round_trip(literals, 1, s, end);
    assert(literals =~= seq![l] + literals.subrange(1, literals.len() as int));
}

/// A formula in clausal normal form is read back where its text stands in
/// front of a byte that ends it, unless one of its literals is a system
/// proposition that stands alone.
pub proof fn lemma_cnf_formula_round_trip(c: CnfModel, s: Seq<u8>, i: int)
    requires
        c.wf(),
        no_bare_system(c.literals()),
        occurs(s, i, c.text()),
        i + c.text().len() < s.len(),
        clause_stop(s[i + c.text().len()]),
    ensures
        cnf_formula_at(s, i) == Parsed::Done(c, i + c.text().len()),
{
    reveal(cnf_formula_at);
    match c {
        CnfModel::Disjunction(d) => {
            lemma_disjunction_round_trip(d, s, i);
        },
        CnfModel::Parenthesised(d) => {
            reveal_strlit("(");
            reveal_strlit(")");
            let open = "("@;
            let close = ")"@;
            let inner = disjunction_text(d);
            lemma_occurs_split(s, i, open + inner, close);
            lemma_occurs_split(s, i, open, inner);
            assert(s[i + 0] == open[0] as u8);
            assert(s[i + 1 + inner.len() + 0] == close[0] as u8);
            lemma_disjunction_round_trip(d, s, i + 1);
        },
    }
}

} // verus!
