//! First-order formulas: what is read is well formed, and what is well
//! formed is read back.

use crate::ascii::{
    AMPERSAND, BANG, CLOSE_BRACKET, COMMA, EQUALS, GREATER, lemma_occurs_split, LESS, occurs,
    OPEN_PAREN, PIPE, QUESTION, TILDE, upper,
};
use crate::grammar::{
    assoc, assoc_byte, connective_at, continued_at, lemma_connective_within, logic_at,
    operands_after, quantified_at, unit_at, variables_at, word_at,
};
use crate::laws::clauses::{formula_stop, lemma_term_led_round_trip, lemma_term_led_wf};
use crate::laws::terms::{term_start, term_stop};
use crate::laws::tokens::{lemma_word_round_trip, lemma_word_wf};
use crate::lexical::{lemma_skip, skip};
use crate::model::{
    AssocModel, BinaryModel, LiteralModel, LogicModel, operands_wf, QuantifiedModel, UnaryModel,
    unit_texts, UnitaryModel, UnitModel, upper_word_wf, variables_wf,
};
use crate::outcome::Parsed;
use crate::syntax::{AssocConnective, Connective, NonassocConnective};
use crate::text::{join, joined, remaining};
use vstd::prelude::*;

verus! {

/// A byte that a unit formula can begin with.
pub open spec fn unit_start(b: u8) -> bool {
    term_start(b) || b == TILDE || b == BANG || b == QUESTION || b == OPEN_PAREN
}

/// A byte that ends the formula in front of it: it ends a term, and begins
/// neither the tail of an equation or an inequation nor a binary connective.
pub open spec fn logic_stop(b: u8) -> bool {
    &&& term_stop(b)
    &&& b != BANG
    &&& b != EQUALS
    &&& b != AMPERSAND
    &&& b != PIPE
    &&& b != LESS
    &&& b != TILDE
}

/// Variables that are read are one or more, each an upper-case word.
pub proof fn lemma_variables_wf(s: Seq<u8>, i: int)
    ensures
        variables_at(s, i) matches Parsed::Done(bound, _) ==> variables_wf(bound),
    decreases s.len() - i,
{
    lemma_word_wf(s, i, true);
    if let Parsed::Done(v, end) = word_at(s, i, true).beyond(i, s.len()) {
        let comma = skip(s, end);
        let next = skip(s, comma + 1);
        if comma < s.len() && s[comma] == COMMA && next < s.len() {
            lemma_skip(s, end);
            lemma_skip(s, comma + 1);
            lemma_variables_wf(s, next);
            if let Parsed::Done(rest, _) = variables_at(s, next) {
                let all = seq![v] + rest;
                assert forall|k: int| 0 <= k < all.len() implies upper_word_wf(
                    #[trigger] all[k],
                ) by {
                    if k > 0 {
                        assert(all[k] == rest[k - 1]);
                    }
                }
            }
        }
    }
}

/// A unit formula that is read is well formed.
pub proof fn lemma_unit_wf(s: Seq<u8>, i: int)
    ensures
        unit_at(s, i) matches Parsed::Done(u, _) ==> u.wf(),
    decreases s.len() - i, 1int,
{
    let inner = skip(s, i + 1);
    if 0 <= i < s.len() {
        if s[i] == BANG || s[i] == QUESTION {
            lemma_quantified_wf(s, i);
        } else if s[i] != TILDE && s[i] != OPEN_PAREN {
            lemma_term_led_wf(s, i, true, true);
        } else if inner < s.len() {
            lemma_skip(s, i + 1);
            if s[i] == TILDE {
                lemma_unit_wf(s, inner);
            } else {
                lemma_logic_wf(s, inner);
            }
        }
    }
}

/// A quantified formula that is read is well formed.
pub proof fn lemma_quantified_wf(s: Seq<u8>, i: int)
    ensures
        quantified_at(s, i) matches Parsed::Done(q, _) ==> q.wf(),
    decreases s.len() - i, 0int,
{
    let open = skip(s, i + 1);
    let first = skip(s, open + 1);
    lemma_variables_wf(s, first);
    if let Parsed::Done(q, _) = quantified_at(s, i) {
        if let Parsed::Done(_, end) = variables_at(s, first).beyond(first, s.len()) {
            let close = skip(s, end);
            let colon = skip(s, close + 1);
            let body = skip(s, colon + 1);
            lemma_skip(s, i + 1);
            lemma_skip(s, open + 1);
            lemma_skip(s, end);
            lemma_skip(s, close + 1);
            lemma_skip(s, colon + 1);
            lemma_unit_wf(s, body);
        }
    }
}

/// The operands that are read behind an operand are well formed.
pub proof fn lemma_operands_after_wf(s: Seq<u8>, end: int, c: AssocConnective)
    ensures
        operands_after(s, end, c) matches Parsed::Done(rest, _) ==> forall|k: int|
            0 <= k < rest.len() ==> (#[trigger] rest[k]).wf(),
    decreases s.len() - end, 2int,
{
    let op = skip(s, end);
    let next = skip(s, op + 1);
    if 0 <= end && op < s.len() && s[op] == assoc_byte(c) && next < s.len() {
        lemma_skip(s, end);
        lemma_skip(s, op + 1);
        lemma_unit_wf(s, next);
        if let Parsed::Done(u, after) = unit_at(s, next).beyond(next, s.len()) {
            lemma_operands_after_wf(s, after, c);
            if let Parsed::Done(rest, _) = operands_after(s, after, c) {
                let all = seq![u] + rest;
                assert forall|k: int| 0 <= k < all.len() implies (#[trigger] all[k]).wf() by {
                    if k > 0 {
                        assert(all[k] == rest[k - 1]);
                    }
                }
            }
        }
    }
}

/// The formula that is read from a well-formed unit formula on is well
/// formed.
pub proof fn lemma_continued_wf(s: Seq<u8>, u: UnitModel, end: int)
    requires
        u.wf(),
    ensures
        continued_at(s, u, end) matches Parsed::Done(l, _) ==> l.wf(),
    decreases s.len() - end, 3int,
{
    reveal_with_fuel(LogicModel::wf, 4);
    let op = skip(s, end);
    if 0 <= end {
        match connective_at(s, op) {
            Parsed::Done(Connective::Assoc(c), _) => {
                lemma_operands_after_wf(s, end, c);
                if let Parsed::Done(rest, _) = operands_after(s, end, c) {
                    let all = seq![u] + rest;
                    assert forall|k: int| 0 <= k < all.len() implies (#[trigger] all[k]).wf() by {
                        if k > 0 {
                            assert(all[k] == rest[k - 1]);
                        }
                    }
                }
            },
            Parsed::Done(Connective::Nonassoc(c), after) => {
                let right = skip(s, after);
                if right < s.len() {
                    lemma_skip(s, end);
                    lemma_skip(s, after);
                    lemma_connective_within(s, op);
                    lemma_unit_wf(s, right);
                }
            },
            _ => {},
        }
    }
}

/// A formula that is read is well formed.
pub proof fn lemma_logic_wf(s: Seq<u8>, i: int)
    ensures
        logic_at(s, i) matches Parsed::Done(l, _) ==> l.wf(),
    decreases s.len() - i, 4int,
{
    lemma_unit_wf(s, i);
    if let Parsed::Done(u, end) = unit_at(s, i).beyond(i, s.len()) {
        lemma_continued_wf(s, u, end);
    }
}

/// No connective is read at a byte that ends a formula.
pub proof fn lemma_no_connective(s: Seq<u8>, e: int)
    requires
        0 <= e < s.len(),
        logic_stop(s[e]),
    ensures
        connective_at(s, e) is Malformed,
{
    reveal(connective_at);
}

/// A connective that does not chain is read back where its text stands in
/// front of a byte that does not make a longer connective of it.
pub proof fn lemma_connective_round_trip(op: NonassocConnective, s: Seq<u8>, i: int)
    requires
        occurs(s, i, op.text()),
        i + op.text().len() < s.len(),
        s[i + op.text().len()] != GREATER,
    ensures
        connective_at(s, i) == Parsed::Done(Connective::Nonassoc(op), i + op.text().len()),
        op.text().len() > 0,
        s[i] == EQUALS || s[i] == LESS || s[i] == TILDE,
        s[i] == EQUALS ==> s[i + 1] == GREATER,
{
    reveal(connective_at);
    reveal_strlit("=>");
    reveal_strlit("<=");
    reveal_strlit("<=>");
    reveal_strlit("<~>");
    reveal_strlit("~|");
    reveal_strlit("~&");
    let t = op.text();
    assert(s[i + 0] == t[0] as u8);
    assert(s[i + 1] == t[1] as u8);
    if t.len() > 2 {
        assert(s[i + 2] == t[2] as u8);
    }
}

/// Variables from the `k`th on are read back where their text stands in
/// front of a closing bracket.
pub proof fn lemma_variables_round_trip(bound: Seq<Seq<char>>, k: int, s: Seq<u8>, i: int)
    requires
        0 <= k < bound.len(),
        variables_wf(bound),
        occurs(s, i, joined(bound, ","@, k)),
        i + joined(bound, ","@, k).len() < s.len(),
        s[i + joined(bound, ","@, k).len()] == CLOSE_BRACKET,
    ensures
        variables_at(s, i) == Parsed::Done(
            bound.subrange(k, bound.len() as int),
            i + joined(bound, ","@, k).len(),
        ),
        upper(s[i]),
    decreases bound.len() - k,
{
    reveal_strlit(",");
    let comma = ","@;
    let v = bound[k];
    let end = i + v.len();
    if k == bound.len() - 1 {
        lemma_word_round_trip(v, true, s, i);
        assert(bound.subrange(k, bound.len() as int) =~= seq![v]);
    } else {
        let rest = joined(bound, comma, k + 1);
        lemma_occurs_split(s, i, v + comma, rest);
        lemma_occurs_split(s, i, v, comma);
        assert(s[end + 0] == comma[0] as u8);
        lemma_word_round_trip(v, true, s, i);
        lemma_variables_round_trip(bound, k + 1, s, end + 1);
        assert(bound.subrange(k, bound.len() as int) =~= seq![v] + bound.subrange(
            k + 1,
            bound.len() as int,
        ));
    }
}

/// A unit formula is read back where its text stands and the formula ends.
pub proof fn lemma_unit_round_trip(u: UnitModel, s: Seq<u8>, i: int)
    requires
        u.wf(),
        occurs(s, i, u.text()),
        formula_stop(s, i + u.text().len()),
    ensures
        unit_at(s, i) == Parsed::Done(u, i + u.text().len()),
        u.text().len() > 0,
        unit_start(s[i]),
    decreases u, 1int,
{
    match u {
        UnitModel::Unitary(x) => lemma_unitary_round_trip(x, s, i),
        UnitModel::Unary(x) => lemma_unary_round_trip(x, s, i),
    }
}

/// A quantified formula, an atomic formula or a formula in parentheses is
/// read back where its text stands and the formula ends.
pub proof fn lemma_unitary_round_trip(u: UnitaryModel, s: Seq<u8>, i: int)
    requires
        u.wf(),
        occurs(s, i, u.text()),
        formula_stop(s, i + u.text().len()),
    ensures
        unit_at(s, i) == Parsed::Done(UnitModel::Unitary(u), i + u.text().len()),
        u.text().len() > 0,
        unit_start(s[i]),
    decreases u, 0int,
{
    match u {
        UnitaryModel::Quantified(q) => {
            lemma_quantified_round_trip(q, s, i);
        },
        UnitaryModel::Atomic(a) => {
            lemma_term_led_round_trip(LiteralModel::Atomic(a), s, i, true, true);
        },
        UnitaryModel::Parenthesised(l) => {
            reveal_strlit("(");
            reveal_strlit(")");
            let open = "("@;
            let close = ")"@;
            let inner = l.text();
            lemma_occurs_split(s, i, open + inner, close);
            lemma_occurs_split(s, i, open, inner);
            assert(s[i + 0] == open[0] as u8);
            assert(s[i + 1 + inner.len() + 0] == close[0] as u8);
            lemma_logic_round_trip(*l, s, i + 1);
        },
    }
}

/// A negation or an inequation is read back where its text stands and the
/// formula ends.
pub proof fn lemma_unary_round_trip(u: UnaryModel, s: Seq<u8>, i: int)
    requires
        u.wf(),
        occurs(s, i, u.text()),
        formula_stop(s, i + u.text().len()),
    ensures
        unit_at(s, i) == Parsed::Done(UnitModel::Unary(u), i + u.text().len()),
        u.text().len() > 0,
        unit_start(s[i]),
    decreases u, 0int,
{
    match u {
        UnaryModel::Unary(inner) => {
            reveal_strlit("~");
            let sign = "~"@;
            lemma_occurs_split(s, i, sign, inner.text());
            assert(s[i + 0] == sign[0] as u8);
            lemma_unit_round_trip(*inner, s, i + 1);
        },
        UnaryModel::InfixUnary(x) => {
            lemma_term_led_round_trip(LiteralModel::Infix(x), s, i, true, true);
        },
    }
}

/// A quantified formula is read back where its text stands and the formula
/// ends.
pub proof fn lemma_quantified_round_trip(q: QuantifiedModel, s: Seq<u8>, i: int)
    requires
        q.wf(),
        occurs(s, i, q.text()),
        formula_stop(s, i + q.text().len()),
    ensures
        quantified_at(s, i) == Parsed::Done(q, i + q.text().len()),
        q.text().len() > 0,
        s[i] == BANG || s[i] == QUESTION,
    decreases q, 0int,
{
    reveal_strlit("!");
    reveal_strlit("?");
    reveal_strlit("[");
    reveal_strlit("]:");
    let sign = q.quantifier.text();
    let open = "["@;
    let close = "]:"@;
    let vars = join(q.bound, ","@);
    let body = q.formula.text();
    lemma_occurs_split(s, i, sign + open + vars + close, body);
    lemma_occurs_split(s, i, sign + open + vars, close);
    lemma_occurs_split(s, i, sign + open, vars);
    lemma_occurs_split(s, i, sign, open);
    assert(s[i + 0] == sign[0] as u8);
    assert(s[i + 1 + 0] == open[0] as u8);
    let end = i + 2 + vars.len();
    assert(s[end + 0] == close[0] as u8);
    assert(s[end + 1] == close[1] as u8);
    lemma_variables_round_trip(q.bound, 0, s, i + 2);
    lemma_unit_round_trip(*q.formula, s, end + 2);
    assert(q.bound.subrange(0, q.bound.len() as int) =~= q.bound);
}

/// The operands of a run from the `k`th on, each behind the connective, are
/// read back where their text stands in front of a byte that ends the
/// formula.
pub proof fn lemma_operands_after_round_trip(
    units: Seq<UnitModel>,
    k: int,
    c: AssocConnective,
    s: Seq<u8>,
    end: int,
)
    requires
        1 <= k <= units.len(),
        forall|j: int| 0 <= j < units.len() ==> (#[trigger] units[j]).wf(),
        occurs(s, end, remaining(unit_texts(units), c.text(), k)),
        end + remaining(unit_texts(units), c.text(), k).len() < s.len(),
        logic_stop(s[end + remaining(unit_texts(units), c.text(), k).len()]),
    ensures
        operands_after(s, end, c) == Parsed::Done(
            units.subrange(k, units.len() as int),
            end + remaining(unit_texts(units), c.text(), k).len(),
        ),
    decreases units, units.len() - k,
{
    reveal_strlit("&");
    reveal_strlit("|");
    let sep = c.text();
    let texts = unit_texts(units);
    if k == units.len() {
        assert(units.subrange(k, units.len() as int) =~= Seq::empty());
    } else {
        let u = units[k];
        let follows = remaining(texts, sep, k + 1);
        assert(remaining(texts, sep, k) =~= sep + u.text() + follows);
        lemma_occurs_split(s, end, sep + u.text(), follows);
        lemma_occurs_split(s, end, sep, u.text());
        assert(s[end + 0] == sep[0] as u8);
        let after = end + 1 + u.text().len();
        if k + 1 < units.len() {
            lemma_occurs_split(s, after, sep, joined(texts, sep, k + 1));
        }
        lemma_unit_round_trip(u, s, end + 1);
        lemma_operands_after_round_trip(units, k + 1, c, s, after);
        assert(units.subrange(k, units.len() as int) =~= seq![u] + units.subrange(
            k + 1,
            units.len() as int,
        ));
    }
}

/// A run of operands under an associative connective is read back where its
/// text stands in front of a byte that ends the formula.
pub proof fn lemma_assoc_round_trip(units: Seq<UnitModel>, c: AssocConnective, s: Seq<u8>, i: int)
    requires
        operands_wf(units),
        occurs(s, i, join(unit_texts(units), c.text())),
        i + join(unit_texts(units), c.text()).len() < s.len(),
        logic_stop(s[i + join(unit_texts(units), c.text()).len()]),
    ensures
        logic_at(s, i) == Parsed::Done(
            LogicModel::Binary(BinaryModel::Assoc(assoc(c, units))),
            i + join(unit_texts(units), c.text()).len(),
        ),
        unit_start(s[i]),
        join(unit_texts(units), c.text()).len() > 0,
    decreases units, units.len() + 1,
{
    reveal(connective_at);
    reveal_strlit("&");
    reveal_strlit("|");
    let sep = c.text();
    let texts = unit_texts(units);
    let u = units[0];
    let follows = remaining(texts, sep, 1);
    assert(join(texts, sep) =~= u.text() + follows);
    lemma_occurs_split(s, i, u.text(), follows);
    let end = i + u.text().len();
    lemma_occurs_split(s, end, sep, joined(texts, sep, 1));
    assert(s[end + 0] == sep[0] as u8);
    lemma_unit_round_trip(u, s, i);
    lemma_operands_after_round_trip(units, 1, c, s, end);
    assert(units =~= seq![u] + units.subrange(1, units.len() as int));
}

/// A formula of any shape is read back where its text stands in front of a
/// byte that ends it.
pub proof fn lemma_logic_round_trip(l: LogicModel, s: Seq<u8>, i: int)
    requires
        l.wf(),
        occurs(s, i, l.text()),
        i + l.text().len() < s.len(),
        logic_stop(s[i + l.text().len()]),
    ensures
        logic_at(s, i) == Parsed::Done(l, i + l.text().len()),
        l.text().len() > 0,
        unit_start(s[i]),
    decreases l, 0int,
{
    reveal_with_fuel(LogicModel::wf, 4);
    reveal_with_fuel(LogicModel::text, 4);
    let end = i + l.text().len();
    match l {
        LogicModel::Unitary(u) => {
            lemma_unitary_round_trip(u, s, i);
            lemma_no_connective(s, end);
        },
        LogicModel::Unary(u) => {
            lemma_unary_round_trip(u, s, i);
            lemma_no_connective(s, end);
        },
        LogicModel::Binary(BinaryModel::Assoc(AssocModel::And(units))) => {
            lemma_assoc_round_trip(units, AssocConnective::And, s, i);
        },
        LogicModel::Binary(BinaryModel::Assoc(AssocModel::Or(units))) => {
            lemma_assoc_round_trip(units, AssocConnective::Or, s, i);
        },
        LogicModel::Binary(BinaryModel::Nonassoc(n)) => {
            let left = n.left.text();
            let op = n.op.text();
            let right = n.right.text();
            lemma_occurs_split(s, i, left + op, right);
            lemma_occurs_split(s, i, left, op);
            let middle = i + left.len();
            let after = middle + op.len();
            lemma_unit_round_trip(*n.right, s, after);
            lemma_connective_round_trip(n.op, s, middle);
            lemma_unit_round_trip(*n.left, s, i);
        },
    }
}

} // verus!
