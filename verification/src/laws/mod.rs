//! What holds of the reader and the printer together.
//!
//! The printer is a left inverse of the reader: the canonical text of a
//! well-formed tree, followed by a byte that ends it, is read back as that
//! tree, and nothing of what follows is consumed.  What the reader hands out
//! is well formed, so what was read can be written and read again, and gives
//! the same tree.
//!
//! The buffer that is read is a stream's beginning, so the text alone is not
//! enough: a reader that reaches the end of the buffer cannot know that the
//! last word is complete.  The laws therefore speak of the text with
//! something behind it, and ask of the first byte behind it only that it
//! does not continue the text.
//!
//! Reading on never changes what was decided: an outcome that is complete or
//! malformed stays the same whatever bytes arrive behind the buffer.

pub mod clauses;
pub mod formulas;
pub mod plain_text;
pub mod progress;
pub mod streaming;
pub mod terms;
pub mod tokens;

use crate::ascii::{bytes_of, NUL};
use crate::grammar::{cnf_formula_at, logic_at, term_at};
use crate::laws::clauses::{
    clause_stop, lemma_cnf_formula_round_trip, lemma_cnf_formula_wf, no_bare_system,
};
use crate::laws::formulas::{lemma_logic_round_trip, lemma_logic_wf, logic_stop};
use crate::laws::plain_text::{
    lemma_ascii_encoding, lemma_cnf_formula_ascii, lemma_logic_ascii, lemma_term_ascii,
};
use crate::laws::streaming::{lemma_cnf_formula_stable, lemma_logic_stable, lemma_term_stable};
use crate::laws::terms::{lemma_term_round_trip, lemma_term_wf, term_stop};
use crate::model::{CnfModel, LogicModel, TermModel};
use crate::outcome::Parsed;
use crate::syntax::{CnfFormula, FofFormula, FofTerm};
use vstd::prelude::*;
use vstd::utf8::encode_utf8;

verus! {

/// The canonical text as bytes, with `rest` behind it.
pub open spec fn written(text: Seq<char>, rest: Seq<u8>) -> Seq<u8> {
    bytes_of(text) + rest
}

/// Reading what was written of a well-formed term gives the term back, and
/// ends where its text ends.
pub proof fn lemma_term_read_back(t: TermModel, rest: Seq<u8>)
    requires
        t.wf(),
        rest.len() > 0,
        term_stop(rest[0]),
    ensures
        term_at(written(t.text(), rest), 0) == Parsed::Done(t, t.text().len() as int),
{
    let s = written(t.text(), rest);
    lemma_term_round_trip(t, s, 0);
}

/// Reading what was written of a well-formed formula gives the formula back,
/// and ends where its text ends.
pub proof fn lemma_formula_read_back(f: LogicModel, rest: Seq<u8>)
    requires
        f.wf(),
        rest.len() > 0,
        logic_stop(rest[0]),
    ensures
        logic_at(written(f.text(), rest), 0) == Parsed::Done(f, f.text().len() as int),
{
    let s = written(f.text(), rest);
    lemma_logic_round_trip(f, s, 0);
}

/// Reading what was written of a well-formed formula in clausal normal form
/// gives the formula back, and ends where its text ends, provided that none
/// of its literals is a system proposition that stands alone: such a literal
/// can be written, but the grammar of literals does not read it.
pub proof fn lemma_cnf_formula_read_back(c: CnfModel, rest: Seq<u8>)
    requires
        c.wf(),
        no_bare_system(c.literals()),
        rest.len() > 0,
        clause_stop(rest[0]),
    ensures
        cnf_formula_at(written(c.text(), rest), 0) == Parsed::Done(c, c.text().len() as int),
{
    let s = written(c.text(), rest);
    lemma_cnf_formula_round_trip(c, s, 0);
}

/// A term that was read is well formed, and what is written of it is read
/// back as the same term.
pub proof fn lemma_term_read_again(s: Seq<u8>, i: int, rest: Seq<u8>)
    requires
        term_at(s, i) is Done,
        rest.len() > 0,
        term_stop(rest[0]),
    ensures
        ({
            let t = term_at(s, i)->Done_0;
            t.wf() && term_at(written(t.text(), rest), 0) == Parsed::Done(
                t,
                t.text().len() as int,
            )
        }),
{
    lemma_term_wf(s, i);
    lemma_term_read_back(term_at(s, i)->Done_0, rest);
}

/// A formula that was read is well formed, and what is written of it is read
/// back as the same formula.
pub proof fn lemma_formula_read_again(s: Seq<u8>, i: int, rest: Seq<u8>)
    requires
        logic_at(s, i) is Done,
        rest.len() > 0,
        logic_stop(rest[0]),
    ensures
        ({
            let f = logic_at(s, i)->Done_0;
            f.wf() && logic_at(written(f.text(), rest), 0) == Parsed::Done(
                f,
                f.text().len() as int,
            )
        }),
{
    lemma_logic_wf(s, i);
    lemma_formula_read_back(logic_at(s, i)->Done_0, rest);
}

/// A formula in clausal normal form that was read is well formed, and what
/// is written of it is read back as the same formula.
pub proof fn lemma_cnf_formula_read_again(s: Seq<u8>, i: int, rest: Seq<u8>)
    requires
        cnf_formula_at(s, i) is Done,
        rest.len() > 0,
        clause_stop(rest[0]),
    ensures
        ({
            let c = cnf_formula_at(s, i)->Done_0;
            c.wf() && cnf_formula_at(written(c.text(), rest), 0) == Parsed::Done(
                c,
                c.text().len() as int,
            )
        }),
{
    lemma_cnf_formula_wf(s, i);
    lemma_cnf_formula_read_back(cnf_formula_at(s, i)->Done_0, rest);
}

/// The string that is written of a well-formed term, taken as the bytes of
/// its UTF-8 encoding and followed by a byte that ends a term, is read back as
/// that term.
pub proof fn lemma_term_string_read_back(t: FofTerm, rest: Seq<u8>)
    requires
        t.wf(),
        rest.len() > 0,
        term_stop(rest[0]),
    ensures
        term_at(encode_utf8(t.text()) + rest, 0) == Parsed::Done(t@, t.text().len() as int),
{
    lemma_term_ascii(t@);
    lemma_ascii_encoding(t.text());
    lemma_term_read_back(t@, rest);
}

/// The string that is written of a well-formed formula, taken as the bytes
/// of its UTF-8 encoding and followed by a byte that ends a formula, is read
/// back as that formula.
pub proof fn lemma_formula_string_read_back(f: FofFormula, rest: Seq<u8>)
    requires
        f.wf(),
        rest.len() > 0,
        logic_stop(rest[0]),
    ensures
        logic_at(encode_utf8(f.text()) + rest, 0) == Parsed::Done(f@, f.text().len() as int),
{
    lemma_logic_ascii(f@);
    lemma_ascii_encoding(f.text());
    lemma_formula_read_back(f@, rest);
}

/// The string that is written of a well-formed formula in clausal normal
/// form, taken as the bytes of its UTF-8 encoding and followed by a byte that
/// ends a clause, is read back as that formula, provided that none of its
/// literals is a system proposition that stands alone.
pub proof fn lemma_cnf_formula_string_read_back(c: CnfFormula, rest: Seq<u8>)
    requires
        c.wf(),
        no_bare_system(c@.literals()),
        rest.len() > 0,
        clause_stop(rest[0]),
    ensures
        cnf_formula_at(encode_utf8(c.text()) + rest, 0) == Parsed::Done(
            c@,
            c.text().len() as int,
        ),
{
    lemma_cnf_formula_ascii(c@);
    lemma_ascii_encoding(c.text());
    lemma_cnf_formula_read_back(c@, rest);
}

/// A term that is complete or malformed stays so, with the same tree, the
/// same end and the same offending byte, when more bytes arrive.
pub proof fn lemma_term_decided(s: Seq<u8>, i: int, more: Seq<u8>)
    requires
        !(term_at(s, i) is Incomplete),
    ensures
        term_at(s + more, i) == term_at(s, i),
{
    lemma_term_stable(s, s + more, i);
}

/// A formula that is complete or malformed stays so, with the same tree, the
/// same end and the same offending byte, when more bytes arrive.
pub proof fn lemma_formula_decided(s: Seq<u8>, i: int, more: Seq<u8>)
    requires
        !(logic_at(s, i) is Incomplete),
    ensures
        logic_at(s + more, i) == logic_at(s, i),
{
    lemma_logic_stable(s, s + more, i);
}

/// A formula in clausal normal form that is complete or malformed stays so,
/// with the same tree, the same end and the same offending byte, when more
/// bytes arrive.
pub proof fn lemma_cnf_formula_decided(s: Seq<u8>, i: int, more: Seq<u8>)
    requires
        !(cnf_formula_at(s, i) is Incomplete),
    ensures
        cnf_formula_at(s + more, i) == cnf_formula_at(s, i),
{
    lemma_cnf_formula_stable(s, s + more, i);
}

/// Two well-formed terms with the same canonical text are the same term.
pub proof fn lemma_term_text_injective(a: TermModel, b: TermModel)
    requires
        a.wf(),
        b.wf(),
        a.text() == b.text(),
    ensures
        a == b,
{
    let rest = seq![NUL];
    lemma_term_read_back(a, rest);
    lemma_term_read_back(b, rest);
}

/// Two well-formed formulas with the same canonical text are the same
/// formula.
pub proof fn lemma_formula_text_injective(a: LogicModel, b: LogicModel)
    requires
        a.wf(),
        b.wf(),
        a.text() == b.text(),
    ensures
        a == b,
{
    let rest = seq![NUL];
    lemma_formula_read_back(a, rest);
    lemma_formula_read_back(b, rest);
}

/// Two well-formed formulas in clausal normal form with the same canonical
/// text are the same formula, provided that no literal of either is a
/// system proposition that stands alone.
pub proof fn lemma_cnf_formula_text_injective(a: CnfModel, b: CnfModel)
    requires
        a.wf(),
        b.wf(),
        no_bare_system(a.literals()),
        no_bare_system(b.literals()),
        a.text() == b.text(),
    ensures
        a == b,
{
    let rest = seq![NUL];
    lemma_cnf_formula_read_back(a, rest);
    lemma_cnf_formula_read_back(b, rest);
}

} // verus!
