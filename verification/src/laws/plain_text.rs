//! The canonical text of a well-formed tree is ASCII, so its bytes are its
//! characters, one for one, and are its UTF-8 encoding.

use crate::ascii::bytes_of;
use crate::model::{
    arguments_text, arguments_wf, AssocModel, AtomicModel, AtomicWordModel, BinaryModel, CnfModel,
    DefinedAtomicModel, DefinedTermModel, FofDefinedTermModel, FunctionTermModel, InfixModel,
    literal_texts, LiteralModel, LogicModel, operands_wf, PlainTermModel, SystemTermModel,
    term_texts, TermModel, UnaryModel, unit_texts, UnitaryModel, UnitModel,
};
use crate::syntax::{AssocConnective, FofQuantifier, NonassocConnective};
use crate::text::{join, joined};
use vstd::prelude::*;
use vstd::utf8::{encode_utf8, is_ascii_chars, is_ascii_chars_encode_utf8};

verus! {

/// ASCII text behind ASCII text is ASCII text.
pub proof fn lemma_ascii_concat(a: Seq<char>, b: Seq<char>)
    requires
        is_ascii_chars(a),
        is_ascii_chars(b),
    ensures
        is_ascii_chars(a + b),
{
    let t = a + b;
    assert forall|k: int| 0 <= k < t.len() implies '\0' <= #[trigger] t[k] <= '\u{7f}' by {
        if k < a.len() {
            assert(t[k] == a[k]);
        } else {
            assert(t[k] == b[k - a.len()]);
        }
    }
}

/// The bytes of an ASCII text are its UTF-8 encoding.
pub proof fn lemma_ascii_encoding(t: Seq<char>)
    requires
        is_ascii_chars(t),
    ensures
        encode_utf8(t) == bytes_of(t),
{
    is_ascii_chars_encode_utf8(t);
}

/// The glyphs that the printer writes are ASCII.
pub proof fn lemma_glyphs_ascii()
    ensures
        is_ascii_chars("'"@),
        is_ascii_chars("\""@),
        is_ascii_chars("$"@),
        is_ascii_chars("$$"@),
        is_ascii_chars("("@),
        is_ascii_chars(")"@),
        is_ascii_chars(","@),
        is_ascii_chars("="@),
        is_ascii_chars("!="@),
        is_ascii_chars("~"@),
        is_ascii_chars("["@),
        is_ascii_chars("]:"@),
        is_ascii_chars("|"@),
        is_ascii_chars("&"@),
        forall|c: AssocConnective| is_ascii_chars(#[trigger] c.text()),
        forall|c: NonassocConnective| is_ascii_chars(#[trigger] c.text()),
        forall|q: FofQuantifier| is_ascii_chars(#[trigger] q.text()),
{
    reveal_strlit("'");
    reveal_strlit("\"");
    reveal_strlit("$");
    reveal_strlit("$$");
    reveal_strlit("(");
    reveal_strlit(")");
    reveal_strlit(",");
    reveal_strlit("=");
    reveal_strlit("!=");
    reveal_strlit("~");
    reveal_strlit("[");
    reveal_strlit("]:");
    reveal_strlit("|");
    reveal_strlit("&");
    reveal_strlit("=>");
    reveal_strlit("<=");
    reveal_strlit("<=>");
    reveal_strlit("<~>");
    reveal_strlit("~|");
    reveal_strlit("~&");
    reveal_strlit("!");
    reveal_strlit("?");
}

/// ASCII parts joined with an ASCII separator are ASCII text.
pub proof fn lemma_joined_ascii(parts: Seq<Seq<char>>, sep: Seq<char>, from: int)
    requires
        forall|k: int| 0 <= k < parts.len() ==> is_ascii_chars(#[trigger] parts[k]),
        is_ascii_chars(sep),
    ensures
        is_ascii_chars(joined(parts, sep, from)),
    decreases parts.len() - from,
{
    if 0 <= from < parts.len() - 1 {
        lemma_joined_ascii(parts, sep, from + 1);
    }
}

/// The text of a well-formed atomic word is ASCII.
pub proof fn lemma_atomic_word_ascii(w: AtomicWordModel)
    requires
        w.wf(),
    ensures
        is_ascii_chars(w.text()),
{
    lemma_glyphs_ascii();
    if let AtomicWordModel::SingleQuoted(inner) = w {
        lemma_ascii_concat("'"@, inner);
    }
}

/// The text of a well-formed term is ASCII.
pub proof fn lemma_term_ascii(t: TermModel)
    requires
        t.wf(),
    ensures
        is_ascii_chars(t.text()),
    decreases t, 0int,
{
    if let TermModel::Function(f) = t {
        lemma_function_term_ascii(f);
    }
}

/// The text of a well-formed function term is ASCII.
pub proof fn lemma_function_term_ascii(f: FunctionTermModel)
    requires
        f.wf(),
    ensures
        is_ascii_chars(f.text()),
    decreases f, 0int,
{
    lemma_glyphs_ascii();
    match f {
        FunctionTermModel::Plain(PlainTermModel::Constant(name)) => {
            lemma_atomic_word_ascii(name);
        },
        FunctionTermModel::Plain(PlainTermModel::Function(name, args)) => {
            lemma_arguments_ascii(args);
        },
        FunctionTermModel::System(SystemTermModel::Constant(w)) => {
            lemma_ascii_concat("$$"@, w);
        },
        FunctionTermModel::System(SystemTermModel::Function(w, args)) => {
            lemma_arguments_ascii(args);
        },
        FunctionTermModel::Defined(FofDefinedTermModel::Atomic(w)) => {
            lemma_ascii_concat("$"@, w);
        },
        FunctionTermModel::Defined(FofDefinedTermModel::Defined(DefinedTermModel::Number(n))) => {
        },
        FunctionTermModel::Defined(FofDefinedTermModel::Defined(DefinedTermModel::Distinct(w))) => {
            lemma_ascii_concat("\""@, w);
        },
    }
}

/// The text of a well-formed list of arguments is ASCII.
pub proof fn lemma_arguments_ascii(args: Seq<TermModel>)
    requires
        arguments_wf(args),
    ensures
        is_ascii_chars(arguments_text(args)),
    decreases args, 0int,
{
    lemma_glyphs_ascii();
    let texts = term_texts(args);
    assert forall|k: int| 0 <= k < texts.len() implies is_ascii_chars(#[trigger] texts[k]) by {
        lemma_term_ascii(args[k]);
    }
    lemma_joined_ascii(texts, ","@, 0);
}

/// The text of a well-formed atomic formula is ASCII.
pub proof fn lemma_atomic_ascii(a: AtomicModel)
    requires
        a.wf(),
    ensures
        is_ascii_chars(a.text()),
{
    lemma_glyphs_ascii();
    match a {
        AtomicModel::Plain(p) => lemma_function_term_ascii(FunctionTermModel::Plain(p)),
        AtomicModel::System(t) => lemma_function_term_ascii(FunctionTermModel::System(t)),
        AtomicModel::Defined(DefinedAtomicModel::Plain(w)) => {
            lemma_ascii_concat("$"@, w);
        },
        AtomicModel::Defined(DefinedAtomicModel::Infix(x)) => {
            lemma_term_ascii(x.left);
            lemma_term_ascii(x.right);
        },
    }
}

/// The text of a well-formed inequation is ASCII.
pub proof fn lemma_inequation_ascii(x: InfixModel)
    requires
        x.wf(),
    ensures
        is_ascii_chars(x.inequality_text()),
{
    lemma_glyphs_ascii();
    lemma_term_ascii(x.left);
    lemma_term_ascii(x.right);
}

/// The text of a well-formed literal is ASCII.
pub proof fn lemma_literal_ascii(l: LiteralModel)
    requires
        l.wf(),
    ensures
        is_ascii_chars(l.text()),
{
    lemma_glyphs_ascii();
    match l {
        LiteralModel::Atomic(a) => lemma_atomic_ascii(a),
        LiteralModel::NegatedAtomic(a) => {
            lemma_atomic_ascii(a);
        },
        LiteralModel::Infix(x) => lemma_inequation_ascii(x),
    }
}

/// The text of a well-formed formula in clausal normal form is ASCII.
pub proof fn lemma_cnf_formula_ascii(c: CnfModel)
    requires
        c.wf(),
    ensures
        is_ascii_chars(c.text()),
{
    lemma_glyphs_ascii();
    let d = c.literals();
    let texts = literal_texts(d);
    assert forall|k: int| 0 <= k < texts.len() implies is_ascii_chars(#[trigger] texts[k]) by {
        lemma_literal_ascii(d[k]);
    }
    lemma_joined_ascii(texts, "|"@, 0);
}

/// The text of a well-formed unit formula is ASCII.
pub proof fn lemma_unit_ascii(u: UnitModel)
    requires
        u.wf(),
    ensures
        is_ascii_chars(u.text()),
    decreases u, 1int,
{
    match u {
        UnitModel::Unitary(x) => lemma_unitary_ascii(x),
        UnitModel::Unary(x) => lemma_unary_ascii(x),
    }
}

/// The text of a well-formed quantified, atomic or parenthesised formula is ASCII.
pub proof fn lemma_unitary_ascii(u: UnitaryModel)
    requires
        u.wf(),
    ensures
        is_ascii_chars(u.text()),
    decreases u, 0int,
{
    lemma_glyphs_ascii();
    match u {
        UnitaryModel::Quantified(q) => {
            lemma_joined_ascii(q.bound, ","@, 0);
            lemma_unit_ascii(*q.formula);
        },
        UnitaryModel::Atomic(a) => lemma_atomic_ascii(a),
        UnitaryModel::Parenthesised(l) => {
            lemma_logic_ascii(*l);
        },
    }
}

/// The text of a well-formed negation or inequation is ASCII.
pub proof fn lemma_unary_ascii(u: UnaryModel)
    requires
        u.wf(),
    ensures
        is_ascii_chars(u.text()),
    decreases u, 0int,
{
    lemma_glyphs_ascii();
    match u {
        UnaryModel::Unary(inner) => {
            lemma_unit_ascii(*inner);
        },
        UnaryModel::InfixUnary(x) => lemma_inequation_ascii(x),
    }
}

/// The text of a run of well-formed operands under an ASCII connective is
/// ASCII.
pub proof fn lemma_operands_ascii(units: Seq<UnitModel>, sep: Seq<char>)
    requires
        operands_wf(units),
        is_ascii_chars(sep),
    ensures
        is_ascii_chars(join(unit_texts(units), sep)),
    decreases units, 0int,
{
    let texts = unit_texts(units);
    assert forall|k: int| 0 <= k < texts.len() implies is_ascii_chars(#[trigger] texts[k]) by {
        lemma_unit_ascii(units[k]);
    }
    lemma_joined_ascii(texts, sep, 0);
}

/// The text of a well-formed formula is ASCII.
pub proof fn lemma_logic_ascii(l: LogicModel)
    requires
        l.wf(),
    ensures
        is_ascii_chars(l.text()),
    decreases l, 0int,
{
    reveal_with_fuel(LogicModel::wf, 4);
    reveal_with_fuel(LogicModel::text, 4);
    lemma_glyphs_ascii();
    match l {
        LogicModel::Unitary(u) => lemma_unitary_ascii(u),
        LogicModel::Unary(u) => lemma_unary_ascii(u),
        LogicModel::Binary(BinaryModel::Assoc(AssocModel::And(units))) => {
            lemma_operands_ascii(units, "&"@);
        },
        LogicModel::Binary(BinaryModel::Assoc(AssocModel::Or(units))) => {
            lemma_operands_ascii(units, "|"@);
        },
        LogicModel::Binary(BinaryModel::Nonassoc(n)) => {
            lemma_unit_ascii(*n.left);
            lemma_unit_ascii(*n.right);
        },
    }
}

} // verus!
