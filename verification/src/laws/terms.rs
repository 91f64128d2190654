//! Terms: what is read is well formed, and what is well formed is read back.

use crate::ascii::{
    alnum, CLOSE_PAREN, COMMA, digit, DOLLAR, DOT, DOUBLE_QUOTE, lemma_occurs_split, lower, occurs,
    OPEN_PAREN, sign, SINGLE_QUOTE, solid, upper,
};
use crate::grammar::{
    arguments_at, atomic_word_at, dollar_dollar_word_at, function_term_at, plain_term_at,
    system_term_at, term_at, term_list_at,
};
use crate::laws::tokens::{
    lemma_atomic_word_round_trip, lemma_atomic_word_wf, lemma_dollar_words_wf,
    lemma_number_round_trip, lemma_number_wf, lemma_quoted_round_trip, lemma_quoted_wf,
    lemma_word_round_trip, lemma_word_wf,
};
use crate::lexical::{lemma_skip, skip};
use crate::model::{
    arguments_text, arguments_wf, DefinedTermModel, FofDefinedTermModel, FunctionTermModel,
    PlainTermModel, SystemTermModel, term_texts, TermModel,
};
use crate::outcome::Parsed;
use crate::text::{join, joined};
use vstd::prelude::*;

verus! {

/// A byte that a term can begin with.
pub open spec fn term_start(b: u8) -> bool {
    lower(b) || upper(b) || digit(b) || sign(b) || b == SINGLE_QUOTE || b == DOUBLE_QUOTE || b
        == DOLLAR
}

/// A byte that ends the term in front of it: it can neither continue a word
/// or a numeral, nor open an argument list, nor begin an ignorable span.
pub open spec fn term_stop(b: u8) -> bool {
    solid(b) && !alnum(b) && b != OPEN_PAREN && b != DOT
}

/// A term that is read is well formed.
pub proof fn lemma_term_wf(s: Seq<u8>, i: int)
    ensures
        term_at(s, i) matches Parsed::Done(t, end) ==> t.wf(),
    decreases s.len() - i, 5int,
{
    if 0 <= i < s.len() {
        if upper(s[i]) {
            lemma_word_wf(s, i, true);
        } else {
            lemma_function_term_wf(s, i);
        }
    }
}

/// A function term that is read is well formed.
pub proof fn lemma_function_term_wf(s: Seq<u8>, i: int)
    ensures
        function_term_at(s, i) matches Parsed::Done(t, end) ==> t.wf(),
    decreases s.len() - i, 4int,
{
    if 0 <= i < s.len() {
        if s[i] == DOLLAR {
            if i + 1 < s.len() {
                if s[i + 1] == DOLLAR {
                    lemma_system_term_wf(s, i);
                } else {
                    lemma_dollar_words_wf(s, i);
                }
            }
        } else if digit(s[i]) || sign(s[i]) {
            lemma_number_wf(s, i);
        } else if s[i] == DOUBLE_QUOTE {
            lemma_quoted_wf(s, i, DOUBLE_QUOTE);
        } else {
            lemma_plain_term_wf(s, i);
        }
    }
}

/// A plain term that is read is well formed.
pub proof fn lemma_plain_term_wf(s: Seq<u8>, i: int)
    ensures
        plain_term_at(s, i) matches Parsed::Done(t, end) ==> t.wf(),
    decreases s.len() - i, 3int,
{
    lemma_atomic_word_wf(s, i);
    if let Parsed::Done(_, end) = atomic_word_at(s, i).beyond(i, s.len()) {
        lemma_arguments_wf(s, end);
    }
}

/// A system term that is read is well formed.
pub proof fn lemma_system_term_wf(s: Seq<u8>, i: int)
    ensures
        system_term_at(s, i) matches Parsed::Done(t, end) ==> t.wf(),
    decreases s.len() - i, 3int,
{
    lemma_dollar_words_wf(s, i);
    if let Parsed::Done(_, end) = dollar_dollar_word_at(s, i).beyond(i, s.len()) {
        lemma_arguments_wf(s, end);
    }
}

/// Arguments that are read are one or more, and well formed.
pub proof fn lemma_arguments_wf(s: Seq<u8>, end: int)
    ensures
        arguments_at(s, end) matches Parsed::Done(Some(args), _) ==> arguments_wf(args),
    decreases s.len() - end, 2int,
{
    let open = skip(s, end);
    let first = skip(s, open + 1);
    if 0 <= end && open < s.len() && s[open] == OPEN_PAREN && first < s.len() {
        lemma_skip(s, end);
        lemma_skip(s, open + 1);
        lemma_term_list_wf(s, first);
    }
}

/// Terms that are read as a list are one or more, and well formed.
pub proof fn lemma_term_list_wf(s: Seq<u8>, i: int)
    ensures
        term_list_at(s, i) matches Parsed::Done(args, _) ==> arguments_wf(args),
    decreases s.len() - i, 6int,
{
    lemma_term_wf(s, i);
    if let Parsed::Done(t, end) = term_at(s, i).beyond(i, s.len()) {
        let comma = skip(s, end);
        let next = skip(s, comma + 1);
        if comma < s.len() && s[comma] == COMMA && next < s.len() {
            lemma_skip(s, end);
            lemma_skip(s, comma + 1);
            lemma_term_list_wf(s, next);
            if let Parsed::Done(rest, _) = term_list_at(s, next) {
                let args = seq![t] + rest;
                assert forall|k: int| 0 <= k < args.len() implies (#[trigger] args[k]).wf() by {
                    if k > 0 {
                        assert(args[k] == rest[k - 1]);
                    }
                }
            }
        }
    }
}

/// A term is read back where its text stands in front of a byte that ends
/// it.
pub proof fn lemma_term_round_trip(t: TermModel, s: Seq<u8>, i: int)
    requires
        t.wf(),
        occurs(s, i, t.text()),
        i + t.text().len() < s.len(),
        term_stop(s[i + t.text().len()]),
    ensures
        term_at(s, i) == Parsed::Done(t, i + t.text().len()),
        t.text().len() > 0,
        term_start(s[i]),
        t is Variable <==> upper(s[i]),
    decreases t, 0int,
{
    match t {
        TermModel::Variable(w) => {
            lemma_word_round_trip(w, true, s, i);
        },
        TermModel::Function(f) => {
            lemma_function_term_round_trip(f, s, i);
        },
    }
}

/// A function term is read back where its text stands in front of a byte
/// that ends it.
pub proof fn lemma_function_term_round_trip(f: FunctionTermModel, s: Seq<u8>, i: int)
    requires
        f.wf(),
        occurs(s, i, f.text()),
        i + f.text().len() < s.len(),
        term_stop(s[i + f.text().len()]),
    ensures
        function_term_at(s, i) == Parsed::Done(f, i + f.text().len()),
        f.text().len() > 0,
        term_start(s[i]),
        !upper(s[i]),
        f is Plain <==> lower(s[i]) || s[i] == SINGLE_QUOTE,
    decreases f, 0int,
{
    match f {
        FunctionTermModel::Plain(p) => {
            lemma_plain_term_round_trip(p, s, i);
        },
        FunctionTermModel::System(t) => {
            lemma_system_term_round_trip(t, s, i);
        },
        FunctionTermModel::Defined(FofDefinedTermModel::Atomic(w)) => {
            reveal_strlit("$");
            let dollar = "$"@;
            lemma_occurs_split(s, i, dollar, w);
            assert(s[i + 0] == dollar[0] as u8);
            lemma_word_round_trip(w, false, s, i + 1);
        },
        FunctionTermModel::Defined(FofDefinedTermModel::Defined(DefinedTermModel::Number(n))) => {
            let w = n.text();
            lemma_number_round_trip(n, s, i);
        },
        FunctionTermModel::Defined(FofDefinedTermModel::Defined(DefinedTermModel::Distinct(w))) => {
            reveal_strlit("\"");
            let quote = "\""@;
            lemma_occurs_split(s, i, quote + w, quote);
            lemma_occurs_split(s, i, quote, w);
            assert(s[i + 0] == quote[0] as u8);
            lemma_quoted_round_trip(w, DOUBLE_QUOTE, s, i);
        },
    }
}

/// A plain term is read back where its text stands in front of a byte that
/// ends it.
pub proof fn lemma_plain_term_round_trip(p: PlainTermModel, s: Seq<u8>, i: int)
    requires
        p.wf(),
        occurs(s, i, p.text()),
        i + p.text().len() < s.len(),
        term_stop(s[i + p.text().len()]),
    ensures
        plain_term_at(s, i) == Parsed::Done(p, i + p.text().len()),
        p.text().len() > 0,
        lower(s[i]) || s[i] == SINGLE_QUOTE,
    decreases p, 0int,
{
    match p {
        PlainTermModel::Constant(name) => {
            lemma_atomic_word_round_trip(name, s, i);
        },
        PlainTermModel::Function(name, args) => {
            lemma_occurs_split(s, i, name.text(), arguments_text(args));
            lemma_arguments_round_trip(args, s, i + name.text().len());
            lemma_atomic_word_round_trip(name, s, i);
        },
    }
}

/// A system term is read back where its text stands in front of a byte that
/// ends it.
pub proof fn lemma_system_term_round_trip(t: SystemTermModel, s: Seq<u8>, i: int)
    requires
        t.wf(),
        occurs(s, i, t.text()),
        i + t.text().len() < s.len(),
        term_stop(s[i + t.text().len()]),
    ensures
        system_term_at(s, i) == Parsed::Done(t, i + t.text().len()),
        t.text().len() > 0,
        s[i] == DOLLAR,
        s[i + 1] == DOLLAR,
    decreases t, 0int,
{
    reveal_strlit("$$");
    let dollars = "$$"@;
    match t {
        SystemTermModel::Constant(w) => {
            lemma_occurs_split(s, i, dollars, w);
            assert(s[i + 1] == dollars[1] as u8);
            lemma_word_round_trip(w, false, s, i + 2);
        },
        SystemTermModel::Function(w, args) => {
            lemma_occurs_split(s, i, dollars + w, arguments_text(args));
            lemma_occurs_split(s, i, dollars, w);
            assert(s[i + 0] == dollars[0] as u8);
            assert(s[i + 1] == dollars[1] as u8);
            lemma_arguments_round_trip(args, s, i + 2 + w.len());
            lemma_word_round_trip(w, false, s, i + 2);
        },
    }
}

/// Arguments are read back where their text stands.
pub proof fn lemma_arguments_round_trip(args: Seq<TermModel>, s: Seq<u8>, end: int)
    requires
        arguments_wf(args),
        occurs(s, end, arguments_text(args)),
    ensures
        arguments_at(s, end) == Parsed::Done(Some(args), end + arguments_text(args).len()),
        s[end] == OPEN_PAREN,
        arguments_text(args).len() > 0,
    decreases args, args.len() + 1,
{
    reveal_strlit("(");
    reveal_strlit(")");
    let open = "("@;
    let close = ")"@;
    let inner = join(term_texts(args), ","@);
    lemma_occurs_split(s, end, open + inner, close);
    lemma_occurs_split(s, end, open, inner);
    assert(s[end + 0] == open[0] as u8);
    assert(s[end + 1 + inner.len() + 0] == close[0] as u8);
    lemma_term_list_round_trip(args, 0, s, end + 1);
    assert(args.subrange(0, args.len() as int) =~= args);
}

/// The terms of a list from the `k`th on are read back where their text
/// stands in front of a closing parenthesis.
pub proof fn lemma_term_list_round_trip(args: Seq<TermModel>, k: int, s: Seq<u8>, i: int)
    requires
        0 <= k < args.len(),
        forall|j: int| 0 <= j < args.len() ==> (#[trigger] args[j]).wf(),
        occurs(s, i, joined(term_texts(args), ","@, k)),
        i + joined(term_texts(args), ","@, k).len() < s.len(),
        s[i + joined(term_texts(args), ","@, k).len()] == CLOSE_PAREN,
    ensures
        term_list_at(s, i) == Parsed::Done(
            args.subrange(k, args.len() as int),
            i + joined(term_texts(args), ","@, k).len(),
        ),
        term_start(s[i]),
    decreases args, args.len() - k,
{
    reveal_strlit(",");
    let comma = ","@;
    let texts = term_texts(args);
    let t = args[k];
    let end = i + t.text().len();
    if k == args.len() - 1 {
        lemma_term_round_trip(t, s, i);
        assert(args.subrange(k, args.len() as int) =~= seq![t]);
    } else {
        let rest = joined(texts, comma, k + 1);
        lemma_occurs_split(s, i, t.text() + comma, rest);
        lemma_occurs_split(s, i, t.text(), comma);
        assert(s[end + 0] == comma[0] as u8);
        lemma_term_round_trip(t, s, i);
        lemma_term_list_round_trip(args, k + 1, s, end + 1);
        assert(args.subrange(k, args.len() as int) =~= seq![t] + args.subrange(
            k + 1,
            args.len() as int,
        ));
    }
}

} // verus!
