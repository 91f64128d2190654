use nom::branch::alt;
use nom::bytes::streaming::tag;
use nom::combinator::opt;
use nom::multi::separated_list1;
use nom::sequence::{delimited, pair, preceded, tuple};
use nom::{IResult, Needed};
use tptp::cnf::LiteralTail;
use tptp::fof::{plain_term, term};
use tptp::lexical::{dollar_word, skip_ignored};
use tptp::outcome::Outcome;
use tptp::syntax::{
    AtomicDefinedWord, CnfFormula, DefinedConstant, DefinedFunctor, DefinedInfixPred, Disjunction,
    FofAtomicFormula, FofDefinedAtomicFormula, FofDefinedPlainFormula, FofDefinedPlainTerm,
    FofFunctionTerm, FofPlainAtomicFormula, FofPlainTerm, FofTerm, InfixEquality,
    InfixInequality, Literal,
};

fn ignored(x: &[u8]) -> IResult<&[u8], ()> {
    let end = skip_ignored(x, 0);
    if end >= x.len() {
        Err(nom::Err::Incomplete(Needed::Unknown))
    } else {
        Ok((&x[end..], ()))
    }
}

fn result<'a, T>(x: &'a [u8], outcome: Outcome<T>) -> IResult<&'a [u8], T> {
    match outcome {
        Outcome::Complete(tree, end) => Ok((&x[end..], tree)),
        Outcome::Incomplete => Err(nom::Err::Incomplete(Needed::Unknown)),
        Outcome::Malformed(at, _) => {
            Err(nom::Err::Error(nom::error::Error::new(&x[at..], nom::error::ErrorKind::Alt)))
        }
    }
}

fn literal(x: &[u8]) -> IResult<&[u8], Literal<'_>> {
    result(x, Literal::parse(x))
}

fn a_term(x: &[u8]) -> IResult<&[u8], FofTerm<'_>> {
    result(x, term(x, 0))
}

fn a_plain_term(x: &[u8]) -> IResult<&[u8], FofPlainTerm<'_>> {
    result(x, plain_term(x, 0))
}

fn an_atomic_formula(x: &[u8]) -> IResult<&[u8], FofAtomicFormula<'_>> {
    result(x, FofAtomicFormula::parse(x))
}

fn a_defined_proposition(x: &[u8]) -> IResult<&[u8], FofDefinedAtomicFormula<'_>> {
    let (rest, word) = result(x, dollar_word(x, 0))?;
    let constant = DefinedConstant(DefinedFunctor(AtomicDefinedWord(word)));
    let term = FofDefinedPlainTerm(constant);
    Ok((rest, FofDefinedAtomicFormula::Plain(FofDefinedPlainFormula(term))))
}

fn a_tail(x: &[u8]) -> IResult<&[u8], LiteralTail<'_>> {
    preceded(
        ignored,
        alt((
            nom::combinator::map(pair(tag("="), preceded(ignored, a_term)), |(_, right)| {
                LiteralTail::Equal(DefinedInfixPred(InfixEquality), Box::new(right))
            }),
            nom::combinator::map(pair(tag("!="), preceded(ignored, a_term)), |(_, right)| {
                LiteralTail::NotEqual(InfixInequality, Box::new(right))
            }),
        )),
    )(x)
}

fn a_literal(x: &[u8]) -> IResult<&[u8], Literal<'_>> {
    alt((
        nom::combinator::map(
            preceded(pair(tag("~"), ignored), an_atomic_formula),
            Literal::NegatedAtomic,
        ),
        nom::combinator::map(pair(a_plain_term, opt(a_tail)), |(left, tail)| match tail {
            Some(tail) => tail.finish(FofTerm::Function(FofFunctionTerm::Plain(left))),
            None => Literal::Atomic(FofAtomicFormula::Plain(FofPlainAtomicFormula(left))),
        }),
        nom::combinator::map(pair(a_term, a_tail), |(left, tail)| tail.finish(left)),
        nom::combinator::map(a_defined_proposition, |f| {
            Literal::Atomic(FofAtomicFormula::Defined(f))
        }),
    ))(x)
}

fn disjunction(x: &[u8]) -> IResult<&[u8], Disjunction<'_>> {
    nom::combinator::map(
        separated_list1(tuple((ignored, tag("|"), ignored)), literal),
        Disjunction,
    )(x)
}

fn formula(x: &[u8]) -> IResult<&[u8], CnfFormula<'_>> {
    alt((
        nom::combinator::map(
            delimited(pair(tag("("), ignored), disjunction, pair(ignored, tag(")"))),
            CnfFormula::Parenthesised,
        ),
        nom::combinator::map(disjunction, CnfFormula::Disjunction),
    ))(x)
}

fn agree(x: &[u8]) {
    match (CnfFormula::parse(x), formula(x)) {
        (Outcome::Complete(ours, end), Ok((rest, theirs))) => {
            assert_eq!(ours, theirs, "tree of {:?}", x);
            assert_eq!(&x[end..], rest, "rest of {:?}", x);
        }
        (Outcome::Incomplete, Err(nom::Err::Incomplete(_))) => {}
        (Outcome::Malformed(_, _), Err(nom::Err::Error(_))) => {}
        (ours, theirs) => panic!("{:?}: {:?} against {:?}", x, ours, theirs),
    }
}

#[test]
fn clauses_as_the_combinators_read_them() {
    let inputs: Vec<&[u8]> = vec![
        b"p\0",
        b"p | ~q\0",
        b"p | ~q | r\0",
        b"( p )\0",
        b"(p|q)\0",
        b"( p | ~ q | X != f(Y) ) rest",
        b"p /* c */ | % d\n q , more",
        b"p | )\0",
        b"p | ~q | | r\0",
        b"p | ~ | r\0",
        b"p|q|\0",
        b"( p ;\0",
        b"( p | )\0",
        b"()\0",
        b"(\0",
        b"| p\0",
        b"~ ~ p\0",
        b"X = Y | Y != X | $true | ~ $$s(X)\0",
        b"$$s | p\0",
        b"p | $$s\0",
        b"",
        b"p",
        b"p ",
        b"p |",
        b"p | ",
        b"p | q",
        b"( p",
        b"( p ",
        b"(",
        b"( ",
        b"p | /* open",
        b"p = ",
        b"p = > q\0",
        b"p => q\0",
    ];
    for input in inputs {
        agree(input);
    }
}

fn agree_on_literal(x: &[u8]) {
    match (Literal::parse(x), a_literal(x)) {
        (Outcome::Complete(ours, end), Ok((rest, theirs))) => {
            assert_eq!(ours, theirs, "tree of {:?}", x);
            assert_eq!(&x[end..], rest, "rest of {:?}", x);
        }
        (Outcome::Incomplete, Err(nom::Err::Incomplete(_))) => {}
        (Outcome::Malformed(_, _), Err(nom::Err::Error(_))) => {}
        (ours, theirs) => panic!("{:?}: {:?} against {:?}", x, ours, theirs),
    }
}

#[test]
fn literals_as_the_combinators_read_them() {
    let inputs: Vec<&[u8]> = vec![
        b"p\0",
        b"~ p\0",
        b"~p(X) = c\0",
        b"~ c != X\0",
        b"f(X) = c\0",
        b"f(X) != g(Y, 'z')\0",
        b"f(X) /* c */ = % d\n c ,",
        b"X = Y\0",
        b"X != Y\0",
        b"X\0",
        b"X & p\0",
        b"12 = 3.5\0",
        b"\"d\" != -1/2\0",
        b"$true\0",
        b"$true )",
        b"$true = $false\0",
        b"$$s\0",
        b"$$s(a) = b\0",
        b"~ $$s(a)\0",
        b"p = )",
        b"p = > q\0",
        b"p => q\0",
        b"p ! q\0",
        b"p != )\0",
        b"f(X;\0",
        b"f() = c\0",
        b"~ ~ p\0",
        b"~ X\0",
        b"( p )\0",
        b"",
        b"~",
        b"~ ",
        b"p",
        b"p ",
        b"p =",
        b"p = ",
        b"p = q",
        b"p !",
        b"p !=",
        b"X",
        b"X ",
        b"$",
        b"$true",
        b"$true ",
        b"$$s ",
        b"f(X",
    ];
    for input in inputs {
        agree_on_literal(input);
    }
}
