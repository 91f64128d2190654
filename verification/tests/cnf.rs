use tptp::cnf::LiteralTail;
use tptp::outcome::{Expected, Outcome};
use tptp::syntax::{
    AtomicWord, CnfFormula, Constant, DefinedInfixPred, Disjunction, FofAtomicFormula,
    FofDefinedAtomicFormula, FofDefinedInfixFormula, FofFunctionTerm, FofInfixUnary,
    FofPlainAtomicFormula, FofPlainTerm, FofTerm, Functor, InfixEquality, InfixInequality,
    Literal, LowerWord, UpperWord, Variable,
};

fn check_size<T>() {
    assert!(std::mem::size_of::<T>() <= 64);
}

fn read_literal(bytes: &[u8]) -> Literal<'_> {
    match Literal::parse(bytes) {
        Outcome::Complete(literal, end) => {
            assert_eq!(&bytes[end..], b"\0");
            literal
        }
        other => panic!("not read: {:?}", other),
    }
}

fn read_disjunction(bytes: &[u8]) -> Disjunction<'_> {
    match Disjunction::parse(bytes) {
        Outcome::Complete(disjunction, end) => {
            assert_eq!(&bytes[end..], b"\0");
            disjunction
        }
        other => panic!("not read: {:?}", other),
    }
}

fn read_formula(bytes: &[u8]) -> CnfFormula<'_> {
    match CnfFormula::parse(bytes) {
        Outcome::Complete(formula, end) => {
            assert_eq!(&bytes[end..], b"\0");
            formula
        }
        other => panic!("not read: {:?}", other),
    }
}

fn parse_literal(bytes: &[u8]) {
    let parsed = read_literal(bytes);
    let mut text = parsed.to_string().into_bytes();
    text.push(0);
    assert_eq!(read_literal(&text), parsed);
}

fn parse_disjunction(bytes: &[u8]) {
    let parsed = read_disjunction(bytes);
    let mut text = parsed.to_string().into_bytes();
    text.push(0);
    assert_eq!(read_disjunction(&text), parsed);
}

fn parse_formula(bytes: &[u8]) {
    let parsed = read_formula(bytes);
    let mut text = parsed.to_string().into_bytes();
    text.push(0);
    assert_eq!(read_formula(&text), parsed);
}

#[test]
fn test_literal() {
    check_size::<Literal>();
    parse_literal(b"p\0");
    parse_literal(b"~ p\0");
    parse_literal(b"f(X) = c\0");
}

#[test]
fn test_disjunction() {
    check_size::<Disjunction>();
    parse_disjunction(b"p\0");
    parse_disjunction(b"p | ~q\0");
    parse_disjunction(b"p | ~q | r\0");
}

#[test]
fn test_cnf_formula() {
    check_size::<CnfFormula>();
    parse_formula(b"p\0");
    parse_formula(b"( p )\0");
    parse_formula(b"p | ~q\0");
}

fn word(name: &str) -> FofAtomicFormula<'_> {
    FofAtomicFormula::Plain(FofPlainAtomicFormula(FofPlainTerm::Constant(Constant(Functor(
        AtomicWord::Lower(LowerWord(name)),
    )))))
}

#[test]
fn clause_example() {
    assert_eq!(
        read_disjunction(b"p | ~q | r\0"),
        Disjunction(vec![
            Literal::Atomic(word("p")),
            Literal::NegatedAtomic(word("q")),
            Literal::Atomic(word("r")),
        ])
    );
    let bare = read_formula(b"p\0");
    let wrapped = read_formula(b"( p )\0");
    assert_eq!(bare, CnfFormula::Disjunction(Disjunction(vec![Literal::Atomic(word("p"))])));
    assert_eq!(wrapped, CnfFormula::Parenthesised(Disjunction(vec![Literal::Atomic(word("p"))])));
    assert_ne!(bare, wrapped);
    assert_eq!(bare.to_string(), "p");
    assert_eq!(wrapped.to_string(), "(p)");
}

#[test]
fn literal_kinds() {
    let c = || FofTerm::Function(FofFunctionTerm::Plain(FofPlainTerm::Constant(Constant(
        Functor(AtomicWord::Lower(LowerWord("c"))),
    ))));
    let x = || FofTerm::Variable(Variable(UpperWord("X")));
    assert_eq!(
        read_literal(b"X = c\0"),
        Literal::Atomic(FofAtomicFormula::Defined(FofDefinedAtomicFormula::Infix(
            FofDefinedInfixFormula {
                left: Box::new(x()),
                op: DefinedInfixPred(InfixEquality),
                right: Box::new(c()),
            }
        )))
    );
    assert_eq!(
        read_literal(b"c != X\0"),
        Literal::Infix(FofInfixUnary {
            left: Box::new(c()),
            op: InfixInequality,
            right: Box::new(x()),
        })
    );
    assert_eq!(read_literal(b"c != X\0").to_string(), "c!=X");
    assert_eq!(read_literal(b"~ c = X\0").to_string(), "~c=X");
    assert_eq!(read_literal(b"$true\0").to_string(), "$true");
}

#[test]
fn negated_inequation_is_no_literal() {
    let bytes = b"~ c != X\0";
    match Literal::parse(bytes) {
        Outcome::Complete(literal, end) => {
            assert_eq!(literal, Literal::NegatedAtomic(word("c")));
            assert_eq!(&bytes[end..], b" != X\0");
        }
        other => panic!("not read: {:?}", other),
    }
}

#[test]
fn system_proposition_alone_is_no_literal() {
    assert_eq!(Literal::parse(b"$$s\0"), Outcome::Malformed(3, Expected::Equality));
    assert_eq!(Literal::parse(b"$$s(a)\0"), Outcome::Malformed(6, Expected::Equality));
    assert_eq!(read_literal(b"~$$s(a)\0").to_string(), "~$$s(a)");
    assert_eq!(read_literal(b"$$s = a\0").to_string(), "$$s=a");
}

#[test]
fn a_literal_that_cannot_be_read_is_not_consumed() {
    assert_eq!(
        Disjunction::parse(b"p | )\0"),
        Outcome::Complete(Disjunction(vec![Literal::Atomic(word("p"))]), 1)
    );
    assert_eq!(
        Disjunction::parse(b"p | ~q | & r\0"),
        Outcome::Complete(
            Disjunction(vec![Literal::Atomic(word("p")), Literal::NegatedAtomic(word("q"))]),
            6
        )
    );
}

#[test]
fn duplicates_are_kept() {
    assert_eq!(
        read_disjunction(b"p | p | p\0"),
        Disjunction(vec![
            Literal::Atomic(word("p")),
            Literal::Atomic(word("p")),
            Literal::Atomic(word("p")),
        ])
    );
}

#[test]
fn clause_outcomes() {
    assert_eq!(CnfFormula::parse(b""), Outcome::Incomplete);
    assert_eq!(CnfFormula::parse(b"p"), Outcome::Incomplete);
    assert_eq!(CnfFormula::parse(b"p |"), Outcome::Incomplete);
    assert_eq!(CnfFormula::parse(b"( p"), Outcome::Incomplete);
    assert_eq!(CnfFormula::parse(b"( p ;\0"), Outcome::Malformed(4, Expected::CloseParen));
    assert_eq!(CnfFormula::parse(b"()\0"), Outcome::Malformed(1, Expected::Term));
    assert_eq!(CnfFormula::parse(b"& p\0"), Outcome::Malformed(0, Expected::Term));
    assert_eq!(Literal::parse(b"~ "), Outcome::Incomplete);
    assert_eq!(Literal::parse(b"X\0"), Outcome::Malformed(1, Expected::Equality));
}

#[test]
fn literal_tail() {
    let c = || FofTerm::Function(FofFunctionTerm::Plain(FofPlainTerm::Constant(Constant(
        Functor(AtomicWord::Lower(LowerWord("c"))),
    ))));
    let x = || FofTerm::Variable(Variable(UpperWord("X")));
    let bytes = b"X  = c\0";
    assert_eq!(
        LiteralTail::parse(bytes, 1, true),
        Outcome::Complete(LiteralTail::Equal(DefinedInfixPred(InfixEquality), Box::new(c())), 6)
    );
    assert_eq!(
        LiteralTail::parse(b"X != c\0", 1, true),
        Outcome::Complete(LiteralTail::NotEqual(InfixInequality, Box::new(c())), 6)
    );
    assert_eq!(
        LiteralTail::parse(b"X != c\0", 1, false),
        Outcome::Malformed(2, Expected::Equality)
    );
    assert_eq!(
        LiteralTail::parse(b"X ! c\0", 1, true),
        Outcome::Malformed(2, Expected::Equality)
    );
    assert_eq!(LiteralTail::parse(b"X =", 1, true), Outcome::Incomplete);
    assert_eq!(LiteralTail::parse(b"X", 9, true), Outcome::Incomplete);
    assert_eq!(LiteralTail::parse(b"X = )\0", 1, true), Outcome::Malformed(4, Expected::Term));
    assert_eq!(LiteralTail::parse_optional(b"X = )\0", 1, true), Outcome::Complete(None, 1));
    assert_eq!(LiteralTail::parse_optional(b"X & p\0", 1, true), Outcome::Complete(None, 1));
    let equal = LiteralTail::Equal(DefinedInfixPred(InfixEquality), Box::new(c()));
    assert_eq!(equal.finish(x()), read_literal(b"X = c\0"));
    let unequal = LiteralTail::NotEqual(InfixInequality, Box::new(c()));
    assert_eq!(unequal.finish(x()), read_literal(b"X != c\0"));
}

#[test]
fn clause_read_back_what_was_built() {
    let formula = CnfFormula::Parenthesised(Disjunction(vec![
        Literal::NegatedAtomic(word("p")),
        Literal::Atomic(word("q")),
        Literal::NegatedAtomic(word("p")),
    ]));
    assert_eq!(formula.to_string(), "(~p|q|~p)");
    let mut bytes = formula.to_string().into_bytes();
    bytes.push(0);
    assert_eq!(read_formula(&bytes), formula);
}

#[test]
fn clause_read_again_what_was_read() {
    let inputs: Vec<&[u8]> = vec![
        b"p | ~ q | X != f( Y ) | $false\0",
        b"( ~ $$s | 'it\\'s'(a) = \"b\" )\0",
        b"p /* note */ | % more\n q\0",
    ];
    for input in inputs {
        let first = read_formula(input);
        let mut bytes = first.to_string().into_bytes();
        bytes.push(0);
        assert_eq!(read_formula(&bytes), first);
    }
}
