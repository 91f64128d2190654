use tptp::fof::connective;
use tptp::outcome::{Expected, Outcome};
use tptp::syntax::{
    AssocConnective, AtomicDefinedWord, AtomicSystemWord, AtomicWord, Connective, Constant,
    DefinedConstant, DefinedFunctor, DefinedInfixPred, DefinedTerm, DistinctObject,
    DollarDollarWord, DollarWord, FofAndFormula, FofArguments, FofAtomicFormula, FofBinaryAssoc,
    FofBinaryFormula, FofBinaryNonassoc, FofDefinedAtomicFormula, FofDefinedAtomicTerm,
    FofDefinedInfixFormula, FofDefinedPlainFormula, FofDefinedPlainTerm, FofDefinedTerm, FofFormula,
    FofFunctionTerm, FofInfixUnary, FofLogicFormula, FofOrFormula, FofPlainAtomicFormula,
    FofPlainTerm, FofQuantifiedFormula, FofQuantifier, FofSystemAtomicFormula, FofSystemTerm,
    FofTerm, FofUnaryFormula, FofUnitFormula, FofUnitaryFormula, FofVariableList, Functor,
    InfixEquality, InfixInequality, Integer, LowerWord, NonassocConnective, Number, Rational, Real,
    SingleQuoted, SystemConstant, SystemFunctor, UnaryConnective, UpperWord, Variable,
};

fn constant(name: &str) -> FofTerm<'_> {
    FofTerm::Function(FofFunctionTerm::Plain(FofPlainTerm::Constant(Constant(Functor(
        AtomicWord::Lower(LowerWord(name)),
    )))))
}

fn variable(name: &str) -> FofTerm<'_> {
    FofTerm::Variable(Variable(UpperWord(name)))
}

fn function<'a>(name: &'a str, args: Vec<FofTerm<'a>>) -> FofTerm<'a> {
    FofTerm::Function(FofFunctionTerm::Plain(FofPlainTerm::Function(
        Functor(AtomicWord::Lower(LowerWord(name))),
        FofArguments(args),
    )))
}

fn proposition(name: &str) -> FofAtomicFormula<'_> {
    FofAtomicFormula::Plain(FofPlainAtomicFormula(FofPlainTerm::Constant(Constant(Functor(
        AtomicWord::Lower(LowerWord(name)),
    )))))
}

fn predicate<'a>(name: &'a str, args: Vec<FofTerm<'a>>) -> FofAtomicFormula<'a> {
    FofAtomicFormula::Plain(FofPlainAtomicFormula(FofPlainTerm::Function(
        Functor(AtomicWord::Lower(LowerWord(name))),
        FofArguments(args),
    )))
}

fn equation<'a>(left: FofTerm<'a>, right: FofTerm<'a>) -> FofAtomicFormula<'a> {
    FofAtomicFormula::Defined(FofDefinedAtomicFormula::Infix(FofDefinedInfixFormula {
        left: Box::new(left),
        op: DefinedInfixPred(InfixEquality),
        right: Box::new(right),
    }))
}

fn atom(a: FofAtomicFormula<'_>) -> FofUnitFormula<'_> {
    FofUnitFormula::Unitary(FofUnitaryFormula::Atomic(a))
}

fn unit(name: &str) -> FofUnitFormula<'_> {
    atom(proposition(name))
}

fn negation(u: FofUnitFormula<'_>) -> FofUnitFormula<'_> {
    FofUnitFormula::Unary(FofUnaryFormula::Unary(UnaryConnective, Box::new(u)))
}

fn inequation<'a>(left: FofTerm<'a>, right: FofTerm<'a>) -> FofUnitFormula<'a> {
    FofUnitFormula::Unary(FofUnaryFormula::InfixUnary(FofInfixUnary {
        left: Box::new(left),
        op: InfixInequality,
        right: Box::new(right),
    }))
}

fn parenthesised(l: FofLogicFormula<'_>) -> FofUnitFormula<'_> {
    FofUnitFormula::Unitary(FofUnitaryFormula::Parenthesised(Box::new(l)))
}

fn and(units: Vec<FofUnitFormula<'_>>) -> FofLogicFormula<'_> {
    FofLogicFormula::Binary(FofBinaryFormula::Assoc(FofBinaryAssoc::And(FofAndFormula(units))))
}

fn or(units: Vec<FofUnitFormula<'_>>) -> FofLogicFormula<'_> {
    FofLogicFormula::Binary(FofBinaryFormula::Assoc(FofBinaryAssoc::Or(FofOrFormula(units))))
}

fn nonassoc<'a>(
    left: FofUnitFormula<'a>,
    op: NonassocConnective,
    right: FofUnitFormula<'a>,
) -> FofLogicFormula<'a> {
    FofLogicFormula::Binary(FofBinaryFormula::Nonassoc(FofBinaryNonassoc {
        left: Box::new(left),
        op,
        right: Box::new(right),
    }))
}

fn quantified<'a>(
    quantifier: FofQuantifier,
    bound: Vec<&'a str>,
    formula: FofUnitFormula<'a>,
) -> FofUnitFormula<'a> {
    FofUnitFormula::Unitary(FofUnitaryFormula::Quantified(FofQuantifiedFormula {
        quantifier,
        bound: FofVariableList(bound.into_iter().map(|v| Variable(UpperWord(v))).collect()),
        formula: Box::new(formula),
    }))
}

fn read_term(bytes: &[u8]) -> FofTerm<'_> {
    match FofTerm::parse(bytes) {
        Outcome::Complete(term, end) => {
            assert_eq!(&bytes[end..], b"\0");
            term
        }
        other => panic!("not read: {:?}", other),
    }
}

fn read_formula(bytes: &[u8]) -> FofLogicFormula<'_> {
    match FofLogicFormula::parse(bytes) {
        Outcome::Complete(formula, end) => {
            assert_eq!(&bytes[end..], b"\0");
            formula
        }
        other => panic!("not read: {:?}", other),
    }
}

fn written(text: String) -> Vec<u8> {
    let mut bytes = text.into_bytes();
    bytes.push(0);
    bytes
}

fn read_back(formula: &FofLogicFormula<'_>, text: &str) {
    assert_eq!(formula.to_string(), text);
    let bytes = written(formula.to_string());
    assert_eq!(&read_formula(&bytes), formula);
}

#[test]
fn term_constant() {
    assert_eq!(read_term(b"c\0"), constant("c"));
}

#[test]
fn term_variable() {
    assert_eq!(read_term(b"X_1\0"), variable("X_1"));
}

#[test]
fn term_function() {
    assert_eq!(
        read_term(b"f(X, g(c) ,Y)\0"),
        function("f", vec![variable("X"), function("g", vec![constant("c")]), variable("Y")])
    );
}

#[test]
fn term_function_with_blank_before_arguments() {
    assert_eq!(read_term(b"f (X)\0"), function("f", vec![variable("X")]));
}

#[test]
fn term_single_quoted_functor() {
    let expected = FofTerm::Function(FofFunctionTerm::Plain(FofPlainTerm::Function(
        Functor(AtomicWord::SingleQuoted(SingleQuoted("a b\\'c"))),
        FofArguments(vec![variable("X")]),
    )));
    assert_eq!(read_term(b"'a b\\'c'(X)\0"), expected);
    assert_eq!(expected.to_string(), "'a b\\'c'(X)");
}

#[test]
fn term_defined_constant() {
    let expected = FofTerm::Function(FofFunctionTerm::Defined(FofDefinedTerm::Atomic(
        FofDefinedAtomicTerm(FofDefinedPlainTerm(DefinedConstant(DefinedFunctor(
            AtomicDefinedWord(DollarWord(LowerWord("c"))),
        )))),
    )));
    assert_eq!(read_term(b"$c\0"), expected);
    assert_eq!(expected.to_string(), "$c");
}

#[test]
fn term_system() {
    let name = SystemFunctor(AtomicSystemWord(DollarDollarWord(LowerWord("sys"))));
    let expected = FofTerm::Function(FofFunctionTerm::System(FofSystemTerm::Function(
        name,
        FofArguments(vec![constant("a")]),
    )));
    assert_eq!(read_term(b"$$sys(a)\0"), expected);
    assert_eq!(expected.to_string(), "$$sys(a)");
    let bare = FofTerm::Function(FofFunctionTerm::System(FofSystemTerm::Constant(
        SystemConstant(SystemFunctor(AtomicSystemWord(DollarDollarWord(LowerWord("sys"))))),
    )));
    assert_eq!(read_term(b"$$sys\0"), bare);
}

#[test]
fn term_numbers() {
    let number = |n| FofTerm::Function(FofFunctionTerm::Defined(FofDefinedTerm::Defined(
        DefinedTerm::Number(n),
    )));
    assert_eq!(read_term(b"123\0"), number(Number::Integer(Integer("123"))));
    assert_eq!(read_term(b"-0\0"), number(Number::Integer(Integer("-0"))));
    assert_eq!(read_term(b"+12/5\0"), number(Number::Rational(Rational("+12/5"))));
    assert_eq!(read_term(b"1.50\0"), number(Number::Real(Real("1.50"))));
    assert_eq!(read_term(b"-1.5E-10\0"), number(Number::Real(Real("-1.5E-10"))));
    assert_eq!(read_term(b"2e3\0"), number(Number::Real(Real("2e3"))));
}

#[test]
fn term_distinct_object() {
    let expected = FofTerm::Function(FofFunctionTerm::Defined(FofDefinedTerm::Defined(
        DefinedTerm::Distinct(DistinctObject("an \\\"object\\\"")),
    )));
    assert_eq!(read_term(b"\"an \\\"object\\\"\"\0"), expected);
    assert_eq!(expected.to_string(), "\"an \\\"object\\\"\"");
    let empty = FofTerm::Function(FofFunctionTerm::Defined(FofDefinedTerm::Defined(
        DefinedTerm::Distinct(DistinctObject("")),
    )));
    assert_eq!(read_term(b"\"\"\0"), empty);
}

#[test]
fn arity_collapse() {
    assert_eq!(FofTerm::parse(b"f()\0"), Outcome::Malformed(2, Expected::Term));
    assert_eq!(read_term(b"f\0"), constant("f"));
    assert_eq!(constant("f").to_string(), "f");
    assert_eq!(function("f", vec![]).to_string(), "f");
}

#[test]
fn argument_list_must_be_closed() {
    assert_eq!(FofTerm::parse(b"f(X;\0"), Outcome::Malformed(3, Expected::CloseParen));
    assert_eq!(FofTerm::parse(b"f(X,)\0"), Outcome::Malformed(4, Expected::Term));
    assert_eq!(FofTerm::parse(b"f(X Y)\0"), Outcome::Malformed(4, Expected::CloseParen));
}

#[test]
fn streaming() {
    assert_eq!(FofTerm::parse(b"f(X"), Outcome::Incomplete);
    assert_eq!(read_term(b"f(X)\0"), function("f", vec![variable("X")]));
}

#[test]
fn incomplete_inputs() {
    assert_eq!(FofTerm::parse(b""), Outcome::Incomplete);
    assert_eq!(FofTerm::parse(b"f"), Outcome::Incomplete);
    assert_eq!(FofTerm::parse(b"f("), Outcome::Incomplete);
    assert_eq!(FofTerm::parse(b"f(X,"), Outcome::Incomplete);
    assert_eq!(FofTerm::parse(b"f(X)"), Outcome::Complete(function("f", vec![variable("X")]), 4));
    assert_eq!(FofTerm::parse(b"$"), Outcome::Incomplete);
    assert_eq!(FofTerm::parse(b"'abc"), Outcome::Incomplete);
    assert_eq!(FofTerm::parse(b"12"), Outcome::Incomplete);
    assert_eq!(FofTerm::parse(b"12."), Outcome::Incomplete);
    assert_eq!(FofLogicFormula::parse(b"p"), Outcome::Incomplete);
    assert_eq!(FofLogicFormula::parse(b"p "), Outcome::Incomplete);
    assert_eq!(FofLogicFormula::parse(b"p &"), Outcome::Incomplete);
    assert_eq!(FofLogicFormula::parse(b"p <="), Outcome::Incomplete);
    assert_eq!(FofLogicFormula::parse(b"p ="), Outcome::Incomplete);
    assert_eq!(FofLogicFormula::parse(b"(p"), Outcome::Incomplete);
    assert_eq!(FofLogicFormula::parse(b"![X"), Outcome::Incomplete);
    assert_eq!(FofLogicFormula::parse(b"p /* open"), Outcome::Incomplete);
    assert_eq!(FofLogicFormula::parse(b"p % open"), Outcome::Incomplete);
}

#[test]
fn malformed_inputs() {
    assert_eq!(FofTerm::parse(b")\0"), Outcome::Malformed(0, Expected::Term));
    assert_eq!(FofTerm::parse(b"''\0"), Outcome::Malformed(1, Expected::QuotedChar));
    assert_eq!(FofTerm::parse(b"'a\\b'\0"), Outcome::Malformed(3, Expected::Escape));
    assert_eq!(FofTerm::parse(b"$1\0"), Outcome::Malformed(1, Expected::Lower));
    assert_eq!(FofTerm::parse(b"$$1\0"), Outcome::Malformed(2, Expected::Lower));
    assert_eq!(FofTerm::parse(b"+a\0"), Outcome::Malformed(1, Expected::Digit));
    assert_eq!(FofLogicFormula::parse(b"X\0"), Outcome::Malformed(1, Expected::Equality));
    assert_eq!(FofLogicFormula::parse(b"12 & p\0"), Outcome::Malformed(3, Expected::Equality));
    assert_eq!(FofLogicFormula::parse(b"(p q)\0"), Outcome::Malformed(3, Expected::CloseParen));
    assert_eq!(FofLogicFormula::parse(b"(p => )\0"), Outcome::Malformed(3, Expected::CloseParen));
    assert_eq!(FofLogicFormula::parse(b"![]:p\0"), Outcome::Malformed(2, Expected::Upper));
    assert_eq!(FofLogicFormula::parse(b"![X]p\0"), Outcome::Malformed(4, Expected::Colon));
    assert_eq!(FofLogicFormula::parse(b"!X:p\0"), Outcome::Malformed(1, Expected::OpenBracket));
    assert_eq!(FofLogicFormula::parse(b"~ &\0"), Outcome::Malformed(2, Expected::Term));
}

#[test]
fn flattening() {
    assert_eq!(read_formula(b"a & b & c\0"), and(vec![unit("a"), unit("b"), unit("c")]));
    assert_eq!(
        read_formula(b"a & (b & c)\0"),
        and(vec![unit("a"), parenthesised(and(vec![unit("b"), unit("c")]))])
    );
    assert_eq!(read_formula(b"a | b | c | d\0"), or(vec![
        unit("a"),
        unit("b"),
        unit("c"),
        unit("d")
    ]));
}

#[test]
fn non_chaining() {
    let bytes = b"a => b => c\0";
    assert_eq!(
        FofLogicFormula::parse(bytes),
        Outcome::Complete(nonassoc(unit("a"), NonassocConnective::LRImplies, unit("b")), 6)
    );
    assert_eq!(&bytes[6..], b" => c\0");
}

#[test]
fn a_run_ends_at_another_connective() {
    assert_eq!(
        FofLogicFormula::parse(b"a | b => c\0"),
        Outcome::Complete(or(vec![unit("a"), unit("b")]), 5)
    );
    assert_eq!(
        FofLogicFormula::parse(b"a & b | c\0"),
        Outcome::Complete(and(vec![unit("a"), unit("b")]), 5)
    );
    assert_eq!(
        FofLogicFormula::parse(b"a => b | c\0"),
        Outcome::Complete(nonassoc(unit("a"), NonassocConnective::LRImplies, unit("b")), 6)
    );
}

#[test]
fn an_operand_that_cannot_be_read_is_not_consumed() {
    assert_eq!(
        FofLogicFormula::parse(b"a & )\0"),
        Outcome::Complete(FofLogicFormula::Unitary(FofUnitaryFormula::Atomic(proposition("a"))), 1)
    );
    assert_eq!(
        FofLogicFormula::parse(b"a & b & )\0"),
        Outcome::Complete(and(vec![unit("a"), unit("b")]), 5)
    );
    assert_eq!(
        FofLogicFormula::parse(b"a <=> )\0"),
        Outcome::Complete(FofLogicFormula::Unitary(FofUnitaryFormula::Atomic(proposition("a"))), 1)
    );
    assert_eq!(
        FofLogicFormula::parse(b"a = )\0"),
        Outcome::Complete(FofLogicFormula::Unitary(FofUnitaryFormula::Atomic(proposition("a"))), 1)
    );
}

#[test]
fn negation_distinctness() {
    assert_eq!(
        read_formula(b"~~p\0"),
        FofLogicFormula::Unary(FofUnaryFormula::Unary(
            UnaryConnective,
            Box::new(negation(unit("p")))
        ))
    );
    let unequal = read_formula(b"p != q\0");
    let not_equal = read_formula(b"~(p = q)\0");
    assert_ne!(unequal, not_equal);
    assert_eq!(
        unequal,
        FofLogicFormula::Unary(FofUnaryFormula::InfixUnary(FofInfixUnary {
            left: Box::new(constant("p")),
            op: InfixInequality,
            right: Box::new(constant("q")),
        }))
    );
    assert_eq!(
        not_equal,
        FofLogicFormula::Unary(FofUnaryFormula::Unary(
            UnaryConnective,
            Box::new(parenthesised(FofLogicFormula::Unitary(FofUnitaryFormula::Atomic(
                equation(constant("p"), constant("q"))
            ))))
        ))
    );
    assert_eq!(unequal.to_string(), "p!=q");
    assert_eq!(not_equal.to_string(), "~(p=q)");
}

#[test]
fn nonassoc_connectives() {
    let cases: Vec<(&[u8], NonassocConnective, &str)> = vec![
        (b"p => q\0", NonassocConnective::LRImplies, "p=>q"),
        (b"p <= q\0", NonassocConnective::RLImplies, "p<=q"),
        (b"p <=> q\0", NonassocConnective::Equivalent, "p<=>q"),
        (b"p <~> q\0", NonassocConnective::NotEquivalent, "p<~>q"),
        (b"p ~| q\0", NonassocConnective::NotOr, "p~|q"),
        (b"p ~& q\0", NonassocConnective::NotAnd, "p~&q"),
    ];
    for (bytes, op, text) in cases {
        let formula = read_formula(bytes);
        assert_eq!(formula, nonassoc(unit("p"), op, unit("q")));
        read_back(&formula, text);
    }
}

#[test]
fn or_with_negated_operand_is_no_not_or() {
    assert_eq!(read_formula(b"p|~q\0"), or(vec![unit("p"), negation(unit("q"))]));
    assert_eq!(
        read_formula(b"p~|q\0"),
        nonassoc(unit("p"), NonassocConnective::NotOr, unit("q"))
    );
}

#[test]
fn quantified_formulas() {
    let formula = read_formula(b"! [X, Y] : p(X,Y)\0");
    assert_eq!(
        formula,
        FofLogicFormula::Unitary(FofUnitaryFormula::Quantified(FofQuantifiedFormula {
            quantifier: FofQuantifier::Forall,
            bound: FofVariableList(vec![Variable(UpperWord("X")), Variable(UpperWord("Y"))]),
            formula: Box::new(atom(predicate("p", vec![variable("X"), variable("Y")]))),
        }))
    );
    read_back(&formula, "![X,Y]:p(X,Y)");
    let nested = read_formula(b"?[X]:![Y]:~X=Y\0");
    read_back(&nested, "?[X]:![Y]:~X=Y");
}

#[test]
fn a_quantifier_binds_tighter_than_a_connective() {
    assert_eq!(
        read_formula(b"![X]:p(X) & q\0"),
        and(vec![
            quantified(FofQuantifier::Forall, vec!["X"], atom(predicate("p", vec![variable("X")]))),
            unit("q")
        ])
    );
    assert_eq!(
        read_formula(b"~p => q\0"),
        nonassoc(negation(unit("p")), NonassocConnective::LRImplies, unit("q"))
    );
}

#[test]
fn atomic_formulas() {
    let defined = FofAtomicFormula::Defined(FofDefinedAtomicFormula::Plain(
        FofDefinedPlainFormula(FofDefinedPlainTerm(DefinedConstant(DefinedFunctor(
            AtomicDefinedWord(DollarWord(LowerWord("true"))),
        )))),
    ));
    assert_eq!(FofAtomicFormula::parse(b"$true\0"), Outcome::Complete(defined, 5));
    let system = FofAtomicFormula::System(FofSystemAtomicFormula(FofSystemTerm::Constant(
        SystemConstant(SystemFunctor(AtomicSystemWord(DollarDollarWord(LowerWord("p"))))),
    )));
    assert_eq!(FofAtomicFormula::parse(b"$$p\0"), Outcome::Complete(system, 3));
    assert_eq!(
        FofAtomicFormula::parse(b"X = f(Y)\0"),
        Outcome::Complete(equation(variable("X"), function("f", vec![variable("Y")])), 8)
    );
    assert_eq!(
        FofAtomicFormula::parse(b"p != q\0"),
        Outcome::Complete(proposition("p"), 1)
    );
    assert_eq!(
        FofAtomicFormula::parse(b"X != q\0"),
        Outcome::Malformed(2, Expected::Equality)
    );
}

#[test]
fn equation_before_implication() {
    assert_eq!(
        read_formula(b"a=b=>c\0"),
        nonassoc(
            atom(equation(constant("a"), constant("b"))),
            NonassocConnective::LRImplies,
            unit("c")
        )
    );
    assert_eq!(
        read_formula(b"a=>b=c\0"),
        nonassoc(
            unit("a"),
            NonassocConnective::LRImplies,
            atom(equation(constant("b"), constant("c")))
        )
    );
    assert_eq!(
        read_formula(b"X!=Y<=a\0"),
        nonassoc(
            inequation(variable("X"), variable("Y")),
            NonassocConnective::RLImplies,
            unit("a")
        )
    );
}

#[test]
fn ignorable_spans() {
    let expected = and(vec![unit("p"), unit("q")]);
    assert_eq!(read_formula(b"p % a comment\n & q\0"), expected);
    assert_eq!(read_formula(b"p /* a * comment */&/**/q\0"), expected);
    assert_eq!(read_formula(b"p\t&\r\n q\0"), expected);
    assert_eq!(FofLogicFormula::parse(b"p / q\0"), Outcome::Complete(
        FofLogicFormula::Unitary(FofUnitaryFormula::Atomic(proposition("p"))),
        1
    ));
}

#[test]
fn canonical_text_has_no_blanks() {
    let formula = read_formula(b"! [ X ] : ( p ( X ) => ( q & ~ r & s ) )\0");
    assert_eq!(formula.to_string(), "![X]:(p(X)=>(q&~r&s))");
}

#[test]
fn mixed_connectives_in_parentheses() {
    assert_eq!(
        FofLogicFormula::parse(b"( q & ~ r | s )\0"),
        Outcome::Malformed(10, Expected::CloseParen)
    );
    let formula = read_formula(b"(q & ~r) | s\0");
    read_back(&formula, "(q&~r)|s");
}

#[test]
fn read_back_what_was_built() {
    let formula = nonassoc(
        quantified(
            FofQuantifier::Exists,
            vec!["X", "Y"],
            parenthesised(or(vec![
                atom(equation(variable("X"), function("f", vec![variable("Y"), constant("c")]))),
                inequation(constant("a"), variable("X")),
                negation(negation(unit("p"))),
            ])),
        ),
        NonassocConnective::NotEquivalent,
        parenthesised(and(vec![unit("q"), unit("r")])),
    );
    read_back(&formula, "?[X,Y]:(X=f(Y,c)|a!=X|~~p)<~>(q&r)");
}

#[test]
fn read_again_what_was_read() {
    let inputs: Vec<&[u8]> = vec![
        b"p\0",
        b"~ p\0",
        b"f(X) = c\0",
        b"( p | q ) & ~ ( r => $false )\0",
        b"! [X] : ? [Y] : ( 'a b'(X) != \"d\" | $$s(Y, 12.5) )\0",
        b"1/3 = -4 <=> $$t\0",
    ];
    for input in inputs {
        let first = read_formula(input);
        let bytes = written(first.to_string());
        let second = read_formula(&bytes);
        assert_eq!(first, second);
        assert_eq!(first.to_string(), second.to_string());
    }
}

#[test]
fn fof_formula() {
    let bytes = b"p & q\0";
    match FofFormula::parse(bytes) {
        Outcome::Complete(formula, end) => {
            assert_eq!(end, 5);
            assert_eq!(formula, FofFormula(and(vec![unit("p"), unit("q")])));
            assert_eq!(formula.to_string(), "p&q");
        }
        other => panic!("not read: {:?}", other),
    }
}

#[test]
fn what_follows_is_left_alone() {
    let bytes = b"p(X) & q , rest";
    match FofLogicFormula::parse(bytes) {
        Outcome::Complete(_, end) => assert_eq!(&bytes[end..], b" , rest"),
        other => panic!("not read: {:?}", other),
    }
    let bytes = b"f(X)). more";
    match FofTerm::parse(bytes) {
        Outcome::Complete(_, end) => assert_eq!(&bytes[end..], b"). more"),
        other => panic!("not read: {:?}", other),
    }
}

#[test]
fn copies_of_formulas_are_equal() {
    let inputs: Vec<&[u8]> = vec![
        b"f(X, g('q', \"d\", 1.5, $c, $$s(Y)))\0",
        b"![X, Y]: (p(X) <=> ~ q(Y)) | (a = b & c != d) | $$t\0",
    ];
    let term = read_term(inputs[0]);
    assert_eq!(term.clone(), term);
    let formula = read_formula(inputs[1]);
    assert_eq!(formula.clone(), formula);
    assert_eq!(formula.clone().to_string(), formula.to_string());
}

#[test]
fn what_was_expected() {
    let cases: Vec<(&[u8], usize, Expected)> = vec![
        (b"p(x\0", 3, Expected::CloseParen),
        (b"?(X):p\0", 1, Expected::OpenBracket),
        (b"![X,y]:p\0", 4, Expected::Upper),
        (b"![X;Y]:p\0", 3, Expected::CloseBracket),
        (b"![X] p\0", 5, Expected::Colon),
        (b"\"a\x01\"\0", 2, Expected::QuotedChar),
        (b"'a\\x'\0", 3, Expected::Escape),
        (b"f(-x)\0", 3, Expected::Digit),
        (b"f($$X)\0", 4, Expected::Lower),
        (b"f(#)\0", 2, Expected::Term),
        (b"\"d\" & p\0", 4, Expected::Equality),
        (b"((p)\0", 4, Expected::CloseParen),
    ];
    for (bytes, at, what) in cases {
        assert_eq!(FofLogicFormula::parse(bytes), Outcome::Malformed(at, what));
    }
}

#[test]
fn connectives() {
    use_connective(b"&x", Outcome::Complete(Connective::Assoc(AssocConnective::And), 1));
    use_connective(b"|x", Outcome::Complete(Connective::Assoc(AssocConnective::Or), 1));
    let nonassoc = |c, end| Outcome::Complete(Connective::Nonassoc(c), end);
    use_connective(b"=>x", nonassoc(NonassocConnective::LRImplies, 2));
    use_connective(b"<=x", nonassoc(NonassocConnective::RLImplies, 2));
    use_connective(b"<=>", nonassoc(NonassocConnective::Equivalent, 3));
    use_connective(b"<~>", nonassoc(NonassocConnective::NotEquivalent, 3));
    use_connective(b"~|x", nonassoc(NonassocConnective::NotOr, 2));
    use_connective(b"~&x", nonassoc(NonassocConnective::NotAnd, 2));
    use_connective(b"<~x", Outcome::Malformed(0, Expected::Connective));
    use_connective(b"=x", Outcome::Malformed(0, Expected::Connective));
    use_connective(b"~x", Outcome::Malformed(0, Expected::Connective));
    use_connective(b"x", Outcome::Malformed(0, Expected::Connective));
    use_connective(b"<=", Outcome::Incomplete);
    use_connective(b"<", Outcome::Incomplete);
    use_connective(b"=", Outcome::Incomplete);
    use_connective(b"", Outcome::Incomplete);
}

fn use_connective(bytes: &[u8], expected: Outcome<Connective>) {
    assert_eq!(connective(bytes, 0), expected);
}

#[test]
fn more_bytes_change_nothing_that_was_decided() {
    let decided: Vec<&[u8]> = vec![
        b"f(X) ,",
        b"p & q , ",
        b"p => q )",
        b"(p q",
        b"f(X;",
        b"![X]: ~ p(X) .",
        b"a = b => c\0",
    ];
    let more: Vec<&[u8]> = vec![b"", b" ", b"x", b"& r", b"=> ( s )\0"];
    for input in decided {
        let first = FofLogicFormula::parse(input);
        assert!(!first.is_incomplete());
        for extra in &more {
            let mut longer = input.to_vec();
            longer.extend_from_slice(extra);
            assert_eq!(FofLogicFormula::parse(&longer), first);
        }
    }
}

#[test]
fn an_incomplete_outcome_is_decided_by_more_bytes() {
    let chunks: Vec<&[u8]> = vec![b"![X", b"] : p(", b"X) =", b"> q", b"(X)", b" . "];
    let mut buffer: Vec<u8> = Vec::new();
    for (k, chunk) in chunks.iter().enumerate() {
        buffer.extend_from_slice(chunk);
        let outcome = FofLogicFormula::parse(&buffer);
        if k + 1 < chunks.len() {
            assert_eq!(outcome, Outcome::Incomplete);
        } else {
            match outcome {
                Outcome::Complete(formula, end) => {
                    assert_eq!(formula.to_string(), "![X]:p(X)=>q(X)");
                    assert_eq!(&buffer[end..], b" . ");
                }
                other => panic!("not read: {:?}", other),
            }
        }
    }
}
