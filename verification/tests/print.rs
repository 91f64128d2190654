use tptp::syntax::{
    AnnotatedFormula, Annotations, AssocConnective, AtomicWord, CnfAnnotated, CnfFormula,
    Connective, Constant, Disjunction, DistinctObject, FileName, FofAnnotated, FofAtomicFormula,
    FofFormula, FofFunctionTerm, FofLogicFormula, FofPlainAtomicFormula, FofPlainTerm,
    FofQuantifier, FofTerm, FofUnitaryFormula, FofVariableList, FormulaData, FormulaRole,
    FormulaSelection, Functor, GeneralData, GeneralFunction, GeneralList, GeneralTerm,
    GeneralTerms, Include, InfixEquality, InfixInequality, Integer, Literal, LowerWord, Name,
    NameList, NonassocConnective, Number, OptionalInfo, Real, SingleQuoted, Source, TPTPInput,
    UnaryConnective, UpperWord, UsefulInfo, Variable,
};
use tptp::text::fmt_list;

fn lower(name: &str) -> AtomicWord<'_> {
    AtomicWord::Lower(LowerWord(name))
}

fn proposition(name: &str) -> FofAtomicFormula<'_> {
    FofAtomicFormula::Plain(FofPlainAtomicFormula(FofPlainTerm::Constant(Constant(Functor(
        lower(name),
    )))))
}

fn formula(name: &str) -> FofFormula<'_> {
    FofFormula(FofLogicFormula::Unitary(FofUnitaryFormula::Atomic(proposition(name))))
}

fn clause<'a>(names: Vec<&'a str>) -> CnfFormula<'a> {
    CnfFormula::Disjunction(Disjunction(
        names.into_iter().map(|n| Literal::Atomic(proposition(n))).collect(),
    ))
}

fn data(name: &str) -> GeneralTerm<'_> {
    GeneralTerm::Data(GeneralData::Atomic(lower(name)))
}

#[test]
fn join_with_separator() {
    let mut out = String::from("<");
    fmt_list(&mut out, ", ", &vec![String::from("a"), String::from("b"), String::from("c")]);
    assert_eq!(out, "<a, b, c");
    let mut out = String::from("<");
    fmt_list(&mut out, ",", &vec![String::from("only")]);
    assert_eq!(out, "<only");
    let mut out = String::from("<");
    fmt_list(&mut out, ",", &Vec::new());
    assert_eq!(out, "<");
}

#[test]
fn words() {
    assert_eq!(LowerWord("abc_1").to_string(), "abc_1");
    assert_eq!(UpperWord("Abc").to_string(), "Abc");
    assert_eq!(SingleQuoted("a b").to_string(), "'a b'");
    assert_eq!(DistinctObject("a b").to_string(), "\"a b\"");
    assert_eq!(Integer("-12").to_string(), "-12");
    assert_eq!(Number::Real(Real("1.5e3")).to_string(), "1.5e3");
    assert_eq!(Name::Integer(Integer("7")).to_string(), "7");
    assert_eq!(Name::AtomicWord(lower("n")).to_string(), "n");
    let mut out = String::from("x");
    LowerWord("y").fmt(&mut out);
    assert_eq!(out, "xy");
}

#[test]
fn glyphs() {
    assert_eq!(UnaryConnective.to_string(), "~");
    assert_eq!(InfixEquality.to_string(), "=");
    assert_eq!(InfixInequality.to_string(), "!=");
    assert_eq!(NonassocConnective::LRImplies.to_string(), "=>");
    assert_eq!(NonassocConnective::RLImplies.to_string(), "<=");
    assert_eq!(NonassocConnective::Equivalent.to_string(), "<=>");
    assert_eq!(NonassocConnective::NotEquivalent.to_string(), "<~>");
    assert_eq!(NonassocConnective::NotOr.to_string(), "~|");
    assert_eq!(NonassocConnective::NotAnd.to_string(), "~&");
    assert_eq!(AssocConnective::And.to_string(), "&");
    assert_eq!(AssocConnective::Or.to_string(), "|");
    assert_eq!(FofQuantifier::Forall.to_string(), "!");
    assert_eq!(FofQuantifier::Exists.to_string(), "?");
    assert_eq!(Connective::Assoc(AssocConnective::Or).to_string(), "|");
    assert_eq!(Connective::Nonassoc(NonassocConnective::NotAnd).to_string(), "~&");
}

#[test]
fn roles() {
    let roles = vec![
        (FormulaRole::Axiom, "axiom"),
        (FormulaRole::Hypothesis, "hypothesis"),
        (FormulaRole::Definition, "definition"),
        (FormulaRole::Assumption, "assumption"),
        (FormulaRole::Lemma, "lemma"),
        (FormulaRole::Theorem, "theorem"),
        (FormulaRole::Corollary, "corollary"),
        (FormulaRole::Conjecture, "conjecture"),
        (FormulaRole::NegatedConjecture, "negated_conjecture"),
        (FormulaRole::Plain, "plain"),
        (FormulaRole::Type, "type"),
        (FormulaRole::FiDomain, "fi_domain"),
        (FormulaRole::FiFunctors, "fi_functors"),
        (FormulaRole::FiPredicates, "fi_predicates"),
        (FormulaRole::Unknown, "unknown"),
    ];
    for (role, text) in roles {
        assert_eq!(role.to_string(), text);
    }
}

#[test]
fn variable_list() {
    let list = FofVariableList(vec![Variable(UpperWord("X")), Variable(UpperWord("Y"))]);
    assert_eq!(list.to_string(), "X,Y");
    assert_eq!(FofVariableList(vec![]).to_string(), "");
}

#[test]
fn general_terms() {
    let list = GeneralTerm::List(GeneralList(Some(GeneralTerms(vec![data("a"), data("b")]))));
    assert_eq!(list.to_string(), "[a,b]");
    assert_eq!(GeneralTerm::List(GeneralList(None)).to_string(), "[]");
    let colon = GeneralTerm::Colon(GeneralData::Atomic(lower("key")), Box::new(list));
    assert_eq!(colon.to_string(), "key:[a,b]");
    let function = GeneralData::Function(GeneralFunction {
        word: lower("f"),
        terms: GeneralTerms(vec![
            data("a"),
            GeneralTerm::Data(GeneralData::Variable(Variable(UpperWord("X")))),
            GeneralTerm::Data(GeneralData::Number(Number::Integer(Integer("3")))),
            GeneralTerm::Data(GeneralData::DistinctObject(DistinctObject("d"))),
        ]),
    });
    assert_eq!(function.to_string(), "f(a,X,3,\"d\")");
}

#[test]
fn formula_data() {
    assert_eq!(FormulaData::Fof(Box::new(formula("p"))).to_string(), "$fof(p)");
    assert_eq!(FormulaData::Cnf(Box::new(clause(vec!["p", "q"]))).to_string(), "$cnf(p|q)");
    let term = FofTerm::Function(FofFunctionTerm::Plain(FofPlainTerm::Constant(Constant(
        Functor(lower("c")),
    ))));
    assert_eq!(FormulaData::Fot(Box::new(term)).to_string(), "$fot(c)");
    let quoted = GeneralData::Formula(FormulaData::Fof(Box::new(formula("p"))));
    assert_eq!(quoted.to_string(), "$fof(p)");
}

#[test]
fn annotations() {
    assert_eq!(Annotations(None).to_string(), "");
    assert_eq!(OptionalInfo(None).to_string(), "");
    let info = OptionalInfo(Some(UsefulInfo(GeneralList(Some(GeneralTerms(vec![data("i")]))))));
    assert_eq!(info.to_string(), ",[i]");
    let with_source = Annotations(Some((Source(data("s")), OptionalInfo(None))));
    assert_eq!(with_source.to_string(), ",s");
    let with_both = Annotations(Some((Source(data("s")), info)));
    assert_eq!(with_both.to_string(), ",s,[i]");
}

#[test]
fn annotated_formulas() {
    let fof = FofAnnotated {
        name: Name::AtomicWord(lower("a1")),
        role: FormulaRole::Axiom,
        formula: Box::new(formula("p")),
        annotations: Box::new(Annotations(None)),
    };
    assert_eq!(fof.to_string(), "fof(a1,axiom,p).");
    let cnf = CnfAnnotated {
        name: Name::Integer(Integer("2")),
        role: FormulaRole::NegatedConjecture,
        formula: Box::new(clause(vec!["p", "q"])),
        annotations: Box::new(Annotations(Some((Source(data("s")), OptionalInfo(None))))),
    };
    assert_eq!(cnf.to_string(), "cnf(2,negated_conjecture,p|q,s).");
    assert_eq!(AnnotatedFormula::Fof(fof).to_string(), "fof(a1,axiom,p).");
    assert_eq!(
        TPTPInput::Annotated(AnnotatedFormula::Cnf(cnf)).to_string(),
        "cnf(2,negated_conjecture,p|q,s)."
    );
}

#[test]
fn include_directive() {
    let plain = Include {
        file_name: FileName(SingleQuoted("Axioms/SET.ax")),
        selection: FormulaSelection(None),
    };
    assert_eq!(plain.to_string(), "include('Axioms/SET.ax').");
    let chosen = Include {
        file_name: FileName(SingleQuoted("f")),
        selection: FormulaSelection(Some(NameList(vec![
            Name::AtomicWord(lower("a")),
            Name::Integer(Integer("1")),
        ]))),
    };
    assert_eq!(chosen.to_string(), "include('f',[a,1]).");
    assert_eq!(TPTPInput::Include(chosen).to_string(), "include('f',[a,1]).");
}

#[test]
fn copies_are_equal() {
    let fof = FofAnnotated {
        name: Name::AtomicWord(lower("a1")),
        role: FormulaRole::Axiom,
        formula: Box::new(formula("p")),
        annotations: Box::new(Annotations(Some((
            Source(GeneralTerm::Colon(
                GeneralData::Atomic(lower("k")),
                Box::new(GeneralTerm::List(GeneralList(Some(GeneralTerms(vec![data("v")]))))),
            )),
            OptionalInfo(Some(UsefulInfo(GeneralList(None)))),
        )))),
    };
    let copy = fof.clone();
    assert_eq!(copy, fof);
    assert_eq!(copy.to_string(), "fof(a1,axiom,p,k:[v],[]).");
    let chosen = Include {
        file_name: FileName(SingleQuoted("f")),
        selection: FormulaSelection(Some(NameList(vec![Name::Integer(Integer("1"))]))),
    };
    assert_eq!(chosen.clone(), chosen);
    let clause = clause(vec!["p", "q"]);
    assert_eq!(clause.clone(), clause);
}
