//! The abstract syntax: what a tree is, apart from the buffer that its words
//! are borrowed from.
//!
//! Each model has a canonical text and a well-formedness predicate.  The
//! text is what the printer writes; the predicate states the invariants
//! under which the text reads back as the same tree.

use crate::ascii::{bytes_of, DOUBLE_QUOTE, SINGLE_QUOTE};
use crate::lexical::{integer_shape, quoted_shape, rational_shape, real_shape, word_shape};
use crate::syntax::{FofQuantifier, NonassocConnective};
use crate::text::join;
use vstd::prelude::*;
use vstd::utf8::is_ascii_chars;

verus! {

/// A word that begins with a lower-case letter.
pub open spec fn lower_word_wf(w: Seq<char>) -> bool {
    is_ascii_chars(w) && word_shape(bytes_of(w), false)
}

/// A word that begins with an upper-case letter.
pub open spec fn upper_word_wf(w: Seq<char>) -> bool {
    is_ascii_chars(w) && word_shape(bytes_of(w), true)
}

/// What stands between single quotes: one character or more.
pub open spec fn single_quoted_wf(w: Seq<char>) -> bool {
    is_ascii_chars(w) && w.len() >= 1 && quoted_shape(bytes_of(w), SINGLE_QUOTE, 0)
}

/// What stands between double quotes.
pub open spec fn distinct_object_wf(w: Seq<char>) -> bool {
    is_ascii_chars(w) && quoted_shape(bytes_of(w), DOUBLE_QUOTE, 0)
}

/// An integer numeral.
pub open spec fn integer_wf(w: Seq<char>) -> bool {
    is_ascii_chars(w) && integer_shape(bytes_of(w))
}

/// A rational numeral.
pub open spec fn rational_wf(w: Seq<char>) -> bool {
    is_ascii_chars(w) && rational_shape(bytes_of(w))
}

/// A real numeral.
pub open spec fn real_wf(w: Seq<char>) -> bool {
    is_ascii_chars(w) && real_shape(bytes_of(w))
}

/// A numeral of one of the three kinds: its text.
pub ghost enum NumberModel {
    Integer(Seq<char>),
    Rational(Seq<char>),
    Real(Seq<char>),
}

impl NumberModel {
    /// The canonical text.
    pub open spec fn text(self) -> Seq<char> {
        match self {
            NumberModel::Integer(w) => w,
            NumberModel::Rational(w) => w,
            NumberModel::Real(w) => w,
        }
    }

    /// The invariants of the syntax hold of this tree.
    pub open spec fn wf(self) -> bool {
        match self {
            NumberModel::Integer(w) => integer_wf(w),
            NumberModel::Rational(w) => rational_wf(w),
            NumberModel::Real(w) => real_wf(w),
        }
    }
}

/// A lower-case word, or what stands between single quotes.
pub ghost enum AtomicWordModel {
    Lower(Seq<char>),
    SingleQuoted(Seq<char>),
}

impl AtomicWordModel {
    /// The canonical text.
    pub open spec fn text(self) -> Seq<char> {
        match self {
            AtomicWordModel::Lower(w) => w,
            AtomicWordModel::SingleQuoted(w) => "'"@ + w + "'"@,
        }
    }

    /// The invariants of the syntax hold of this tree.
    pub open spec fn wf(self) -> bool {
        match self {
            AtomicWordModel::Lower(w) => lower_word_wf(w),
            AtomicWordModel::SingleQuoted(w) => single_quoted_wf(w),
        }
    }
}

/// A numeral or a distinct object.
pub ghost enum DefinedTermModel {
    Number(NumberModel),
    Distinct(Seq<char>),
}

impl DefinedTermModel {
    /// The canonical text.
    pub open spec fn text(self) -> Seq<char> {
        match self {
            DefinedTermModel::Number(n) => n.text(),
            DefinedTermModel::Distinct(w) => "\""@ + w + "\""@,
        }
    }

    /// The invariants of the syntax hold of this tree.
    pub open spec fn wf(self) -> bool {
        match self {
            DefinedTermModel::Number(n) => n.wf(),
            DefinedTermModel::Distinct(w) => distinct_object_wf(w),
        }
    }
}

/// A defined term.
pub ghost enum FofDefinedTermModel {
    Defined(DefinedTermModel),
    /// A defined constant: the word after the dollar sign.
    Atomic(Seq<char>),
}

impl FofDefinedTermModel {
    /// The canonical text.
    pub open spec fn text(self) -> Seq<char> {
        match self {
            FofDefinedTermModel::Defined(d) => d.text(),
            FofDefinedTermModel::Atomic(w) => "$"@ + w,
        }
    }

    /// The invariants of the syntax hold of this tree.
    pub open spec fn wf(self) -> bool {
        match self {
            FofDefinedTermModel::Defined(d) => d.wf(),
            FofDefinedTermModel::Atomic(w) => lower_word_wf(w),
        }
    }
}

/// A plain term: a constant, or a functor with its arguments.
pub ghost enum PlainTermModel {
    Constant(AtomicWordModel),
    Function(AtomicWordModel, Seq<TermModel>),
}

/// A system term: a constant, or a functor with its arguments.
pub ghost enum SystemTermModel {
    /// The word after the two dollar signs.
    Constant(Seq<char>),
    Function(Seq<char>, Seq<TermModel>),
}

/// A term that is no variable.
pub ghost enum FunctionTermModel {
    Plain(PlainTermModel),
    Defined(FofDefinedTermModel),
    System(SystemTermModel),
}

/// A term.
pub ghost enum TermModel {
    Function(FunctionTermModel),
    Variable(Seq<char>),
}

/// The texts of a list of terms.
pub open spec fn term_texts(terms: Seq<TermModel>) -> Seq<Seq<char>>
    decreases terms, 1int,
{
    Seq::new(
        terms.len(),
        |k: int|
            if 0 <= k < terms.len() {
                terms[k].text()
            } else {
                Seq::empty()
            },
    )
}

/// A list of arguments: one term or more, each well formed.
pub open spec fn arguments_wf(terms: Seq<TermModel>) -> bool
    decreases terms, 1int,
{
    &&& terms.len() >= 1
    &&& forall|k: int| 0 <= k < terms.len() ==> (#[trigger] terms[k]).wf()
}

/// A list of arguments in its parentheses.  An empty list has no text: the
/// parentheses are written only round one argument or more.
pub open spec fn arguments_text(terms: Seq<TermModel>) -> Seq<char>
    decreases terms, 2int,
{
    if terms.len() == 0 {
        Seq::empty()
    } else {
        "("@ + join(term_texts(terms), ","@) + ")"@
    }
}

impl PlainTermModel {
    /// The canonical text.
    pub open spec fn text(self) -> Seq<char>
        decreases self,
    {
        match self {
            PlainTermModel::Constant(c) => c.text(),
            PlainTermModel::Function(f, args) => f.text() + arguments_text(args),
        }
    }

    /// The invariants of the syntax hold of this tree.
    pub open spec fn wf(self) -> bool
        decreases self,
    {
        match self {
            PlainTermModel::Constant(c) => c.wf(),
            PlainTermModel::Function(f, args) => f.wf() && arguments_wf(args),
        }
    }
}

impl SystemTermModel {
    /// The canonical text.
    pub open spec fn text(self) -> Seq<char>
        decreases self,
    {
        match self {
            SystemTermModel::Constant(w) => "$$"@ + w,
            SystemTermModel::Function(w, args) => "$$"@ + w + arguments_text(args),
        }
    }

    /// The invariants of the syntax hold of this tree.
    pub open spec fn wf(self) -> bool
        decreases self,
    {
        match self {
            SystemTermModel::Constant(w) => lower_word_wf(w),
            SystemTermModel::Function(w, args) => lower_word_wf(w) && arguments_wf(args),
        }
    }
}

impl FunctionTermModel {
    /// The canonical text.
    pub open spec fn text(self) -> Seq<char>
        decreases self,
    {
        match self {
            FunctionTermModel::Plain(p) => p.text(),
            FunctionTermModel::Defined(d) => d.text(),
            FunctionTermModel::System(s) => s.text(),
        }
    }

    /// The invariants of the syntax hold of this tree.
    pub open spec fn wf(self) -> bool
        decreases self,
    {
        match self {
            FunctionTermModel::Plain(p) => p.wf(),
            FunctionTermModel::Defined(d) => d.wf(),
            FunctionTermModel::System(s) => s.wf(),
        }
    }
}

impl TermModel {
    /// The canonical text.
    pub open spec fn text(self) -> Seq<char>
        decreases self,
    {
        match self {
            TermModel::Function(f) => f.text(),
            TermModel::Variable(w) => w,
        }
    }

    /// The invariants of the syntax hold of this tree.
    pub open spec fn wf(self) -> bool
        decreases self,
    {
        match self {
            TermModel::Function(f) => f.wf(),
            TermModel::Variable(w) => upper_word_wf(w),
        }
    }
}

/// Two terms on either side of `=` or of `!=`.
pub ghost struct InfixModel {
    pub left: TermModel,
    pub right: TermModel,
}

impl InfixModel {
    /// The two terms as an equation.
    pub open spec fn equality_text(self) -> Seq<char> {
        self.left.text() + "="@ + self.right.text()
    }

    /// The two terms as an inequation.
    pub open spec fn inequality_text(self) -> Seq<char> {
        self.left.text() + "!="@ + self.right.text()
    }

    /// The invariants of the syntax hold of this tree.
    pub open spec fn wf(self) -> bool {
        self.left.wf() && self.right.wf()
    }
}

/// A defined atomic formula.
pub ghost enum DefinedAtomicModel {
    /// A defined proposition: the word after the dollar sign.
    Plain(Seq<char>),
    Infix(InfixModel),
}

impl DefinedAtomicModel {
    /// The canonical text.
    pub open spec fn text(self) -> Seq<char> {
        match self {
            DefinedAtomicModel::Plain(w) => "$"@ + w,
            DefinedAtomicModel::Infix(x) => x.equality_text(),
        }
    }

    /// The invariants of the syntax hold of this tree.
    pub open spec fn wf(self) -> bool {
        match self {
            DefinedAtomicModel::Plain(w) => lower_word_wf(w),
            DefinedAtomicModel::Infix(x) => x.wf(),
        }
    }
}

/// An atomic formula.
pub ghost enum AtomicModel {
    Plain(PlainTermModel),
    Defined(DefinedAtomicModel),
    System(SystemTermModel),
}

impl AtomicModel {
    /// The canonical text.
    pub open spec fn text(self) -> Seq<char> {
        match self {
            AtomicModel::Plain(p) => p.text(),
            AtomicModel::Defined(d) => d.text(),
            AtomicModel::System(s) => s.text(),
        }
    }

    /// The invariants of the syntax hold of this tree.
    pub open spec fn wf(self) -> bool {
        match self {
            AtomicModel::Plain(p) => p.wf(),
            AtomicModel::Defined(d) => d.wf(),
            AtomicModel::System(s) => s.wf(),
        }
    }
}

/// A quantifier, the variables that it binds, and the unit formula that it
/// governs.
pub ghost struct QuantifiedModel {
    pub quantifier: FofQuantifier,
    pub bound: Seq<Seq<char>>,
    pub formula: Box<UnitModel>,
}

/// A negated unit formula, or an inequation.
pub ghost enum UnaryModel {
    /// The negation of a unit formula.
    Unary(Box<UnitModel>),
    InfixUnary(InfixModel),
}

/// A quantified formula, an atomic formula, or a formula in parentheses.
pub ghost enum UnitaryModel {
    Quantified(QuantifiedModel),
    Atomic(AtomicModel),
    Parenthesised(Box<LogicModel>),
}

/// A formula that can stand on either side of a binary connective.
pub ghost enum UnitModel {
    Unitary(UnitaryModel),
    Unary(UnaryModel),
}

/// A run of unit formulas under one associative connective.
pub ghost enum AssocModel {
    Or(Seq<UnitModel>),
    And(Seq<UnitModel>),
}

/// Two unit formulas under a connective that does not chain.
pub ghost struct NonassocModel {
    pub left: Box<UnitModel>,
    pub op: NonassocConnective,
    pub right: Box<UnitModel>,
}

/// A formula with a binary connective at its top.
pub ghost enum BinaryModel {
    Nonassoc(NonassocModel),
    Assoc(AssocModel),
}

/// A formula of any shape.
pub ghost enum LogicModel {
    Binary(BinaryModel),
    Unary(UnaryModel),
    Unitary(UnitaryModel),
}

/// A list of bound variables: one or more, each an upper-case word.
pub open spec fn variables_wf(bound: Seq<Seq<char>>) -> bool {
    &&& bound.len() >= 1
    &&& forall|k: int| 0 <= k < bound.len() ==> upper_word_wf(#[trigger] bound[k])
}

/// The texts of a list of unit formulas.
pub open spec fn unit_texts(units: Seq<UnitModel>) -> Seq<Seq<char>>
    decreases units, 1int,
{
    Seq::new(
        units.len(),
        |k: int|
            if 0 <= k < units.len() {
                units[k].text()
            } else {
                Seq::empty()
            },
    )
}

/// The operands of an associative connective: two or more, each well formed.
pub open spec fn operands_wf(units: Seq<UnitModel>) -> bool
    decreases units, 1int,
{
    &&& units.len() >= 2
    &&& forall|k: int| 0 <= k < units.len() ==> (#[trigger] units[k]).wf()
}

impl QuantifiedModel {
    /// The canonical text.
    pub open spec fn text(self) -> Seq<char>
        decreases self,
    {
        self.quantifier.text() + "["@ + join(self.bound, ","@) + "]:"@ + self.formula.text()
    }

    /// The invariants of the syntax hold of this tree.
    pub open spec fn wf(self) -> bool
        decreases self,
    {
        variables_wf(self.bound) && self.formula.wf()
    }
}

impl UnaryModel {
    /// The canonical text.
    pub open spec fn text(self) -> Seq<char>
        decreases self,
    {
        match self {
            UnaryModel::Unary(u) => "~"@ + u.text(),
            UnaryModel::InfixUnary(x) => x.inequality_text(),
        }
    }

    /// The invariants of the syntax hold of this tree.
    pub open spec fn wf(self) -> bool
        decreases self,
    {
        match self {
            UnaryModel::Unary(u) => u.wf(),
            UnaryModel::InfixUnary(x) => x.wf(),
        }
    }
}

impl UnitaryModel {
    /// The canonical text.
    pub open spec fn text(self) -> Seq<char>
        decreases self,
    {
        match self {
            UnitaryModel::Quantified(q) => q.text(),
            UnitaryModel::Atomic(a) => a.text(),
            UnitaryModel::Parenthesised(l) => "("@ + l.text() + ")"@,
        }
    }

    /// The invariants of the syntax hold of this tree.
    pub open spec fn wf(self) -> bool
        decreases self,
    {
        match self {
            UnitaryModel::Quantified(q) => q.wf(),
            UnitaryModel::Atomic(a) => a.wf(),
            UnitaryModel::Parenthesised(l) => l.wf(),
        }
    }
}

impl UnitModel {
    /// The canonical text.
    pub open spec fn text(self) -> Seq<char>
        decreases self,
    {
        match self {
            UnitModel::Unitary(u) => u.text(),
            UnitModel::Unary(u) => u.text(),
        }
    }

    /// The invariants of the syntax hold of this tree.
    pub open spec fn wf(self) -> bool
        decreases self,
    {
        match self {
            UnitModel::Unitary(u) => u.wf(),
            UnitModel::Unary(u) => u.wf(),
        }
    }

    /// The unit formula as a formula of any shape.
    pub open spec fn as_logic(self) -> LogicModel {
        match self {
            UnitModel::Unitary(u) => LogicModel::Unitary(u),
            UnitModel::Unary(u) => LogicModel::Unary(u),
        }
    }
}

impl AssocModel {
    /// The canonical text.
    pub open spec fn text(self) -> Seq<char>
        decreases self,
    {
        match self {
            AssocModel::Or(units) => join(unit_texts(units), "|"@),
            AssocModel::And(units) => join(unit_texts(units), "&"@),
        }
    }

    /// The invariants of the syntax hold of this tree.
    pub open spec fn wf(self) -> bool
        decreases self,
    {
        match self {
            AssocModel::Or(units) => operands_wf(units),
            AssocModel::And(units) => operands_wf(units),
        }
    }
}

impl NonassocModel {
    /// The canonical text.
    pub open spec fn text(self) -> Seq<char>
        decreases self,
    {
        self.left.text() + self.op.text() + self.right.text()
    }

    /// The invariants of the syntax hold of this tree.
    pub open spec fn wf(self) -> bool
        decreases self,
    {
        self.left.wf() && self.right.wf()
    }
}

impl BinaryModel {
    /// The canonical text.
    pub open spec fn text(self) -> Seq<char>
        decreases self,
    {
        match self {
            BinaryModel::Nonassoc(n) => n.text(),
            BinaryModel::Assoc(a) => a.text(),
        }
    }

    /// The invariants of the syntax hold of this tree.
    pub open spec fn wf(self) -> bool
        decreases self,
    {
        match self {
            BinaryModel::Nonassoc(n) => n.wf(),
            BinaryModel::Assoc(a) => a.wf(),
        }
    }
}

impl LogicModel {
    /// The canonical text.
    pub open spec fn text(self) -> Seq<char>
        decreases self,
    {
        match self {
            LogicModel::Binary(b) => b.text(),
            LogicModel::Unary(u) => u.text(),
            LogicModel::Unitary(u) => u.text(),
        }
    }

    /// The invariants of the syntax hold of this tree.
    pub open spec fn wf(self) -> bool
        decreases self,
    {
        match self {
            LogicModel::Binary(b) => b.wf(),
            LogicModel::Unary(u) => u.wf(),
            LogicModel::Unitary(u) => u.wf(),
        }
    }
}

/// A literal of a clause: an atomic formula, a negated one, or an inequation.
pub ghost enum LiteralModel {
    Atomic(AtomicModel),
    NegatedAtomic(AtomicModel),
    Infix(InfixModel),
}

impl LiteralModel {
    /// The canonical text.
    pub open spec fn text(self) -> Seq<char> {
        match self {
            LiteralModel::Atomic(a) => a.text(),
            LiteralModel::NegatedAtomic(a) => "~"@ + a.text(),
            LiteralModel::Infix(x) => x.inequality_text(),
        }
    }

    /// The invariants of the syntax hold of this tree.
    pub open spec fn wf(self) -> bool {
        match self {
            LiteralModel::Atomic(a) => a.wf(),
            LiteralModel::NegatedAtomic(a) => a.wf(),
            LiteralModel::Infix(x) => x.wf(),
        }
    }

    /// The literal is a system proposition that stands alone, without a
    /// negation sign in front of it.
    pub open spec fn bare_system(self) -> bool {
        self matches LiteralModel::Atomic(AtomicModel::System(_))
    }

    /// The atomic formula of the literal: what it asserts or denies, and for
    /// an inequation the equation of its two terms.
    pub open spec fn atomic(self) -> AtomicModel {
        match self {
            LiteralModel::Atomic(a) => a,
            LiteralModel::NegatedAtomic(a) => a,
            LiteralModel::Infix(x) => AtomicModel::Defined(DefinedAtomicModel::Infix(x)),
        }
    }

    /// The unit formula that says the same as the literal.
    pub open spec fn as_unit(self) -> UnitModel {
        match self {
            LiteralModel::Atomic(a) => UnitModel::Unitary(UnitaryModel::Atomic(a)),
            LiteralModel::NegatedAtomic(a) => UnitModel::Unary(
                UnaryModel::Unary(Box::new(UnitModel::Unitary(UnitaryModel::Atomic(a)))),
            ),
            LiteralModel::Infix(x) => UnitModel::Unary(UnaryModel::InfixUnary(x)),
        }
    }
}

/// The texts of a list of literals.
pub open spec fn literal_texts(literals: Seq<LiteralModel>) -> Seq<Seq<char>> {
    Seq::new(literals.len(), |k: int| literals[k].text())
}

/// A clause: one literal or more, each well formed.
pub open spec fn disjunction_wf(literals: Seq<LiteralModel>) -> bool {
    &&& literals.len() >= 1
    &&& forall|k: int| 0 <= k < literals.len() ==> (#[trigger] literals[k]).wf()
}

/// The literals of a clause, with `|` between them.
pub open spec fn disjunction_text(literals: Seq<LiteralModel>) -> Seq<char> {
    join(literal_texts(literals), "|"@)
}

/// A formula in clausal normal form: a clause, bare or in parentheses.
pub ghost enum CnfModel {
    Disjunction(Seq<LiteralModel>),
    Parenthesised(Seq<LiteralModel>),
}

impl CnfModel {
    /// The canonical text.
    pub open spec fn text(self) -> Seq<char> {
        match self {
            CnfModel::Disjunction(d) => disjunction_text(d),
            CnfModel::Parenthesised(d) => "("@ + disjunction_text(d) + ")"@,
        }
    }

    /// The invariants of the syntax hold of this tree.
    pub open spec fn wf(self) -> bool {
        match self {
            CnfModel::Disjunction(d) => disjunction_wf(d),
            CnfModel::Parenthesised(d) => disjunction_wf(d),
        }
    }

    /// The literals of the clause.
    pub open spec fn literals(self) -> Seq<LiteralModel> {
        match self {
            CnfModel::Disjunction(d) => d,
            CnfModel::Parenthesised(d) => d,
        }
    }
}

} // verus!
