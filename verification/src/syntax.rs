//! The trees of the syntax, each with its canonical text.
//!
//! The words at the leaves are borrowed from the buffer that was read.  Every
//! type has a `text`, the one way in which it is written, and `fmt` and
//! `to_string`, which write it.  No blank is ever written.

use crate::model::{
    distinct_object_wf, integer_wf, lower_word_wf, rational_wf, real_wf, single_quoted_wf,
    arguments_text, disjunction_text, disjunction_wf, literal_texts, term_texts, unit_texts,
    upper_word_wf, AssocModel, AtomicModel, AtomicWordModel,
    BinaryModel, CnfModel, DefinedAtomicModel, DefinedTermModel, FofDefinedTermModel,
    FunctionTermModel, InfixModel, LiteralModel, LogicModel, NonassocModel, NumberModel,
    PlainTermModel, QuantifiedModel, SystemTermModel, TermModel, UnaryModel, UnitModel,
    UnitaryModel,
};
use crate::text::{fmt_list, join};
use vstd::prelude::*;
use vstd::string::*;

verus! {

/// An integer numeral, with its sign where it has one.
#[derive(Debug, PartialOrd, Ord, PartialEq, Eq, Hash)]
pub struct Integer<'a>(pub &'a str);

impl<'a> View for Integer<'a> {
    type V = Seq<char>;

    open spec fn view(&self) -> Seq<char> {
        self.0@
    }
}

impl<'a> Integer<'a> {
    /// The canonical text.
    pub open spec fn text(&self) -> Seq<char> {
        self.0@
    }

    /// The word has the shape that the syntax asks of it.
    pub open spec fn wf(&self) -> bool {
        integer_wf(self@)
    }

    /// Appends the canonical text to `f`.
    pub fn fmt(&self, f: &mut String)
        ensures
            final(f)@ == old(f)@ + self.text(),
    {
        f.append(self.0);
        assert(f@ =~= old(f)@ + self.text());
    }

    /// The canonical text as a string.
    pub fn to_string(&self) -> (s: String)
        ensures
            s@ == self.text(),
    {
        let mut s = String::new();
        self.fmt(&mut s);
        assert(s@ =~= self.text());
        s
    }
}

impl<'a> Clone for Integer<'a> {
    fn clone(&self) -> (copy: Self)
        ensures
            copy@ == self@,
    {
        Integer(self.0)
    }
}

/// A rational numeral: two integers with a slash between them.
#[derive(Debug, PartialOrd, Ord, PartialEq, Eq, Hash)]
pub struct Rational<'a>(pub &'a str);

impl<'a> View for Rational<'a> {
    type V = Seq<char>;

    open spec fn view(&self) -> Seq<char> {
        self.0@
    }
}

impl<'a> Rational<'a> {
    /// The canonical text.
    pub open spec fn text(&self) -> Seq<char> {
        self.0@
    }

    /// The word has the shape that the syntax asks of it.
    pub open spec fn wf(&self) -> bool {
        rational_wf(self@)
    }

    /// Appends the canonical text to `f`.
    pub fn fmt(&self, f: &mut String)
        ensures
            final(f)@ == old(f)@ + self.text(),
    {
        f.append(self.0);
        assert(f@ =~= old(f)@ + self.text());
    }

    /// The canonical text as a string.
    pub fn to_string(&self) -> (s: String)
        ensures
            s@ == self.text(),
    {
        let mut s = String::new();
        self.fmt(&mut s);
        assert(s@ =~= self.text());
        s
    }
}

impl<'a> Clone for Rational<'a> {
    fn clone(&self) -> (copy: Self)
        ensures
            copy@ == self@,
    {
        Rational(self.0)
    }
}

/// A real numeral, with a fraction, an exponent, or both.
#[derive(Debug, PartialOrd, Ord, PartialEq, Eq, Hash)]
pub struct Real<'a>(pub &'a str);

impl<'a> View for Real<'a> {
    type V = Seq<char>;

    open spec fn view(&self) -> Seq<char> {
        self.0@
    }
}

impl<'a> Real<'a> {
    /// The canonical text.
    pub open spec fn text(&self) -> Seq<char> {
        self.0@
    }

    /// The word has the shape that the syntax asks of it.
    pub open spec fn wf(&self) -> bool {
        real_wf(self@)
    }

    /// Appends the canonical text to `f`.
    pub fn fmt(&self, f: &mut String)
        ensures
            final(f)@ == old(f)@ + self.text(),
    {
        f.append(self.0);
        assert(f@ =~= old(f)@ + self.text());
    }

    /// The canonical text as a string.
    pub fn to_string(&self) -> (s: String)
        ensures
            s@ == self.text(),
    {
        let mut s = String::new();
        self.fmt(&mut s);
        assert(s@ =~= self.text());
        s
    }
}

impl<'a> Clone for Real<'a> {
    fn clone(&self) -> (copy: Self)
        ensures
            copy@ == self@,
    {
        Real(self.0)
    }
}

/// A word that begins with a lower-case letter.
#[derive(Debug, PartialOrd, Ord, PartialEq, Eq, Hash)]
pub struct LowerWord<'a>(pub &'a str);

impl<'a> View for LowerWord<'a> {
    type V = Seq<char>;

    open spec fn view(&self) -> Seq<char> {
        self.0@
    }
}

impl<'a> LowerWord<'a> {
    /// The canonical text.
    pub open spec fn text(&self) -> Seq<char> {
        self.0@
    }

    /// The word has the shape that the syntax asks of it.
    pub open spec fn wf(&self) -> bool {
        lower_word_wf(self@)
    }

    /// Appends the canonical text to `f`.
    pub fn fmt(&self, f: &mut String)
        ensures
            final(f)@ == old(f)@ + self.text(),
    {
        f.append(self.0);
        assert(f@ =~= old(f)@ + self.text());
    }

    /// The canonical text as a string.
    pub fn to_string(&self) -> (s: String)
        ensures
            s@ == self.text(),
    {
        let mut s = String::new();
        self.fmt(&mut s);
        assert(s@ =~= self.text());
        s
    }
}

impl<'a> Clone for LowerWord<'a> {
    fn clone(&self) -> (copy: Self)
        ensures
            copy@ == self@,
    {
        LowerWord(self.0)
    }
}

/// A word that begins with an upper-case letter.
#[derive(Debug, PartialOrd, Ord, PartialEq, Eq, Hash)]
pub struct UpperWord<'a>(pub &'a str);

impl<'a> View for UpperWord<'a> {
    type V = Seq<char>;

    open spec fn view(&self) -> Seq<char> {
        self.0@
    }
}

impl<'a> UpperWord<'a> {
    /// The canonical text.
    pub open spec fn text(&self) -> Seq<char> {
        self.0@
    }

    /// The word has the shape that the syntax asks of it.
    pub open spec fn wf(&self) -> bool {
        upper_word_wf(self@)
    }

    /// Appends the canonical text to `f`.
    pub fn fmt(&self, f: &mut String)
        ensures
            final(f)@ == old(f)@ + self.text(),
    {
        f.append(self.0);
        assert(f@ =~= old(f)@ + self.text());
    }

    /// The canonical text as a string.
    pub fn to_string(&self) -> (s: String)
        ensures
            s@ == self.text(),
    {
        let mut s = String::new();
        self.fmt(&mut s);
        assert(s@ =~= self.text());
        s
    }
}

impl<'a> Clone for UpperWord<'a> {
    fn clone(&self) -> (copy: Self)
        ensures
            copy@ == self@,
    {
        UpperWord(self.0)
    }
}

/// A lower-case word behind one dollar sign.
#[derive(Debug, PartialOrd, Ord, PartialEq, Eq, Hash)]
pub struct DollarWord<'a>(pub LowerWord<'a>);

impl<'a> View for DollarWord<'a> {
    type V = Seq<char>;

    open spec fn view(&self) -> Seq<char> {
        self.0@
    }
}

impl<'a> DollarWord<'a> {
    /// The canonical text.
    pub open spec fn text(&self) -> Seq<char> {
        "$"@ + self.0.text()
    }

    /// Appends the canonical text to `f`.
    pub fn fmt(&self, f: &mut String)
        ensures
            final(f)@ == old(f)@ + self.text(),
    {
        f.append("$");
        self.0.fmt(f);
        assert(f@ =~= old(f)@ + self.text());
    }

    /// The canonical text as a string.
    pub fn to_string(&self) -> (s: String)
        ensures
            s@ == self.text(),
    {
        let mut s = String::new();
        self.fmt(&mut s);
        assert(s@ =~= self.text());
        s
    }
}

impl<'a> Clone for DollarWord<'a> {
    fn clone(&self) -> (copy: Self)
        ensures
            copy@ == self@,
    {
        DollarWord(self.0.clone())
    }
}

/// A lower-case word behind two dollar signs.
#[derive(Debug, PartialOrd, Ord, PartialEq, Eq, Hash)]
pub struct DollarDollarWord<'a>(pub LowerWord<'a>);

impl<'a> View for DollarDollarWord<'a> {
    type V = Seq<char>;

    open spec fn view(&self) -> Seq<char> {
        self.0@
    }
}

impl<'a> DollarDollarWord<'a> {
    /// The canonical text.
    pub open spec fn text(&self) -> Seq<char> {
        "$$"@ + self.0.text()
    }

    /// Appends the canonical text to `f`.
    pub fn fmt(&self, f: &mut String)
        ensures
            final(f)@ == old(f)@ + self.text(),
    {
        f.append("$$");
        self.0.fmt(f);
        assert(f@ =~= old(f)@ + self.text());
    }

    /// The canonical text as a string.
    pub fn to_string(&self) -> (s: String)
        ensures
            s@ == self.text(),
    {
        let mut s = String::new();
        self.fmt(&mut s);
        assert(s@ =~= self.text());
        s
    }
}

impl<'a> Clone for DollarDollarWord<'a> {
    fn clone(&self) -> (copy: Self)
        ensures
            copy@ == self@,
    {
        DollarDollarWord(self.0.clone())
    }
}

/// What stands between two single quotes, escapes as written.
#[derive(Debug, PartialOrd, Ord, PartialEq, Eq, Hash)]
pub struct SingleQuoted<'a>(pub &'a str);

impl<'a> View for SingleQuoted<'a> {
    type V = Seq<char>;

    open spec fn view(&self) -> Seq<char> {
        self.0@
    }
}

impl<'a> SingleQuoted<'a> {
    /// The canonical text.
    pub open spec fn text(&self) -> Seq<char> {
        "'"@ + self.0@ + "'"@
    }

    /// The word has the shape that the syntax asks of it.
    pub open spec fn wf(&self) -> bool {
        single_quoted_wf(self@)
    }

    /// Appends the canonical text to `f`.
    pub fn fmt(&self, f: &mut String)
        ensures
            final(f)@ == old(f)@ + self.text(),
    {
        f.append("'");
        f.append(self.0);
        f.append("'");
        assert(f@ =~= old(f)@ + self.text());
    }

    /// The canonical text as a string.
    pub fn to_string(&self) -> (s: String)
        ensures
            s@ == self.text(),
    {
        let mut s = String::new();
        self.fmt(&mut s);
        assert(s@ =~= self.text());
        s
    }
}

impl<'a> Clone for SingleQuoted<'a> {
    fn clone(&self) -> (copy: Self)
        ensures
            copy@ == self@,
    {
        SingleQuoted(self.0)
    }
}

/// What stands between two double quotes, escapes as written.
#[derive(Debug, PartialOrd, Ord, PartialEq, Eq, Hash)]
pub struct DistinctObject<'a>(pub &'a str);

impl<'a> View for DistinctObject<'a> {
    type V = Seq<char>;

    open spec fn view(&self) -> Seq<char> {
        self.0@
    }
}

impl<'a> DistinctObject<'a> {
    /// The canonical text.
    pub open spec fn text(&self) -> Seq<char> {
        "\""@ + self.0@ + "\""@
    }

    /// The word has the shape that the syntax asks of it.
    pub open spec fn wf(&self) -> bool {
        distinct_object_wf(self@)
    }

    /// Appends the canonical text to `f`.
    pub fn fmt(&self, f: &mut String)
        ensures
            final(f)@ == old(f)@ + self.text(),
    {
        f.append("\"");
        f.append(self.0);
        f.append("\"");
        assert(f@ =~= old(f)@ + self.text());
    }

    /// The canonical text as a string.
    pub fn to_string(&self) -> (s: String)
        ensures
            s@ == self.text(),
    {
        let mut s = String::new();
        self.fmt(&mut s);
        assert(s@ =~= self.text());
        s
    }
}

impl<'a> Clone for DistinctObject<'a> {
    fn clone(&self) -> (copy: Self)
        ensures
            copy@ == self@,
    {
        DistinctObject(self.0)
    }
}

/// The name of a system item.
#[derive(Debug, PartialOrd, Ord, PartialEq, Eq, Hash)]
pub struct AtomicSystemWord<'a>(pub DollarDollarWord<'a>);

impl<'a> View for AtomicSystemWord<'a> {
    type V = Seq<char>;

    open spec fn view(&self) -> Seq<char> {
        self.0@
    }
}

impl<'a> AtomicSystemWord<'a> {
    /// The canonical text.
    pub open spec fn text(&self) -> Seq<char> {
        self.0.text()
    }

    /// Appends the canonical text to `f`.
    pub fn fmt(&self, f: &mut String)
        ensures
            final(f)@ == old(f)@ + self.text(),
    {
        self.0.fmt(f);
        assert(f@ =~= old(f)@ + self.text());
    }

    /// The canonical text as a string.
    pub fn to_string(&self) -> (s: String)
        ensures
            s@ == self.text(),
    {
        let mut s = String::new();
        self.fmt(&mut s);
        assert(s@ =~= self.text());
        s
    }
}

impl<'a> Clone for AtomicSystemWord<'a> {
    fn clone(&self) -> (copy: Self)
        ensures
            copy@ == self@,
    {
        AtomicSystemWord(self.0.clone())
    }
}

/// The functor of a system term.
#[derive(Debug, PartialOrd, Ord, PartialEq, Eq, Hash)]
pub struct SystemFunctor<'a>(pub AtomicSystemWord<'a>);

impl<'a> View for SystemFunctor<'a> {
    type V = Seq<char>;

    open spec fn view(&self) -> Seq<char> {
        self.0@
    }
}

impl<'a> SystemFunctor<'a> {
    /// The canonical text.
    pub open spec fn text(&self) -> Seq<char> {
        self.0.text()
    }

    /// Appends the canonical text to `f`.
    pub fn fmt(&self, f: &mut String)
        ensures
            final(f)@ == old(f)@ + self.text(),
    {
        self.0.fmt(f);
        assert(f@ =~= old(f)@ + self.text());
    }

    /// The canonical text as a string.
    pub fn to_string(&self) -> (s: String)
        ensures
            s@ == self.text(),
    {
        let mut s = String::new();
        self.fmt(&mut s);
        assert(s@ =~= self.text());
        s
    }
}

impl<'a> Clone for SystemFunctor<'a> {
    fn clone(&self) -> (copy: Self)
        ensures
            copy@ == self@,
    {
        SystemFunctor(self.0.clone())
    }
}

/// A system term without arguments.
#[derive(Debug, PartialOrd, Ord, PartialEq, Eq, Hash)]
pub struct SystemConstant<'a>(pub SystemFunctor<'a>);

impl<'a> View for SystemConstant<'a> {
    type V = Seq<char>;

    open spec fn view(&self) -> Seq<char> {
        self.0@
    }
}

impl<'a> SystemConstant<'a> {
    /// The canonical text.
    pub open spec fn text(&self) -> Seq<char> {
        self.0.text()
    }

    /// Appends the canonical text to `f`.
    pub fn fmt(&self, f: &mut String)
        ensures
            final(f)@ == old(f)@ + self.text(),
    {
        self.0.fmt(f);
        assert(f@ =~= old(f)@ + self.text());
    }

    /// The canonical text as a string.
    pub fn to_string(&self) -> (s: String)
        ensures
            s@ == self.text(),
    {
        let mut s = String::new();
        self.fmt(&mut s);
        assert(s@ =~= self.text());
        s
    }
}

impl<'a> Clone for SystemConstant<'a> {
    fn clone(&self) -> (copy: Self)
        ensures
            copy@ == self@,
    {
        SystemConstant(self.0.clone())
    }
}

/// A numeral of one of the three kinds.
#[derive(Debug, PartialOrd, Ord, PartialEq, Eq, Hash)]
pub enum Number<'a> {
    Integer(Integer<'a>),
    Rational(Rational<'a>),
    Real(Real<'a>),
}

impl<'a> View for Number<'a> {
    type V = NumberModel;

    open spec fn view(&self) -> NumberModel {
        match self {
            Number::Integer(x) => NumberModel::Integer(x@),
            Number::Rational(x) => NumberModel::Rational(x@),
            Number::Real(x) => NumberModel::Real(x@),
        }
    }
}

impl<'a> Number<'a> {
    /// The canonical text.
    pub open spec fn text(&self) -> Seq<char> {
        self@.text()
    }

    /// Appends the canonical text to `f`.
    pub fn fmt(&self, f: &mut String)
        ensures
            final(f)@ == old(f)@ + self.text(),
    {
        match self {
            Number::Integer(x) => x.fmt(f),
            Number::Rational(x) => x.fmt(f),
            Number::Real(x) => x.fmt(f),
        }
        assert(f@ =~= old(f)@ + self.text());
    }

    /// The canonical text as a string.
    pub fn to_string(&self) -> (s: String)
        ensures
            s@ == self.text(),
    {
        let mut s = String::new();
        self.fmt(&mut s);
        assert(s@ =~= self.text());
        s
    }
}

impl<'a> Clone for Number<'a> {
    fn clone(&self) -> (copy: Self)
        ensures
            copy@ == self@,
    {
        match self {
            Number::Integer(x) => Number::Integer(x.clone()),
            Number::Rational(x) => Number::Rational(x.clone()),
            Number::Real(x) => Number::Real(x.clone()),
        }
    }
}

/// A lower-case word or a single-quoted one.
#[derive(Debug, PartialOrd, Ord, PartialEq, Eq, Hash)]
pub enum AtomicWord<'a> {
    Lower(LowerWord<'a>),
    SingleQuoted(SingleQuoted<'a>),
}

impl<'a> View for AtomicWord<'a> {
    type V = AtomicWordModel;

    open spec fn view(&self) -> AtomicWordModel {
        match self {
            AtomicWord::Lower(x) => AtomicWordModel::Lower(x@),
            AtomicWord::SingleQuoted(x) => AtomicWordModel::SingleQuoted(x@),
        }
    }
}

impl<'a> AtomicWord<'a> {
    /// The canonical text.
    pub open spec fn text(&self) -> Seq<char> {
        self@.text()
    }

    /// Appends the canonical text to `f`.
    pub fn fmt(&self, f: &mut String)
        ensures
            final(f)@ == old(f)@ + self.text(),
    {
        match self {
            AtomicWord::Lower(x) => x.fmt(f),
            AtomicWord::SingleQuoted(x) => x.fmt(f),
        }
        assert(f@ =~= old(f)@ + self.text());
    }

    /// The canonical text as a string.
    pub fn to_string(&self) -> (s: String)
        ensures
            s@ == self.text(),
    {
        let mut s = String::new();
        self.fmt(&mut s);
        assert(s@ =~= self.text());
        s
    }
}

impl<'a> Clone for AtomicWord<'a> {
    fn clone(&self) -> (copy: Self)
        ensures
            copy@ == self@,
    {
        match self {
            AtomicWord::Lower(x) => AtomicWord::Lower(x.clone()),
            AtomicWord::SingleQuoted(x) => AtomicWord::SingleQuoted(x.clone()),
        }
    }
}

/// The name of an annotated formula.
#[derive(Debug, PartialOrd, Ord, PartialEq, Eq, Hash)]
pub enum Name<'a> {
    AtomicWord(AtomicWord<'a>),
    Integer(Integer<'a>),
}

impl<'a> Name<'a> {
    /// The canonical text.
    pub open spec fn text(&self) -> Seq<char>
    {
        match self {
            Name::AtomicWord(x) => x.text(),
            Name::Integer(x) => x.text(),
        }
    }

    /// Appends the canonical text to `f`.
    pub fn fmt(&self, f: &mut String)
        ensures
            final(f)@ == old(f)@ + self.text(),
    {
        match self {
            Name::AtomicWord(x) => x.fmt(f),
            Name::Integer(x) => x.fmt(f),
        }
        assert(f@ =~= old(f)@ + self.text());
    }

    /// The canonical text as a string.
    pub fn to_string(&self) -> (s: String)
        ensures
            s@ == self.text(),
    {
        let mut s = String::new();
        self.fmt(&mut s);
        assert(s@ =~= self.text());
        s
    }
}

impl<'a> Clone for Name<'a> {
    fn clone(&self) -> (copy: Self)
        ensures
            copy.text() == self.text(),
    {
        match self {
            Name::AtomicWord(x) => Name::AtomicWord(x.clone()),
            Name::Integer(x) => Name::Integer(x.clone()),
        }
    }
}

/// A variable.
#[derive(Debug, PartialOrd, Ord, PartialEq, Eq, Hash)]
pub struct Variable<'a>(pub UpperWord<'a>);

impl<'a> View for Variable<'a> {
    type V = Seq<char>;

    open spec fn view(&self) -> Seq<char> {
        self.0@
    }
}

impl<'a> Variable<'a> {
    /// The canonical text.
    pub open spec fn text(&self) -> Seq<char> {
        self.0.text()
    }

    /// Appends the canonical text to `f`.
    pub fn fmt(&self, f: &mut String)
        ensures
            final(f)@ == old(f)@ + self.text(),
    {
        self.0.fmt(f);
        assert(f@ =~= old(f)@ + self.text());
    }

    /// The canonical text as a string.
    pub fn to_string(&self) -> (s: String)
        ensures
            s@ == self.text(),
    {
        let mut s = String::new();
        self.fmt(&mut s);
        assert(s@ =~= self.text());
        s
    }
}

impl<'a> Clone for Variable<'a> {
    fn clone(&self) -> (copy: Self)
        ensures
            copy@ == self@,
    {
        Variable(self.0.clone())
    }
}

/// The functor of a plain term.
#[derive(Debug, PartialOrd, Ord, PartialEq, Eq, Hash)]
pub struct Functor<'a>(pub AtomicWord<'a>);

impl<'a> View for Functor<'a> {
    type V = AtomicWordModel;

    open spec fn view(&self) -> AtomicWordModel {
        self.0@
    }
}

impl<'a> Functor<'a> {
    /// The canonical text.
    pub open spec fn text(&self) -> Seq<char> {
        self.0.text()
    }

    /// Appends the canonical text to `f`.
    pub fn fmt(&self, f: &mut String)
        ensures
            final(f)@ == old(f)@ + self.text(),
    {
        self.0.fmt(f);
        assert(f@ =~= old(f)@ + self.text());
    }

    /// The canonical text as a string.
    pub fn to_string(&self) -> (s: String)
        ensures
            s@ == self.text(),
    {
        let mut s = String::new();
        self.fmt(&mut s);
        assert(s@ =~= self.text());
        s
    }
}

impl<'a> Clone for Functor<'a> {
    fn clone(&self) -> (copy: Self)
        ensures
            copy@ == self@,
    {
        Functor(self.0.clone())
    }
}

/// A plain term without arguments.
#[derive(Debug, PartialOrd, Ord, PartialEq, Eq, Hash)]
pub struct Constant<'a>(pub Functor<'a>);

impl<'a> View for Constant<'a> {
    type V = AtomicWordModel;

    open spec fn view(&self) -> AtomicWordModel {
        self.0@
    }
}

impl<'a> Constant<'a> {
    /// The canonical text.
    pub open spec fn text(&self) -> Seq<char> {
        self.0.text()
    }

    /// Appends the canonical text to `f`.
    pub fn fmt(&self, f: &mut String)
        ensures
            final(f)@ == old(f)@ + self.text(),
    {
        self.0.fmt(f);
        assert(f@ =~= old(f)@ + self.text());
    }

    /// The canonical text as a string.
    pub fn to_string(&self) -> (s: String)
        ensures
            s@ == self.text(),
    {
        let mut s = String::new();
        self.fmt(&mut s);
        assert(s@ =~= self.text());
        s
    }
}

impl<'a> Clone for Constant<'a> {
    fn clone(&self) -> (copy: Self)
        ensures
            copy@ == self@,
    {
        Constant(self.0.clone())
    }
}

/// The arguments of a function term.  A term with arguments has one or more:
/// a term without any is a constant, and is written without parentheses.
#[derive(Debug, PartialOrd, Ord, PartialEq, Eq, Hash)]
pub struct FofArguments<'a>(pub Vec<FofTerm<'a>>);

impl<'a> View for FofArguments<'a> {
    type V = Seq<TermModel>;

    open spec fn view(&self) -> Seq<TermModel> {
        self.model()
    }
}

impl<'a> FofArguments<'a> {
    /// The arguments apart from the buffer that their words are borrowed from.
    pub open spec fn model(&self) -> Seq<TermModel>
        decreases self,
    {
        Seq::new(
            self.0@.len(),
            |k: int|
                if 0 <= k < self.0@.len() {
                    self.0@[k].model()
                } else {
                    arbitrary()
                },
        )
    }

    /// The canonical text: the arguments in parentheses with commas between
    /// them, and nothing at all where there is no argument.
    pub open spec fn text(&self) -> Seq<char> {
        arguments_text(self@)
    }

    /// Appends the canonical text to `f`.
    #[verifier::loop_isolation(false)]
    pub fn fmt(&self, f: &mut String)
        ensures
            final(f)@ == old(f)@ + self.text(),
        decreases self, 0int,
    {
        if self.0.len() == 0 {
            assert(f@ =~= old(f)@ + self.text());
            return ;
        }
        let mut parts: Vec<String> = Vec::new();
        let mut k: usize = 0;
        while k < self.0.len()
            invariant
                k <= self.0.len(),
                parts@.len() == k,
                forall|j: int| 0 <= j < k ==> (#[trigger] parts@[j])@ == self.0@[j].text(),
            decreases self.0.len() - k,
        {
            let part = self.0[k].to_string();
            parts.push(part);
            k += 1;
        }
        assert(parts.deep_view() =~= term_texts(self@));
        f.append("(");
        fmt_list(f, ",", &parts);
        f.append(")");
        assert(f@ =~= old(f)@ + self.text());
    }

    /// The canonical text as a string.
    pub fn to_string(&self) -> (s: String)
        ensures
            s@ == self.text(),
        decreases self, 1int,
    {
        let mut s = String::new();
        self.fmt(&mut s);
        assert(s@ =~= self.text());
        s
    }
}

impl<'a> Clone for FofArguments<'a> {
    #[verifier::loop_isolation(false)]
    fn clone(&self) -> (copy: Self)
        ensures
            copy@ == self@,
        decreases self,
    {
        let mut items: Vec<FofTerm<'a>> = Vec::new();
        let mut k: usize = 0;
        while k < self.0.len()
            invariant
                k <= self.0.len(),
                items@.len() == k,
                forall|j: int| 0 <= j < k ==> (#[trigger] items@[j])@ == self.0@[j]@,
            decreases self.0.len() - k,
        {
            let item = self.0[k].clone();
            items.push(item);
            k += 1;
        }
        let copy = FofArguments(items);
        assert(copy@ =~= self@);
        copy
    }
}

/// A system term: a constant, or a functor with its arguments.
#[derive(Debug, PartialOrd, Ord, PartialEq, Eq, Hash)]
pub enum FofSystemTerm<'a> {
    Constant(SystemConstant<'a>),
    Function(SystemFunctor<'a>, FofArguments<'a>),
}

impl<'a> View for FofSystemTerm<'a> {
    type V = SystemTermModel;

    open spec fn view(&self) -> SystemTermModel {
        self.model()
    }
}

impl<'a> FofSystemTerm<'a> {
    /// The tree apart from the buffer that its words are borrowed from.
    pub open spec fn model(&self) -> SystemTermModel
        decreases self,
    {
        match self {
            FofSystemTerm::Constant(c) => SystemTermModel::Constant(c@),
            FofSystemTerm::Function(name, args) => SystemTermModel::Function(name@, args.model()),
        }
    }

    /// The canonical text.
    pub open spec fn text(&self) -> Seq<char> {
        self@.text()
    }

    /// The invariants of the syntax hold of this tree.
    pub open spec fn wf(&self) -> bool {
        self@.wf()
    }

    /// Appends the canonical text to `f`.
    pub fn fmt(&self, f: &mut String)
        ensures
            final(f)@ == old(f)@ + self.text(),
        decreases self, 0int,
    {
        match self {
            FofSystemTerm::Constant(c) => c.fmt(f),
            FofSystemTerm::Function(name, args) => {
                name.fmt(f);
                args.fmt(f);
            },
        }
        assert(f@ =~= old(f)@ + self.text());
    }

    /// The canonical text as a string.
    pub fn to_string(&self) -> (s: String)
        ensures
            s@ == self.text(),
        decreases self, 1int,
    {
        let mut s = String::new();
        self.fmt(&mut s);
        assert(s@ =~= self.text());
        s
    }
}

impl<'a> Clone for FofSystemTerm<'a> {
    fn clone(&self) -> (copy: Self)
        ensures
            copy@ == self@,
        decreases self,
    {
        match self {
            FofSystemTerm::Constant(c) => FofSystemTerm::Constant(c.clone()),
            FofSystemTerm::Function(name, args) => FofSystemTerm::Function(
                name.clone(),
                args.clone(),
            ),
        }
    }
}

/// A plain term: a constant, or a functor with its arguments.
#[derive(Debug, PartialOrd, Ord, PartialEq, Eq, Hash)]
pub enum FofPlainTerm<'a> {
    Constant(Constant<'a>),
    Function(Functor<'a>, FofArguments<'a>),
}

impl<'a> View for FofPlainTerm<'a> {
    type V = PlainTermModel;

    open spec fn view(&self) -> PlainTermModel {
        self.model()
    }
}

impl<'a> FofPlainTerm<'a> {
    /// The tree apart from the buffer that its words are borrowed from.
    pub open spec fn model(&self) -> PlainTermModel
        decreases self,
    {
        match self {
            FofPlainTerm::Constant(c) => PlainTermModel::Constant(c@),
            FofPlainTerm::Function(name, args) => PlainTermModel::Function(name@, args.model()),
        }
    }

    /// The canonical text.
    pub open spec fn text(&self) -> Seq<char> {
        self@.text()
    }

    /// The invariants of the syntax hold of this tree.
    pub open spec fn wf(&self) -> bool {
        self@.wf()
    }

    /// Appends the canonical text to `f`.
    pub fn fmt(&self, f: &mut String)
        ensures
            final(f)@ == old(f)@ + self.text(),
        decreases self, 0int,
    {
        match self {
            FofPlainTerm::Constant(c) => c.fmt(f),
            FofPlainTerm::Function(name, args) => {
                name.fmt(f);
                args.fmt(f);
            },
        }
        assert(f@ =~= old(f)@ + self.text());
    }

    /// The canonical text as a string.
    pub fn to_string(&self) -> (s: String)
        ensures
            s@ == self.text(),
        decreases self, 1int,
    {
        let mut s = String::new();
        self.fmt(&mut s);
        assert(s@ =~= self.text());
        s
    }
}

impl<'a> Clone for FofPlainTerm<'a> {
    fn clone(&self) -> (copy: Self)
        ensures
            copy@ == self@,
        decreases self,
    {
        match self {
            FofPlainTerm::Constant(c) => FofPlainTerm::Constant(c.clone()),
            FofPlainTerm::Function(name, args) => FofPlainTerm::Function(
                name.clone(),
                args.clone(),
            ),
        }
    }
}

/// The name of a defined item.
#[derive(Debug, PartialOrd, Ord, PartialEq, Eq, Hash)]
pub struct AtomicDefinedWord<'a>(pub DollarWord<'a>);

impl<'a> View for AtomicDefinedWord<'a> {
    type V = Seq<char>;

    open spec fn view(&self) -> Seq<char> {
        self.0@
    }
}

impl<'a> AtomicDefinedWord<'a> {
    /// The canonical text.
    pub open spec fn text(&self) -> Seq<char> {
        self.0.text()
    }

    /// Appends the canonical text to `f`.
    pub fn fmt(&self, f: &mut String)
        ensures
            final(f)@ == old(f)@ + self.text(),
    {
        self.0.fmt(f);
        assert(f@ =~= old(f)@ + self.text());
    }

    /// The canonical text as a string.
    pub fn to_string(&self) -> (s: String)
        ensures
            s@ == self.text(),
    {
        let mut s = String::new();
        self.fmt(&mut s);
        assert(s@ =~= self.text());
        s
    }
}

impl<'a> Clone for AtomicDefinedWord<'a> {
    fn clone(&self) -> (copy: Self)
        ensures
            copy@ == self@,
    {
        AtomicDefinedWord(self.0.clone())
    }
}

/// The functor of a defined term.
#[derive(Debug, PartialOrd, Ord, PartialEq, Eq, Hash)]
pub struct DefinedFunctor<'a>(pub AtomicDefinedWord<'a>);

impl<'a> View for DefinedFunctor<'a> {
    type V = Seq<char>;

    open spec fn view(&self) -> Seq<char> {
        self.0@
    }
}

impl<'a> DefinedFunctor<'a> {
    /// The canonical text.
    pub open spec fn text(&self) -> Seq<char> {
        self.0.text()
    }

    /// Appends the canonical text to `f`.
    pub fn fmt(&self, f: &mut String)
        ensures
            final(f)@ == old(f)@ + self.text(),
    {
        self.0.fmt(f);
        assert(f@ =~= old(f)@ + self.text());
    }

    /// The canonical text as a string.
    pub fn to_string(&self) -> (s: String)
        ensures
            s@ == self.text(),
    {
        let mut s = String::new();
        self.fmt(&mut s);
        assert(s@ =~= self.text());
        s
    }
}

impl<'a> Clone for DefinedFunctor<'a> {
    fn clone(&self) -> (copy: Self)
        ensures
            copy@ == self@,
    {
        DefinedFunctor(self.0.clone())
    }
}

/// A defined term without arguments.
#[derive(Debug, PartialOrd, Ord, PartialEq, Eq, Hash)]
pub struct DefinedConstant<'a>(pub DefinedFunctor<'a>);

impl<'a> View for DefinedConstant<'a> {
    type V = Seq<char>;

    open spec fn view(&self) -> Seq<char> {
        self.0@
    }
}

impl<'a> DefinedConstant<'a> {
    /// The canonical text.
    pub open spec fn text(&self) -> Seq<char> {
        self.0.text()
    }

    /// Appends the canonical text to `f`.
    pub fn fmt(&self, f: &mut String)
        ensures
            final(f)@ == old(f)@ + self.text(),
    {
        self.0.fmt(f);
        assert(f@ =~= old(f)@ + self.text());
    }

    /// The canonical text as a string.
    pub fn to_string(&self) -> (s: String)
        ensures
            s@ == self.text(),
    {
        let mut s = String::new();
        self.fmt(&mut s);
        assert(s@ =~= self.text());
        s
    }
}

impl<'a> Clone for DefinedConstant<'a> {
    fn clone(&self) -> (copy: Self)
        ensures
            copy@ == self@,
    {
        DefinedConstant(self.0.clone())
    }
}

/// A defined plain term.
#[derive(Debug, PartialOrd, Ord, PartialEq, Eq, Hash)]
pub struct FofDefinedPlainTerm<'a>(pub DefinedConstant<'a>);

impl<'a> View for FofDefinedPlainTerm<'a> {
    type V = Seq<char>;

    open spec fn view(&self) -> Seq<char> {
        self.0@
    }
}

impl<'a> FofDefinedPlainTerm<'a> {
    /// The canonical text.
    pub open spec fn text(&self) -> Seq<char> {
        self.0.text()
    }

    /// Appends the canonical text to `f`.
    pub fn fmt(&self, f: &mut String)
        ensures
            final(f)@ == old(f)@ + self.text(),
    {
        self.0.fmt(f);
        assert(f@ =~= old(f)@ + self.text());
    }

    /// The canonical text as a string.
    pub fn to_string(&self) -> (s: String)
        ensures
            s@ == self.text(),
    {
        let mut s = String::new();
        self.fmt(&mut s);
        assert(s@ =~= self.text());
        s
    }
}

impl<'a> Clone for FofDefinedPlainTerm<'a> {
    fn clone(&self) -> (copy: Self)
        ensures
            copy@ == self@,
    {
        FofDefinedPlainTerm(self.0.clone())
    }
}

/// A defined atomic term.
#[derive(Debug, PartialOrd, Ord, PartialEq, Eq, Hash)]
pub struct FofDefinedAtomicTerm<'a>(pub FofDefinedPlainTerm<'a>);

impl<'a> View for FofDefinedAtomicTerm<'a> {
    type V = Seq<char>;

    open spec fn view(&self) -> Seq<char> {
        self.0@
    }
}

impl<'a> FofDefinedAtomicTerm<'a> {
    /// The canonical text.
    pub open spec fn text(&self) -> Seq<char> {
        self.0.text()
    }

    /// Appends the canonical text to `f`.
    pub fn fmt(&self, f: &mut String)
        ensures
            final(f)@ == old(f)@ + self.text(),
    {
        self.0.fmt(f);
        assert(f@ =~= old(f)@ + self.text());
    }

    /// The canonical text as a string.
    pub fn to_string(&self) -> (s: String)
        ensures
            s@ == self.text(),
    {
        let mut s = String::new();
        self.fmt(&mut s);
        assert(s@ =~= self.text());
        s
    }
}

impl<'a> Clone for FofDefinedAtomicTerm<'a> {
    fn clone(&self) -> (copy: Self)
        ensures
            copy@ == self@,
    {
        FofDefinedAtomicTerm(self.0.clone())
    }
}

/// A numeral or a distinct object.
#[derive(Debug, PartialOrd, Ord, PartialEq, Eq, Hash)]
pub enum DefinedTerm<'a> {
    Number(Number<'a>),
    Distinct(DistinctObject<'a>),
}

impl<'a> View for DefinedTerm<'a> {
    type V = DefinedTermModel;

    open spec fn view(&self) -> DefinedTermModel {
        match self {
            DefinedTerm::Number(x) => DefinedTermModel::Number(x@),
            DefinedTerm::Distinct(x) => DefinedTermModel::Distinct(x@),
        }
    }
}

impl<'a> DefinedTerm<'a> {
    /// The canonical text.
    pub open spec fn text(&self) -> Seq<char> {
        self@.text()
    }

    /// Appends the canonical text to `f`.
    pub fn fmt(&self, f: &mut String)
        ensures
            final(f)@ == old(f)@ + self.text(),
    {
        match self {
            DefinedTerm::Number(x) => x.fmt(f),
            DefinedTerm::Distinct(x) => x.fmt(f),
        }
        assert(f@ =~= old(f)@ + self.text());
    }

    /// The canonical text as a string.
    pub fn to_string(&self) -> (s: String)
        ensures
            s@ == self.text(),
    {
        let mut s = String::new();
        self.fmt(&mut s);
        assert(s@ =~= self.text());
        s
    }
}

impl<'a> Clone for DefinedTerm<'a> {
    fn clone(&self) -> (copy: Self)
        ensures
            copy@ == self@,
    {
        match self {
            DefinedTerm::Number(x) => DefinedTerm::Number(x.clone()),
            DefinedTerm::Distinct(x) => DefinedTerm::Distinct(x.clone()),
        }
    }
}

/// A defined term.
#[derive(Debug, PartialOrd, Ord, PartialEq, Eq, Hash)]
pub enum FofDefinedTerm<'a> {
    Defined(DefinedTerm<'a>),
    Atomic(FofDefinedAtomicTerm<'a>),
}

impl<'a> View for FofDefinedTerm<'a> {
    type V = FofDefinedTermModel;

    open spec fn view(&self) -> FofDefinedTermModel {
        match self {
            FofDefinedTerm::Defined(x) => FofDefinedTermModel::Defined(x@),
            FofDefinedTerm::Atomic(x) => FofDefinedTermModel::Atomic(x@),
        }
    }
}

impl<'a> FofDefinedTerm<'a> {
    /// The canonical text.
    pub open spec fn text(&self) -> Seq<char> {
        self@.text()
    }

    /// Appends the canonical text to `f`.
    pub fn fmt(&self, f: &mut String)
        ensures
            final(f)@ == old(f)@ + self.text(),
    {
        match self {
            FofDefinedTerm::Defined(x) => x.fmt(f),
            FofDefinedTerm::Atomic(x) => x.fmt(f),
        }
        assert(f@ =~= old(f)@ + self.text());
    }

    /// The canonical text as a string.
    pub fn to_string(&self) -> (s: String)
        ensures
            s@ == self.text(),
    {
        let mut s = String::new();
        self.fmt(&mut s);
        assert(s@ =~= self.text());
        s
    }
}

impl<'a> Clone for FofDefinedTerm<'a> {
    fn clone(&self) -> (copy: Self)
        ensures
            copy@ == self@,
    {
        match self {
            FofDefinedTerm::Defined(x) => FofDefinedTerm::Defined(x.clone()),
            FofDefinedTerm::Atomic(x) => FofDefinedTerm::Atomic(x.clone()),
        }
    }
}

/// A term that is no variable.
#[derive(Debug, PartialOrd, Ord, PartialEq, Eq, Hash)]
pub enum FofFunctionTerm<'a> {
    Plain(FofPlainTerm<'a>),
    Defined(FofDefinedTerm<'a>),
    System(FofSystemTerm<'a>),
}

impl<'a> View for FofFunctionTerm<'a> {
    type V = FunctionTermModel;

    open spec fn view(&self) -> FunctionTermModel {
        self.model()
    }
}

impl<'a> FofFunctionTerm<'a> {
    /// The tree apart from the buffer that its words are borrowed from.
    pub open spec fn model(&self) -> FunctionTermModel
        decreases self,
    {
        match self {
            FofFunctionTerm::Plain(x) => FunctionTermModel::Plain(x.model()),
            FofFunctionTerm::Defined(x) => FunctionTermModel::Defined(x@),
            FofFunctionTerm::System(x) => FunctionTermModel::System(x.model()),
        }
    }

    /// The canonical text.
    pub open spec fn text(&self) -> Seq<char> {
        self@.text()
    }

    /// The invariants of the syntax hold of this tree.
    pub open spec fn wf(&self) -> bool {
        self@.wf()
    }

    /// Appends the canonical text to `f`.
    pub fn fmt(&self, f: &mut String)
        ensures
            final(f)@ == old(f)@ + self.text(),
        decreases self, 0int,
    {
        match self {
            FofFunctionTerm::Plain(x) => x.fmt(f),
            FofFunctionTerm::Defined(x) => x.fmt(f),
            FofFunctionTerm::System(x) => x.fmt(f),
        }
        assert(f@ =~= old(f)@ + self.text());
    }

    /// The canonical text as a string.
    pub fn to_string(&self) -> (s: String)
        ensures
            s@ == self.text(),
        decreases self, 1int,
    {
        let mut s = String::new();
        self.fmt(&mut s);
        assert(s@ =~= self.text());
        s
    }
}

impl<'a> Clone for FofFunctionTerm<'a> {
    fn clone(&self) -> (copy: Self)
        ensures
            copy@ == self@,
        decreases self,
    {
        match self {
            FofFunctionTerm::Plain(x) => FofFunctionTerm::Plain(x.clone()),
            FofFunctionTerm::Defined(x) => FofFunctionTerm::Defined(x.clone()),
            FofFunctionTerm::System(x) => FofFunctionTerm::System(x.clone()),
        }
    }
}

/// A term.
#[derive(Debug, PartialOrd, Ord, PartialEq, Eq, Hash)]
pub enum FofTerm<'a> {
    Function(FofFunctionTerm<'a>),
    Variable(Variable<'a>),
}

impl<'a> View for FofTerm<'a> {
    type V = TermModel;

    open spec fn view(&self) -> TermModel {
        self.model()
    }
}

impl<'a> FofTerm<'a> {
    /// The tree apart from the buffer that its words are borrowed from.
    pub open spec fn model(&self) -> TermModel
        decreases self,
    {
        match self {
            FofTerm::Function(x) => TermModel::Function(x.model()),
            FofTerm::Variable(x) => TermModel::Variable(x@),
        }
    }

    /// The canonical text.
    pub open spec fn text(&self) -> Seq<char> {
        self@.text()
    }

    /// The invariants of the syntax hold of this tree.
    pub open spec fn wf(&self) -> bool {
        self@.wf()
    }

    /// Appends the canonical text to `f`.
    pub fn fmt(&self, f: &mut String)
        ensures
            final(f)@ == old(f)@ + self.text(),
        decreases self, 0int,
    {
        match self {
            FofTerm::Function(x) => x.fmt(f),
            FofTerm::Variable(x) => x.fmt(f),
        }
        assert(f@ =~= old(f)@ + self.text());
    }

    /// The canonical text as a string.
    pub fn to_string(&self) -> (s: String)
        ensures
            s@ == self.text(),
        decreases self, 1int,
    {
        let mut s = String::new();
        self.fmt(&mut s);
        assert(s@ =~= self.text());
        s
    }
}

impl<'a> Clone for FofTerm<'a> {
    fn clone(&self) -> (copy: Self)
        ensures
            copy@ == self@,
        decreases self,
    {
        match self {
            FofTerm::Function(x) => FofTerm::Function(x.clone()),
            FofTerm::Variable(x) => FofTerm::Variable(x.clone()),
        }
    }
}

/// The negation sign.
#[derive(Clone, Copy, Debug, PartialOrd, Ord, PartialEq, Eq, Hash)]
pub struct UnaryConnective;

impl UnaryConnective {
    /// The canonical text.
    pub open spec fn text(&self) -> Seq<char> {
        "~"@
    }

    /// Appends the canonical text to `f`.
    pub fn fmt(&self, f: &mut String)
        ensures
            final(f)@ == old(f)@ + self.text(),
    {
        f.append("~");
    }

    /// The canonical text as a string.
    pub fn to_string(&self) -> (s: String)
        ensures
            s@ == self.text(),
    {
        let mut s = String::new();
        self.fmt(&mut s);
        assert(s@ =~= self.text());
        s
    }
}

/// The equality sign.
#[derive(Clone, Copy, Debug, PartialOrd, Ord, PartialEq, Eq, Hash)]
pub struct InfixEquality;

impl InfixEquality {
    /// The canonical text.
    pub open spec fn text(&self) -> Seq<char> {
        "="@
    }

    /// Appends the canonical text to `f`.
    pub fn fmt(&self, f: &mut String)
        ensures
            final(f)@ == old(f)@ + self.text(),
    {
        f.append("=");
    }

    /// The canonical text as a string.
    pub fn to_string(&self) -> (s: String)
        ensures
            s@ == self.text(),
    {
        let mut s = String::new();
        self.fmt(&mut s);
        assert(s@ =~= self.text());
        s
    }
}

/// The inequality sign.
#[derive(Clone, Copy, Debug, PartialOrd, Ord, PartialEq, Eq, Hash)]
pub struct InfixInequality;

impl InfixInequality {
    /// The canonical text.
    pub open spec fn text(&self) -> Seq<char> {
        "!="@
    }

    /// Appends the canonical text to `f`.
    pub fn fmt(&self, f: &mut String)
        ensures
            final(f)@ == old(f)@ + self.text(),
    {
        f.append("!=");
    }

    /// The canonical text as a string.
    pub fn to_string(&self) -> (s: String)
        ensures
            s@ == self.text(),
    {
        let mut s = String::new();
        self.fmt(&mut s);
        assert(s@ =~= self.text());
        s
    }
}

/// A connective that joins exactly two unit formulas.
#[derive(Clone, Copy, Debug, PartialOrd, Ord, PartialEq, Eq, Hash)]
pub enum NonassocConnective {
    /// `=>`
    LRImplies,
    /// `<=`
    RLImplies,
    /// `<=>`
    Equivalent,
    /// `<~>`
    NotEquivalent,
    /// `~|`
    NotOr,
    /// `~&`
    NotAnd,
}

impl NonassocConnective {
    /// The canonical text.
    pub open spec fn text(&self) -> Seq<char> {
        match self {
            NonassocConnective::LRImplies => "=>"@,
            NonassocConnective::RLImplies => "<="@,
            NonassocConnective::Equivalent => "<=>"@,
            NonassocConnective::NotEquivalent => "<~>"@,
            NonassocConnective::NotOr => "~|"@,
            NonassocConnective::NotAnd => "~&"@,
        }
    }

    /// Appends the canonical text to `f`.
    pub fn fmt(&self, f: &mut String)
        ensures
            final(f)@ == old(f)@ + self.text(),
    {
        match self {
            NonassocConnective::LRImplies => f.append("=>"),
            NonassocConnective::RLImplies => f.append("<="),
            NonassocConnective::Equivalent => f.append("<=>"),
            NonassocConnective::NotEquivalent => f.append("<~>"),
            NonassocConnective::NotOr => f.append("~|"),
            NonassocConnective::NotAnd => f.append("~&"),
        }
    }

    /// The canonical text as a string.
    pub fn to_string(&self) -> (s: String)
        ensures
            s@ == self.text(),
    {
        let mut s = String::new();
        self.fmt(&mut s);
        assert(s@ =~= self.text());
        s
    }
}

/// A connective that joins a run of unit formulas.
#[derive(Clone, Copy, Debug, PartialOrd, Ord, PartialEq, Eq, Hash)]
pub enum AssocConnective {
    /// `&`
    And,
    /// `|`
    Or,
}

impl AssocConnective {
    /// The canonical text.
    pub open spec fn text(&self) -> Seq<char> {
        match self {
            AssocConnective::And => "&"@,
            AssocConnective::Or => "|"@,
        }
    }

    /// Appends the canonical text to `f`.
    pub fn fmt(&self, f: &mut String)
        ensures
            final(f)@ == old(f)@ + self.text(),
    {
        match self {
            AssocConnective::And => f.append("&"),
            AssocConnective::Or => f.append("|"),
        }
    }

    /// The canonical text as a string.
    pub fn to_string(&self) -> (s: String)
        ensures
            s@ == self.text(),
    {
        let mut s = String::new();
        self.fmt(&mut s);
        assert(s@ =~= self.text());
        s
    }
}

/// A quantifier.
#[derive(Clone, Copy, Debug, PartialOrd, Ord, PartialEq, Eq, Hash)]
pub enum FofQuantifier {
    /// `!`
    Forall,
    /// `?`
    Exists,
}

impl FofQuantifier {
    /// The canonical text.
    pub open spec fn text(&self) -> Seq<char> {
        match self {
            FofQuantifier::Forall => "!"@,
            FofQuantifier::Exists => "?"@,
        }
    }

    /// Appends the canonical text to `f`.
    pub fn fmt(&self, f: &mut String)
        ensures
            final(f)@ == old(f)@ + self.text(),
    {
        match self {
            FofQuantifier::Forall => f.append("!"),
            FofQuantifier::Exists => f.append("?"),
        }
    }

    /// The canonical text as a string.
    pub fn to_string(&self) -> (s: String)
        ensures
            s@ == self.text(),
    {
        let mut s = String::new();
        self.fmt(&mut s);
        assert(s@ =~= self.text());
        s
    }
}

/// A binary connective of either kind.
#[derive(Clone, Copy, Debug, PartialOrd, Ord, PartialEq, Eq, Hash)]
pub enum Connective {
    Assoc(AssocConnective),
    Nonassoc(NonassocConnective),
}

impl View for Connective {
    type V = Connective;

    open spec fn view(&self) -> Connective {
        *self
    }
}

impl Connective {
    /// The canonical text.
    pub open spec fn text(&self) -> Seq<char> {
        match self {
            Connective::Assoc(c) => c.text(),
            Connective::Nonassoc(c) => c.text(),
        }
    }

    /// Appends the canonical text to `f`.
    pub fn fmt(&self, f: &mut String)
        ensures
            final(f)@ == old(f)@ + self.text(),
    {
        match self {
            Connective::Assoc(c) => c.fmt(f),
            Connective::Nonassoc(c) => c.fmt(f),
        }
    }

    /// The canonical text as a string.
    pub fn to_string(&self) -> (s: String)
        ensures
            s@ == self.text(),
    {
        let mut s = String::new();
        self.fmt(&mut s);
        assert(s@ =~= self.text());
        s
    }
}

/// A system term as a proposition.
#[derive(Debug, PartialOrd, Ord, PartialEq, Eq, Hash)]
pub struct FofSystemAtomicFormula<'a>(pub FofSystemTerm<'a>);

impl<'a> View for FofSystemAtomicFormula<'a> {
    type V = SystemTermModel;

    open spec fn view(&self) -> SystemTermModel {
        self.0@
    }
}

impl<'a> FofSystemAtomicFormula<'a> {
    /// The canonical text.
    pub open spec fn text(&self) -> Seq<char> {
        self.0.text()
    }

    /// Appends the canonical text to `f`.
    pub fn fmt(&self, f: &mut String)
        ensures
            final(f)@ == old(f)@ + self.text(),
    {
        self.0.fmt(f);
        assert(f@ =~= old(f)@ + self.text());
    }

    /// The canonical text as a string.
    pub fn to_string(&self) -> (s: String)
        ensures
            s@ == self.text(),
    {
        let mut s = String::new();
        self.fmt(&mut s);
        assert(s@ =~= self.text());
        s
    }
}

impl<'a> Clone for FofSystemAtomicFormula<'a> {
    fn clone(&self) -> (copy: Self)
        ensures
            copy@ == self@,
    {
        FofSystemAtomicFormula(self.0.clone())
    }
}

/// A plain term as a proposition.
#[derive(Debug, PartialOrd, Ord, PartialEq, Eq, Hash)]
pub struct FofPlainAtomicFormula<'a>(pub FofPlainTerm<'a>);

impl<'a> View for FofPlainAtomicFormula<'a> {
    type V = PlainTermModel;

    open spec fn view(&self) -> PlainTermModel {
        self.0@
    }
}

impl<'a> FofPlainAtomicFormula<'a> {
    /// The canonical text.
    pub open spec fn text(&self) -> Seq<char> {
        self.0.text()
    }

    /// Appends the canonical text to `f`.
    pub fn fmt(&self, f: &mut String)
        ensures
            final(f)@ == old(f)@ + self.text(),
    {
        self.0.fmt(f);
        assert(f@ =~= old(f)@ + self.text());
    }

    /// The canonical text as a string.
    pub fn to_string(&self) -> (s: String)
        ensures
            s@ == self.text(),
    {
        let mut s = String::new();
        self.fmt(&mut s);
        assert(s@ =~= self.text());
        s
    }
}

impl<'a> Clone for FofPlainAtomicFormula<'a> {
    fn clone(&self) -> (copy: Self)
        ensures
            copy@ == self@,
    {
        FofPlainAtomicFormula(self.0.clone())
    }
}

/// A defined predicate written between its two arguments.
#[derive(Clone, Copy, Debug, PartialOrd, Ord, PartialEq, Eq, Hash)]
pub struct DefinedInfixPred(pub InfixEquality);

impl DefinedInfixPred {
    /// The canonical text.
    pub open spec fn text(&self) -> Seq<char> {
        self.0.text()
    }

    /// Appends the canonical text to `f`.
    pub fn fmt(&self, f: &mut String)
        ensures
            final(f)@ == old(f)@ + self.text(),
    {
        self.0.fmt(f);
        assert(f@ =~= old(f)@ + self.text());
    }

    /// The canonical text as a string.
    pub fn to_string(&self) -> (s: String)
        ensures
            s@ == self.text(),
    {
        let mut s = String::new();
        self.fmt(&mut s);
        assert(s@ =~= self.text());
        s
    }
}

/// An equation between two terms.
#[derive(Debug, PartialOrd, Ord, PartialEq, Eq, Hash)]
pub struct FofDefinedInfixFormula<'a> {
    pub left: Box<FofTerm<'a>>,
    pub op: DefinedInfixPred,
    pub right: Box<FofTerm<'a>>,
}

impl<'a> View for FofDefinedInfixFormula<'a> {
    type V = InfixModel;

    open spec fn view(&self) -> InfixModel {
        InfixModel { left: self.left@, right: self.right@ }
    }
}

impl<'a> FofDefinedInfixFormula<'a> {
    /// The canonical text.
    pub open spec fn text(&self) -> Seq<char> {
        self@.equality_text()
    }

    /// Appends the canonical text to `f`.
    pub fn fmt(&self, f: &mut String)
        ensures
            final(f)@ == old(f)@ + self.text(),
    {
        self.left.fmt(f);
        self.op.fmt(f);
        self.right.fmt(f);
        assert(f@ =~= old(f)@ + self.text());
    }

    /// The canonical text as a string.
    pub fn to_string(&self) -> (s: String)
        ensures
            s@ == self.text(),
    {
        let mut s = String::new();
        self.fmt(&mut s);
        assert(s@ =~= self.text());
        s
    }
}

impl<'a> Clone for FofDefinedInfixFormula<'a> {
    fn clone(&self) -> (copy: Self)
        ensures
            copy@ == self@,
    {
        FofDefinedInfixFormula {
            left: Box::new((*self.left).clone()),
            op: self.op,
            right: Box::new((*self.right).clone()),
        }
    }
}

/// A defined proposition.
#[derive(Debug, PartialOrd, Ord, PartialEq, Eq, Hash)]
pub struct FofDefinedPlainFormula<'a>(pub FofDefinedPlainTerm<'a>);

impl<'a> View for FofDefinedPlainFormula<'a> {
    type V = Seq<char>;

    open spec fn view(&self) -> Seq<char> {
        self.0@
    }
}

impl<'a> FofDefinedPlainFormula<'a> {
    /// The canonical text.
    pub open spec fn text(&self) -> Seq<char> {
        self.0.text()
    }

    /// Appends the canonical text to `f`.
    pub fn fmt(&self, f: &mut String)
        ensures
            final(f)@ == old(f)@ + self.text(),
    {
        self.0.fmt(f);
        assert(f@ =~= old(f)@ + self.text());
    }

    /// The canonical text as a string.
    pub fn to_string(&self) -> (s: String)
        ensures
            s@ == self.text(),
    {
        let mut s = String::new();
        self.fmt(&mut s);
        assert(s@ =~= self.text());
        s
    }
}

impl<'a> Clone for FofDefinedPlainFormula<'a> {
    fn clone(&self) -> (copy: Self)
        ensures
            copy@ == self@,
    {
        FofDefinedPlainFormula(self.0.clone())
    }
}

/// A defined atomic formula.
#[derive(Debug, PartialOrd, Ord, PartialEq, Eq, Hash)]
pub enum FofDefinedAtomicFormula<'a> {
    Plain(FofDefinedPlainFormula<'a>),
    Infix(FofDefinedInfixFormula<'a>),
}

impl<'a> View for FofDefinedAtomicFormula<'a> {
    type V = DefinedAtomicModel;

    open spec fn view(&self) -> DefinedAtomicModel {
        match self {
            FofDefinedAtomicFormula::Plain(x) => DefinedAtomicModel::Plain(x@),
            FofDefinedAtomicFormula::Infix(x) => DefinedAtomicModel::Infix(x@),
        }
    }
}

impl<'a> FofDefinedAtomicFormula<'a> {
    /// The canonical text.
    pub open spec fn text(&self) -> Seq<char> {
        self@.text()
    }

    /// Appends the canonical text to `f`.
    pub fn fmt(&self, f: &mut String)
        ensures
            final(f)@ == old(f)@ + self.text(),
    {
        match self {
            FofDefinedAtomicFormula::Plain(x) => x.fmt(f),
            FofDefinedAtomicFormula::Infix(x) => x.fmt(f),
        }
        assert(f@ =~= old(f)@ + self.text());
    }

    /// The canonical text as a string.
    pub fn to_string(&self) -> (s: String)
        ensures
            s@ == self.text(),
    {
        let mut s = String::new();
        self.fmt(&mut s);
        assert(s@ =~= self.text());
        s
    }
}

impl<'a> Clone for FofDefinedAtomicFormula<'a> {
    fn clone(&self) -> (copy: Self)
        ensures
            copy@ == self@,
    {
        match self {
            FofDefinedAtomicFormula::Plain(x) => FofDefinedAtomicFormula::Plain(x.clone()),
            FofDefinedAtomicFormula::Infix(x) => FofDefinedAtomicFormula::Infix(x.clone()),
        }
    }
}

/// An atomic formula.
#[derive(Debug, PartialOrd, Ord, PartialEq, Eq, Hash)]
pub enum FofAtomicFormula<'a> {
    Plain(FofPlainAtomicFormula<'a>),
    Defined(FofDefinedAtomicFormula<'a>),
    System(FofSystemAtomicFormula<'a>),
}

impl<'a> View for FofAtomicFormula<'a> {
    type V = AtomicModel;

    open spec fn view(&self) -> AtomicModel {
        match self {
            FofAtomicFormula::Plain(x) => AtomicModel::Plain(x@),
            FofAtomicFormula::Defined(x) => AtomicModel::Defined(x@),
            FofAtomicFormula::System(x) => AtomicModel::System(x@),
        }
    }
}

impl<'a> FofAtomicFormula<'a> {
    /// The canonical text.
    pub open spec fn text(&self) -> Seq<char> {
        self@.text()
    }

    /// The invariants of the syntax hold of this tree.
    pub open spec fn wf(&self) -> bool {
        self@.wf()
    }

    /// Appends the canonical text to `f`.
    pub fn fmt(&self, f: &mut String)
        ensures
            final(f)@ == old(f)@ + self.text(),
    {
        match self {
            FofAtomicFormula::Plain(x) => x.fmt(f),
            FofAtomicFormula::Defined(x) => x.fmt(f),
            FofAtomicFormula::System(x) => x.fmt(f),
        }
        assert(f@ =~= old(f)@ + self.text());
    }

    /// The canonical text as a string.
    pub fn to_string(&self) -> (s: String)
        ensures
            s@ == self.text(),
    {
        let mut s = String::new();
        self.fmt(&mut s);
        assert(s@ =~= self.text());
        s
    }
}

impl<'a> Clone for FofAtomicFormula<'a> {
    fn clone(&self) -> (copy: Self)
        ensures
            copy@ == self@,
    {
        match self {
            FofAtomicFormula::Plain(x) => FofAtomicFormula::Plain(x.clone()),
            FofAtomicFormula::Defined(x) => FofAtomicFormula::Defined(x.clone()),
            FofAtomicFormula::System(x) => FofAtomicFormula::System(x.clone()),
        }
    }
}

/// The variables that a quantifier binds, in the order in which they are
/// written: one or more.
#[derive(Debug, PartialOrd, Ord, PartialEq, Eq, Hash)]
pub struct FofVariableList<'a>(pub Vec<Variable<'a>>);

impl<'a> View for FofVariableList<'a> {
    type V = Seq<Seq<char>>;

    open spec fn view(&self) -> Seq<Seq<char>> {
        Seq::new(self.0@.len(), |k: int| self.0@[k]@)
    }
}

impl<'a> FofVariableList<'a> {
    /// The canonical text: the variables with commas between them.
    pub open spec fn text(&self) -> Seq<char> {
        join(self@, ","@)
    }

    /// Appends the canonical text to `f`.
    #[verifier::loop_isolation(false)]
    pub fn fmt(&self, f: &mut String)
        ensures
            final(f)@ == old(f)@ + self.text(),
    {
        let mut parts: Vec<String> = Vec::new();
        let mut k: usize = 0;
        while k < self.0.len()
            invariant
                k <= self.0.len(),
                parts@.len() == k,
                forall|j: int| 0 <= j < k ==> (#[trigger] parts@[j])@ == self.0@[j].text(),
            decreases self.0.len() - k,
        {
            let part = self.0[k].to_string();
            parts.push(part);
            k += 1;
        }
        assert(parts.deep_view() =~= self@);
        fmt_list(f, ",", &parts);
        assert(f@ =~= old(f)@ + self.text());
    }

    /// The canonical text as a string.
    pub fn to_string(&self) -> (s: String)
        ensures
            s@ == self.text(),
    {
        let mut s = String::new();
        self.fmt(&mut s);
        assert(s@ =~= self.text());
        s
    }
}

impl<'a> Clone for FofVariableList<'a> {
    fn clone(&self) -> (copy: Self)
        ensures
            copy@ == self@,
    {
        let mut items: Vec<Variable<'a>> = Vec::new();
        let mut k: usize = 0;
        while k < self.0.len()
            invariant
                k <= self.0.len(),
                items@.len() == k,
                forall|j: int| 0 <= j < k ==> (#[trigger] items@[j])@ == self.0@[j]@,
            decreases self.0.len() - k,
        {
            let item = self.0[k].clone();
            items.push(item);
            k += 1;
        }
        let copy = FofVariableList(items);
        assert(copy@ =~= self@);
        copy
    }
}

/// A quantifier, the variables that it binds, and the unit formula that it
/// governs.
#[derive(Debug, PartialOrd, Ord, PartialEq, Eq, Hash)]
pub struct FofQuantifiedFormula<'a> {
    pub quantifier: FofQuantifier,
    pub bound: FofVariableList<'a>,
    pub formula: Box<FofUnitFormula<'a>>,
}

impl<'a> View for FofQuantifiedFormula<'a> {
    type V = QuantifiedModel;

    open spec fn view(&self) -> QuantifiedModel {
        self.model()
    }
}

impl<'a> FofQuantifiedFormula<'a> {
    /// The tree apart from the buffer that its words are borrowed from.
    pub open spec fn model(&self) -> QuantifiedModel
        decreases self,
    {
        QuantifiedModel {
            quantifier: self.quantifier,
            bound: self.bound@,
            formula: Box::new(self.formula.model()),
        }
    }

    /// The canonical text.
    pub open spec fn text(&self) -> Seq<char> {
        self@.text()
    }

    /// Appends the canonical text to `f`.
    pub fn fmt(&self, f: &mut String)
        ensures
            final(f)@ == old(f)@ + self.text(),
        decreases self, 0int,
    {
        self.quantifier.fmt(f);
        f.append("[");
        self.bound.fmt(f);
        f.append("]:");
        self.formula.fmt(f);
        assert(f@ =~= old(f)@ + self.text());
    }

    /// The canonical text as a string.
    pub fn to_string(&self) -> (s: String)
        ensures
            s@ == self.text(),
        decreases self, 1int,
    {
        let mut s = String::new();
        self.fmt(&mut s);
        assert(s@ =~= self.text());
        s
    }
}

impl<'a> Clone for FofQuantifiedFormula<'a> {
    fn clone(&self) -> (copy: Self)
        ensures
            copy@ == self@,
        decreases self,
    {
        FofQuantifiedFormula {
            quantifier: self.quantifier,
            bound: self.bound.clone(),
            formula: Box::new((*self.formula).clone()),
        }
    }
}

/// An inequation between two terms.
#[derive(Debug, PartialOrd, Ord, PartialEq, Eq, Hash)]
pub struct FofInfixUnary<'a> {
    pub left: Box<FofTerm<'a>>,
    pub op: InfixInequality,
    pub right: Box<FofTerm<'a>>,
}

impl<'a> View for FofInfixUnary<'a> {
    type V = InfixModel;

    open spec fn view(&self) -> InfixModel {
        InfixModel { left: self.left@, right: self.right@ }
    }
}

impl<'a> FofInfixUnary<'a> {
    /// The canonical text.
    pub open spec fn text(&self) -> Seq<char> {
        self@.inequality_text()
    }

    /// Appends the canonical text to `f`.
    pub fn fmt(&self, f: &mut String)
        ensures
            final(f)@ == old(f)@ + self.text(),
    {
        self.left.fmt(f);
        self.op.fmt(f);
        self.right.fmt(f);
        assert(f@ =~= old(f)@ + self.text());
    }

    /// The canonical text as a string.
    pub fn to_string(&self) -> (s: String)
        ensures
            s@ == self.text(),
    {
        let mut s = String::new();
        self.fmt(&mut s);
        assert(s@ =~= self.text());
        s
    }
}

impl<'a> Clone for FofInfixUnary<'a> {
    fn clone(&self) -> (copy: Self)
        ensures
            copy@ == self@,
    {
        FofInfixUnary {
            left: Box::new((*self.left).clone()),
            op: self.op,
            right: Box::new((*self.right).clone()),
        }
    }
}

/// A negated unit formula, or an inequation.
#[derive(Debug, PartialOrd, Ord, PartialEq, Eq, Hash)]
pub enum FofUnaryFormula<'a> {
    Unary(UnaryConnective, Box<FofUnitFormula<'a>>),
    InfixUnary(FofInfixUnary<'a>),
}

impl<'a> View for FofUnaryFormula<'a> {
    type V = UnaryModel;

    open spec fn view(&self) -> UnaryModel {
        self.model()
    }
}

impl<'a> FofUnaryFormula<'a> {
    /// The tree apart from the buffer that its words are borrowed from.
    pub open spec fn model(&self) -> UnaryModel
        decreases self,
    {
        match self {
            FofUnaryFormula::Unary(_, u) => UnaryModel::Unary(Box::new(u.model())),
            FofUnaryFormula::InfixUnary(x) => UnaryModel::InfixUnary(x@),
        }
    }

    /// The canonical text.
    pub open spec fn text(&self) -> Seq<char> {
        self@.text()
    }

    /// Appends the canonical text to `f`.
    pub fn fmt(&self, f: &mut String)
        ensures
            final(f)@ == old(f)@ + self.text(),
        decreases self, 0int,
    {
        match self {
            FofUnaryFormula::Unary(connective, u) => {
                connective.fmt(f);
                u.fmt(f);
            },
            FofUnaryFormula::InfixUnary(x) => x.fmt(f),
        }
        assert(f@ =~= old(f)@ + self.text());
    }

    /// The canonical text as a string.
    pub fn to_string(&self) -> (s: String)
        ensures
            s@ == self.text(),
        decreases self, 1int,
    {
        let mut s = String::new();
        self.fmt(&mut s);
        assert(s@ =~= self.text());
        s
    }
}

impl<'a> Clone for FofUnaryFormula<'a> {
    fn clone(&self) -> (copy: Self)
        ensures
            copy@ == self@,
        decreases self,
    {
        match self {
            FofUnaryFormula::Unary(connective, u) => FofUnaryFormula::Unary(
                *connective,
                Box::new((**u).clone()),
            ),
            FofUnaryFormula::InfixUnary(x) => FofUnaryFormula::InfixUnary(x.clone()),
        }
    }
}

/// A quantified formula, an atomic formula, or a formula in parentheses.
#[derive(Debug, PartialOrd, Ord, PartialEq, Eq, Hash)]
pub enum FofUnitaryFormula<'a> {
    Quantified(FofQuantifiedFormula<'a>),
    Atomic(FofAtomicFormula<'a>),
    Parenthesised(Box<FofLogicFormula<'a>>),
}

impl<'a> View for FofUnitaryFormula<'a> {
    type V = UnitaryModel;

    open spec fn view(&self) -> UnitaryModel {
        self.model()
    }
}

impl<'a> FofUnitaryFormula<'a> {
    /// The tree apart from the buffer that its words are borrowed from.
    pub open spec fn model(&self) -> UnitaryModel
        decreases self,
    {
        match self {
            FofUnitaryFormula::Quantified(q) => UnitaryModel::Quantified(q.model()),
            FofUnitaryFormula::Atomic(a) => UnitaryModel::Atomic(a@),
            FofUnitaryFormula::Parenthesised(l) => UnitaryModel::Parenthesised(
                Box::new(l.model()),
            ),
        }
    }

    /// The canonical text.
    pub open spec fn text(&self) -> Seq<char> {
        self@.text()
    }

    /// Appends the canonical text to `f`.
    pub fn fmt(&self, f: &mut String)
        ensures
            final(f)@ == old(f)@ + self.text(),
        decreases self, 0int,
    {
        match self {
            FofUnitaryFormula::Quantified(q) => q.fmt(f),
            FofUnitaryFormula::Atomic(a) => a.fmt(f),
            FofUnitaryFormula::Parenthesised(l) => {
                f.append("(");
                l.fmt(f);
                f.append(")");
            },
        }
        assert(f@ =~= old(f)@ + self.text());
    }

    /// The canonical text as a string.
    pub fn to_string(&self) -> (s: String)
        ensures
            s@ == self.text(),
        decreases self, 1int,
    {
        let mut s = String::new();
        self.fmt(&mut s);
        assert(s@ =~= self.text());
        s
    }
}

impl<'a> Clone for FofUnitaryFormula<'a> {
    fn clone(&self) -> (copy: Self)
        ensures
            copy@ == self@,
        decreases self,
    {
        match self {
            FofUnitaryFormula::Quantified(q) => FofUnitaryFormula::Quantified(q.clone()),
            FofUnitaryFormula::Atomic(a) => FofUnitaryFormula::Atomic(a.clone()),
            FofUnitaryFormula::Parenthesised(l) => FofUnitaryFormula::Parenthesised(
                Box::new((**l).clone()),
            ),
        }
    }
}

/// A formula that can stand on either side of a binary connective.
#[derive(Debug, PartialOrd, Ord, PartialEq, Eq, Hash)]
pub enum FofUnitFormula<'a> {
    Unitary(FofUnitaryFormula<'a>),
    Unary(FofUnaryFormula<'a>),
}

impl<'a> View for FofUnitFormula<'a> {
    type V = UnitModel;

    open spec fn view(&self) -> UnitModel {
        self.model()
    }
}

impl<'a> FofUnitFormula<'a> {
    /// The tree apart from the buffer that its words are borrowed from.
    pub open spec fn model(&self) -> UnitModel
        decreases self,
    {
        match self {
            FofUnitFormula::Unitary(x) => UnitModel::Unitary(x.model()),
            FofUnitFormula::Unary(x) => UnitModel::Unary(x.model()),
        }
    }

    /// The canonical text.
    pub open spec fn text(&self) -> Seq<char> {
        self@.text()
    }

    /// The invariants of the syntax hold of this tree.
    pub open spec fn wf(&self) -> bool {
        self@.wf()
    }

    /// Appends the canonical text to `f`.
    pub fn fmt(&self, f: &mut String)
        ensures
            final(f)@ == old(f)@ + self.text(),
        decreases self, 0int,
    {
        match self {
            FofUnitFormula::Unitary(x) => x.fmt(f),
            FofUnitFormula::Unary(x) => x.fmt(f),
        }
        assert(f@ =~= old(f)@ + self.text());
    }

    /// The canonical text as a string.
    pub fn to_string(&self) -> (s: String)
        ensures
            s@ == self.text(),
        decreases self, 1int,
    {
        let mut s = String::new();
        self.fmt(&mut s);
        assert(s@ =~= self.text());
        s
    }
}

impl<'a> Clone for FofUnitFormula<'a> {
    fn clone(&self) -> (copy: Self)
        ensures
            copy@ == self@,
        decreases self,
    {
        match self {
            FofUnitFormula::Unitary(x) => FofUnitFormula::Unitary(x.clone()),
            FofUnitFormula::Unary(x) => FofUnitFormula::Unary(x.clone()),
        }
    }
}

/// A disjunction of two unit formulas or more.
#[derive(Debug, PartialOrd, Ord, PartialEq, Eq, Hash)]
pub struct FofOrFormula<'a>(pub Vec<FofUnitFormula<'a>>);

impl<'a> View for FofOrFormula<'a> {
    type V = Seq<UnitModel>;

    open spec fn view(&self) -> Seq<UnitModel> {
        self.model()
    }
}

impl<'a> FofOrFormula<'a> {
    /// The operands apart from the buffer that their words are borrowed from.
    pub open spec fn model(&self) -> Seq<UnitModel>
        decreases self,
    {
        Seq::new(
            self.0@.len(),
            |k: int|
                if 0 <= k < self.0@.len() {
                    self.0@[k].model()
                } else {
                    arbitrary()
                },
        )
    }

    /// The canonical text: the operands with `|` between them.
    pub open spec fn text(&self) -> Seq<char> {
        join(unit_texts(self@), "|"@)
    }

    /// Appends the canonical text to `f`.
    #[verifier::loop_isolation(false)]
    pub fn fmt(&self, f: &mut String)
        ensures
            final(f)@ == old(f)@ + self.text(),
        decreases self, 0int,
    {
        let mut parts: Vec<String> = Vec::new();
        let mut k: usize = 0;
        while k < self.0.len()
            invariant
                k <= self.0.len(),
                parts@.len() == k,
                forall|j: int| 0 <= j < k ==> (#[trigger] parts@[j])@ == self.0@[j].text(),
            decreases self.0.len() - k,
        {
            let part = self.0[k].to_string();
            parts.push(part);
            k += 1;
        }
        assert(parts.deep_view() =~= unit_texts(self@));
        fmt_list(f, "|", &parts);
        assert(f@ =~= old(f)@ + self.text());
    }

    /// The canonical text as a string.
    pub fn to_string(&self) -> (s: String)
        ensures
            s@ == self.text(),
        decreases self, 1int,
    {
        let mut s = String::new();
        self.fmt(&mut s);
        assert(s@ =~= self.text());
        s
    }
}

impl<'a> Clone for FofOrFormula<'a> {
    #[verifier::loop_isolation(false)]
    fn clone(&self) -> (copy: Self)
        ensures
            copy@ == self@,
        decreases self,
    {
        let mut items: Vec<FofUnitFormula<'a>> = Vec::new();
        let mut k: usize = 0;
        while k < self.0.len()
            invariant
                k <= self.0.len(),
                items@.len() == k,
                forall|j: int| 0 <= j < k ==> (#[trigger] items@[j])@ == self.0@[j]@,
            decreases self.0.len() - k,
        {
            let item = self.0[k].clone();
            items.push(item);
            k += 1;
        }
        let copy = FofOrFormula(items);
        assert(copy@ =~= self@);
        copy
    }
}

/// A conjunction of two unit formulas or more.
#[derive(Debug, PartialOrd, Ord, PartialEq, Eq, Hash)]
pub struct FofAndFormula<'a>(pub Vec<FofUnitFormula<'a>>);

impl<'a> View for FofAndFormula<'a> {
    type V = Seq<UnitModel>;

    open spec fn view(&self) -> Seq<UnitModel> {
        self.model()
    }
}

impl<'a> FofAndFormula<'a> {
    /// The operands apart from the buffer that their words are borrowed from.
    pub open spec fn model(&self) -> Seq<UnitModel>
        decreases self,
    {
        Seq::new(
            self.0@.len(),
            |k: int|
                if 0 <= k < self.0@.len() {
                    self.0@[k].model()
                } else {
                    arbitrary()
                },
        )
    }

    /// The canonical text: the operands with `&` between them.
    pub open spec fn text(&self) -> Seq<char> {
        join(unit_texts(self@), "&"@)
    }

    /// Appends the canonical text to `f`.
    #[verifier::loop_isolation(false)]
    pub fn fmt(&self, f: &mut String)
        ensures
            final(f)@ == old(f)@ + self.text(),
        decreases self, 0int,
    {
        let mut parts: Vec<String> = Vec::new();
        let mut k: usize = 0;
        while k < self.0.len()
            invariant
                k <= self.0.len(),
                parts@.len() == k,
                forall|j: int| 0 <= j < k ==> (#[trigger] parts@[j])@ == self.0@[j].text(),
            decreases self.0.len() - k,
        {
            let part = self.0[k].to_string();
            parts.push(part);
            k += 1;
        }
        assert(parts.deep_view() =~= unit_texts(self@));
        fmt_list(f, "&", &parts);
        assert(f@ =~= old(f)@ + self.text());
    }

    /// The canonical text as a string.
    pub fn to_string(&self) -> (s: String)
        ensures
            s@ == self.text(),
        decreases self, 1int,
    {
        let mut s = String::new();
        self.fmt(&mut s);
        assert(s@ =~= self.text());
        s
    }
}

impl<'a> Clone for FofAndFormula<'a> {
    #[verifier::loop_isolation(false)]
    fn clone(&self) -> (copy: Self)
        ensures
            copy@ == self@,
        decreases self,
    {
        let mut items: Vec<FofUnitFormula<'a>> = Vec::new();
        let mut k: usize = 0;
        while k < self.0.len()
            invariant
                k <= self.0.len(),
                items@.len() == k,
                forall|j: int| 0 <= j < k ==> (#[trigger] items@[j])@ == self.0@[j]@,
            decreases self.0.len() - k,
        {
            let item = self.0[k].clone();
            items.push(item);
            k += 1;
        }
        let copy = FofAndFormula(items);
        assert(copy@ =~= self@);
        copy
    }
}

/// A run of unit formulas under one associative connective.
#[derive(Debug, PartialOrd, Ord, PartialEq, Eq, Hash)]
pub enum FofBinaryAssoc<'a> {
    Or(FofOrFormula<'a>),
    And(FofAndFormula<'a>),
}

impl<'a> View for FofBinaryAssoc<'a> {
    type V = AssocModel;

    open spec fn view(&self) -> AssocModel {
        self.model()
    }
}

impl<'a> FofBinaryAssoc<'a> {
    /// The tree apart from the buffer that its words are borrowed from.
    pub open spec fn model(&self) -> AssocModel
        decreases self,
    {
        match self {
            FofBinaryAssoc::Or(x) => AssocModel::Or(x.model()),
            FofBinaryAssoc::And(x) => AssocModel::And(x.model()),
        }
    }

    /// The canonical text.
    pub open spec fn text(&self) -> Seq<char> {
        self@.text()
    }

    /// Appends the canonical text to `f`.
    pub fn fmt(&self, f: &mut String)
        ensures
            final(f)@ == old(f)@ + self.text(),
        decreases self, 0int,
    {
        match self {
            FofBinaryAssoc::Or(x) => x.fmt(f),
            FofBinaryAssoc::And(x) => x.fmt(f),
        }
        assert(f@ =~= old(f)@ + self.text());
    }

    /// The canonical text as a string.
    pub fn to_string(&self) -> (s: String)
        ensures
            s@ == self.text(),
        decreases self, 1int,
    {
        let mut s = String::new();
        self.fmt(&mut s);
        assert(s@ =~= self.text());
        s
    }
}

impl<'a> Clone for FofBinaryAssoc<'a> {
    fn clone(&self) -> (copy: Self)
        ensures
            copy@ == self@,
        decreases self,
    {
        match self {
            FofBinaryAssoc::Or(x) => FofBinaryAssoc::Or(x.clone()),
            FofBinaryAssoc::And(x) => FofBinaryAssoc::And(x.clone()),
        }
    }
}

/// Two unit formulas under a connective that does not chain.
#[derive(Debug, PartialOrd, Ord, PartialEq, Eq, Hash)]
pub struct FofBinaryNonassoc<'a> {
    pub left: Box<FofUnitFormula<'a>>,
    pub op: NonassocConnective,
    pub right: Box<FofUnitFormula<'a>>,
}

impl<'a> View for FofBinaryNonassoc<'a> {
    type V = NonassocModel;

    open spec fn view(&self) -> NonassocModel {
        self.model()
    }
}

impl<'a> FofBinaryNonassoc<'a> {
    /// The tree apart from the buffer that its words are borrowed from.
    pub open spec fn model(&self) -> NonassocModel
        decreases self,
    {
        NonassocModel {
            left: Box::new(self.left.model()),
            op: self.op,
            right: Box::new(self.right.model()),
        }
    }

    /// The canonical text.
    pub open spec fn text(&self) -> Seq<char> {
        self@.text()
    }

    /// Appends the canonical text to `f`.
    pub fn fmt(&self, f: &mut String)
        ensures
            final(f)@ == old(f)@ + self.text(),
        decreases self, 0int,
    {
        self.left.fmt(f);
        self.op.fmt(f);
        self.right.fmt(f);
        assert(f@ =~= old(f)@ + self.text());
    }

    /// The canonical text as a string.
    pub fn to_string(&self) -> (s: String)
        ensures
            s@ == self.text(),
        decreases self, 1int,
    {
        let mut s = String::new();
        self.fmt(&mut s);
        assert(s@ =~= self.text());
        s
    }
}

impl<'a> Clone for FofBinaryNonassoc<'a> {
    fn clone(&self) -> (copy: Self)
        ensures
            copy@ == self@,
        decreases self,
    {
        FofBinaryNonassoc {
            left: Box::new((*self.left).clone()),
            op: self.op,
            right: Box::new((*self.right).clone()),
        }
    }
}

/// A formula with a binary connective at its top.
#[derive(Debug, PartialOrd, Ord, PartialEq, Eq, Hash)]
pub enum FofBinaryFormula<'a> {
    Nonassoc(FofBinaryNonassoc<'a>),
    Assoc(FofBinaryAssoc<'a>),
}

impl<'a> View for FofBinaryFormula<'a> {
    type V = BinaryModel;

    open spec fn view(&self) -> BinaryModel {
        self.model()
    }
}

impl<'a> FofBinaryFormula<'a> {
    /// The tree apart from the buffer that its words are borrowed from.
    pub open spec fn model(&self) -> BinaryModel
        decreases self,
    {
        match self {
            FofBinaryFormula::Nonassoc(x) => BinaryModel::Nonassoc(x.model()),
            FofBinaryFormula::Assoc(x) => BinaryModel::Assoc(x.model()),
        }
    }

    /// The canonical text.
    pub open spec fn text(&self) -> Seq<char> {
        self@.text()
    }

    /// Appends the canonical text to `f`.
    pub fn fmt(&self, f: &mut String)
        ensures
            final(f)@ == old(f)@ + self.text(),
        decreases self, 0int,
    {
        match self {
            FofBinaryFormula::Nonassoc(x) => x.fmt(f),
            FofBinaryFormula::Assoc(x) => x.fmt(f),
        }
        assert(f@ =~= old(f)@ + self.text());
    }

    /// The canonical text as a string.
    pub fn to_string(&self) -> (s: String)
        ensures
            s@ == self.text(),
        decreases self, 1int,
    {
        let mut s = String::new();
        self.fmt(&mut s);
        assert(s@ =~= self.text());
        s
    }
}

impl<'a> Clone for FofBinaryFormula<'a> {
    fn clone(&self) -> (copy: Self)
        ensures
            copy@ == self@,
        decreases self,
    {
        match self {
            FofBinaryFormula::Nonassoc(x) => FofBinaryFormula::Nonassoc(x.clone()),
            FofBinaryFormula::Assoc(x) => FofBinaryFormula::Assoc(x.clone()),
        }
    }
}

/// A formula of any shape.
#[derive(Debug, PartialOrd, Ord, PartialEq, Eq, Hash)]
pub enum FofLogicFormula<'a> {
    Binary(FofBinaryFormula<'a>),
    Unary(FofUnaryFormula<'a>),
    Unitary(FofUnitaryFormula<'a>),
}

impl<'a> View for FofLogicFormula<'a> {
    type V = LogicModel;

    open spec fn view(&self) -> LogicModel {
        self.model()
    }
}

impl<'a> FofLogicFormula<'a> {
    /// The tree apart from the buffer that its words are borrowed from.
    pub open spec fn model(&self) -> LogicModel
        decreases self,
    {
        match self {
            FofLogicFormula::Binary(x) => LogicModel::Binary(x.model()),
            FofLogicFormula::Unary(x) => LogicModel::Unary(x.model()),
            FofLogicFormula::Unitary(x) => LogicModel::Unitary(x.model()),
        }
    }

    /// The canonical text.
    pub open spec fn text(&self) -> Seq<char> {
        self@.text()
    }

    /// The invariants of the syntax hold of this tree.
    pub open spec fn wf(&self) -> bool {
        self@.wf()
    }

    /// Appends the canonical text to `f`.
    pub fn fmt(&self, f: &mut String)
        ensures
            final(f)@ == old(f)@ + self.text(),
        decreases self, 0int,
    {
        match self {
            FofLogicFormula::Binary(x) => x.fmt(f),
            FofLogicFormula::Unary(x) => x.fmt(f),
            FofLogicFormula::Unitary(x) => x.fmt(f),
        }
        assert(f@ =~= old(f)@ + self.text());
    }

    /// The canonical text as a string.
    pub fn to_string(&self) -> (s: String)
        ensures
            s@ == self.text(),
        decreases self, 1int,
    {
        let mut s = String::new();
        self.fmt(&mut s);
        assert(s@ =~= self.text());
        s
    }
}

impl<'a> Clone for FofLogicFormula<'a> {
    fn clone(&self) -> (copy: Self)
        ensures
            copy@ == self@,
        decreases self,
    {
        match self {
            FofLogicFormula::Binary(x) => FofLogicFormula::Binary(x.clone()),
            FofLogicFormula::Unary(x) => FofLogicFormula::Unary(x.clone()),
            FofLogicFormula::Unitary(x) => FofLogicFormula::Unitary(x.clone()),
        }
    }
}

/// A first-order formula.
#[derive(Debug, PartialOrd, Ord, PartialEq, Eq, Hash)]
pub struct FofFormula<'a>(pub FofLogicFormula<'a>);

impl<'a> View for FofFormula<'a> {
    type V = LogicModel;

    open spec fn view(&self) -> LogicModel {
        self.0@
    }
}

impl<'a> FofFormula<'a> {
    /// The canonical text.
    pub open spec fn text(&self) -> Seq<char> {
        self.0.text()
    }

    /// The invariants of the syntax hold of this tree.
    pub open spec fn wf(&self) -> bool {
        self@.wf()
    }

    /// Appends the canonical text to `f`.
    pub fn fmt(&self, f: &mut String)
        ensures
            final(f)@ == old(f)@ + self.text(),
    {
        self.0.fmt(f);
        assert(f@ =~= old(f)@ + self.text());
    }

    /// The canonical text as a string.
    pub fn to_string(&self) -> (s: String)
        ensures
            s@ == self.text(),
    {
        let mut s = String::new();
        self.fmt(&mut s);
        assert(s@ =~= self.text());
        s
    }
}

impl<'a> Clone for FofFormula<'a> {
    fn clone(&self) -> (copy: Self)
        ensures
            copy@ == self@,
    {
        FofFormula(self.0.clone())
    }
}

/// A literal of a clause: an atomic formula, a negated one, or an inequation.
#[derive(Debug, PartialOrd, Ord, PartialEq, Eq, Hash)]
pub enum Literal<'a> {
    Atomic(FofAtomicFormula<'a>),
    NegatedAtomic(FofAtomicFormula<'a>),
    Infix(FofInfixUnary<'a>),
}

impl<'a> View for Literal<'a> {
    type V = LiteralModel;

    open spec fn view(&self) -> LiteralModel {
        match self {
            Literal::Atomic(a) => LiteralModel::Atomic(a@),
            Literal::NegatedAtomic(a) => LiteralModel::NegatedAtomic(a@),
            Literal::Infix(x) => LiteralModel::Infix(x@),
        }
    }
}

impl<'a> Literal<'a> {
    /// The canonical text.
    pub open spec fn text(&self) -> Seq<char> {
        self@.text()
    }

    /// The invariants of the syntax hold of this tree.
    pub open spec fn wf(&self) -> bool {
        self@.wf()
    }

    /// Appends the canonical text to `f`.
    pub fn fmt(&self, f: &mut String)
        ensures
            final(f)@ == old(f)@ + self.text(),
    {
        match self {
            Literal::Atomic(a) => a.fmt(f),
            Literal::NegatedAtomic(a) => {
                f.append("~");
                a.fmt(f);
            },
            Literal::Infix(x) => x.fmt(f),
        }
        assert(f@ =~= old(f)@ + self.text());
    }

    /// The canonical text as a string.
    pub fn to_string(&self) -> (s: String)
        ensures
            s@ == self.text(),
    {
        let mut s = String::new();
        self.fmt(&mut s);
        assert(s@ =~= self.text());
        s
    }
}

impl<'a> Clone for Literal<'a> {
    fn clone(&self) -> (copy: Self)
        ensures
            copy@ == self@,
    {
        match self {
            Literal::Atomic(a) => Literal::Atomic(a.clone()),
            Literal::NegatedAtomic(a) => Literal::NegatedAtomic(a.clone()),
            Literal::Infix(x) => Literal::Infix(x.clone()),
        }
    }
}

/// A clause: its literals in the order in which they are written.  Nothing is
/// simplified: a literal that occurs twice is held twice.
#[derive(Debug, PartialOrd, Ord, PartialEq, Eq, Hash)]
pub struct Disjunction<'a>(pub Vec<Literal<'a>>);

impl<'a> View for Disjunction<'a> {
    type V = Seq<LiteralModel>;

    open spec fn view(&self) -> Seq<LiteralModel> {
        Seq::new(self.0@.len(), |k: int| self.0@[k]@)
    }
}

impl<'a> Disjunction<'a> {
    /// The canonical text: the literals with `|` between them.
    pub open spec fn text(&self) -> Seq<char> {
        disjunction_text(self@)
    }

    /// The invariants of the syntax hold of this tree.
    pub open spec fn wf(&self) -> bool {
        disjunction_wf(self@)
    }

    /// Appends the canonical text to `f`.
    #[verifier::loop_isolation(false)]
    pub fn fmt(&self, f: &mut String)
        ensures
            final(f)@ == old(f)@ + self.text(),
    {
        let mut parts: Vec<String> = Vec::new();
        let mut k: usize = 0;
        while k < self.0.len()
            invariant
                k <= self.0.len(),
                parts@.len() == k,
                forall|j: int| 0 <= j < k ==> (#[trigger] parts@[j])@ == self.0@[j].text(),
            decreases self.0.len() - k,
        {
            let part = self.0[k].to_string();
            parts.push(part);
            k += 1;
        }
        assert(parts.deep_view() =~= literal_texts(self@));
        fmt_list(f, "|", &parts);
        assert(f@ =~= old(f)@ + self.text());
    }

    /// The canonical text as a string.
    pub fn to_string(&self) -> (s: String)
        ensures
            s@ == self.text(),
    {
        let mut s = String::new();
        self.fmt(&mut s);
        assert(s@ =~= self.text());
        s
    }
}

impl<'a> Clone for Disjunction<'a> {
    fn clone(&self) -> (copy: Self)
        ensures
            copy@ == self@,
    {
        let mut items: Vec<Literal<'a>> = Vec::new();
        let mut k: usize = 0;
        while k < self.0.len()
            invariant
                k <= self.0.len(),
                items@.len() == k,
                forall|j: int| 0 <= j < k ==> (#[trigger] items@[j])@ == self.0@[j]@,
            decreases self.0.len() - k,
        {
            let item = self.0[k].clone();
            items.push(item);
            k += 1;
        }
        let copy = Disjunction(items);
        assert(copy@ =~= self@);
        copy
    }
}

/// A formula in clausal normal form: a clause, bare or in parentheses.  The
/// two are different trees, and each is written as it was read.
#[derive(Debug, PartialOrd, Ord, PartialEq, Eq, Hash)]
pub enum CnfFormula<'a> {
    Disjunction(Disjunction<'a>),
    Parenthesised(Disjunction<'a>),
}

impl<'a> View for CnfFormula<'a> {
    type V = CnfModel;

    open spec fn view(&self) -> CnfModel {
        match self {
            CnfFormula::Disjunction(d) => CnfModel::Disjunction(d@),
            CnfFormula::Parenthesised(d) => CnfModel::Parenthesised(d@),
        }
    }
}

impl<'a> CnfFormula<'a> {
    /// The canonical text.
    pub open spec fn text(&self) -> Seq<char> {
        self@.text()
    }

    /// The invariants of the syntax hold of this tree.
    pub open spec fn wf(&self) -> bool {
        self@.wf()
    }

    /// Appends the canonical text to `f`.
    pub fn fmt(&self, f: &mut String)
        ensures
            final(f)@ == old(f)@ + self.text(),
    {
        match self {
            CnfFormula::Disjunction(d) => d.fmt(f),
            CnfFormula::Parenthesised(d) => {
                f.append("(");
                d.fmt(f);
                f.append(")");
            },
        }
        assert(f@ =~= old(f)@ + self.text());
    }

    /// The canonical text as a string.
    pub fn to_string(&self) -> (s: String)
        ensures
            s@ == self.text(),
    {
        let mut s = String::new();
        self.fmt(&mut s);
        assert(s@ =~= self.text());
        s
    }
}

impl<'a> Clone for CnfFormula<'a> {
    fn clone(&self) -> (copy: Self)
        ensures
            copy@ == self@,
    {
        match self {
            CnfFormula::Disjunction(d) => CnfFormula::Disjunction(d.clone()),
            CnfFormula::Parenthesised(d) => CnfFormula::Parenthesised(d.clone()),
        }
    }
}

/// The role that an annotated formula plays.
#[derive(Clone, Copy, Debug, PartialOrd, Ord, PartialEq, Eq, Hash)]
pub enum FormulaRole {
    /// `axiom`
    Axiom,
    /// `hypothesis`
    Hypothesis,
    /// `definition`
    Definition,
    /// `assumption`
    Assumption,
    /// `lemma`
    Lemma,
    /// `theorem`
    Theorem,
    /// `corollary`
    Corollary,
    /// `conjecture`
    Conjecture,
    /// `negated_conjecture`
    NegatedConjecture,
    /// `plain`
    Plain,
    /// `type`
    Type,
    /// `fi_domain`
    FiDomain,
    /// `fi_functors`
    FiFunctors,
    /// `fi_predicates`
    FiPredicates,
    /// `unknown`
    Unknown,
}

impl FormulaRole {
    /// The canonical text.
    pub open spec fn text(&self) -> Seq<char> {
        match self {
            FormulaRole::Axiom => "axiom"@,
            FormulaRole::Hypothesis => "hypothesis"@,
            FormulaRole::Definition => "definition"@,
            FormulaRole::Assumption => "assumption"@,
            FormulaRole::Lemma => "lemma"@,
            FormulaRole::Theorem => "theorem"@,
            FormulaRole::Corollary => "corollary"@,
            FormulaRole::Conjecture => "conjecture"@,
            FormulaRole::NegatedConjecture => "negated_conjecture"@,
            FormulaRole::Plain => "plain"@,
            FormulaRole::Type => "type"@,
            FormulaRole::FiDomain => "fi_domain"@,
            FormulaRole::FiFunctors => "fi_functors"@,
            FormulaRole::FiPredicates => "fi_predicates"@,
            FormulaRole::Unknown => "unknown"@,
        }
    }

    /// Appends the canonical text to `f`.
    pub fn fmt(&self, f: &mut String)
        ensures
            final(f)@ == old(f)@ + self.text(),
    {
        match self {
            FormulaRole::Axiom => f.append("axiom"),
            FormulaRole::Hypothesis => f.append("hypothesis"),
            FormulaRole::Definition => f.append("definition"),
            FormulaRole::Assumption => f.append("assumption"),
            FormulaRole::Lemma => f.append("lemma"),
            FormulaRole::Theorem => f.append("theorem"),
            FormulaRole::Corollary => f.append("corollary"),
            FormulaRole::Conjecture => f.append("conjecture"),
            FormulaRole::NegatedConjecture => f.append("negated_conjecture"),
            FormulaRole::Plain => f.append("plain"),
            FormulaRole::Type => f.append("type"),
            FormulaRole::FiDomain => f.append("fi_domain"),
            FormulaRole::FiFunctors => f.append("fi_functors"),
            FormulaRole::FiPredicates => f.append("fi_predicates"),
            FormulaRole::Unknown => f.append("unknown"),
        }
    }

    /// The canonical text as a string.
    pub fn to_string(&self) -> (s: String)
        ensures
            s@ == self.text(),
    {
        let mut s = String::new();
        self.fmt(&mut s);
        assert(s@ =~= self.text());
        s
    }
}

/// A formula or a term quoted as data.
#[derive(Debug, PartialOrd, Ord, PartialEq, Eq, Hash)]
pub enum FormulaData<'a> {
    Fof(Box<FofFormula<'a>>),
    Cnf(Box<CnfFormula<'a>>),
    Fot(Box<FofTerm<'a>>),
}

impl<'a> FormulaData<'a> {
    /// The canonical text.
    pub open spec fn text(&self) -> Seq<char> {
        match self {
            FormulaData::Fof(x) => "$fof("@ + x.text() + ")"@,
            FormulaData::Cnf(x) => "$cnf("@ + x.text() + ")"@,
            FormulaData::Fot(x) => "$fot("@ + x.text() + ")"@,
        }
    }

    /// Appends the canonical text to `f`.
    pub fn fmt(&self, f: &mut String)
        ensures
            final(f)@ == old(f)@ + self.text(),
    {
        match self {
            FormulaData::Fof(x) => {
                f.append("$fof(");
                x.fmt(f);
            },
            FormulaData::Cnf(x) => {
                f.append("$cnf(");
                x.fmt(f);
            },
            FormulaData::Fot(x) => {
                f.append("$fot(");
                x.fmt(f);
            },
        }
        f.append(")");
        assert(f@ =~= old(f)@ + self.text());
    }

    /// The canonical text as a string.
    pub fn to_string(&self) -> (s: String)
        ensures
            s@ == self.text(),
    {
        let mut s = String::new();
        self.fmt(&mut s);
        assert(s@ =~= self.text());
        s
    }
}

impl<'a> Clone for FormulaData<'a> {
    fn clone(&self) -> (copy: Self)
        ensures
            copy.text() == self.text(),
    {
        match self {
            FormulaData::Fof(x) => FormulaData::Fof(Box::new((**x).clone())),
            FormulaData::Cnf(x) => FormulaData::Cnf(Box::new((**x).clone())),
            FormulaData::Fot(x) => FormulaData::Fot(Box::new((**x).clone())),
        }
    }
}

/// A word applied to general terms.
#[derive(Debug, PartialOrd, Ord, PartialEq, Eq, Hash)]
pub struct GeneralFunction<'a> {
    pub word: AtomicWord<'a>,
    pub terms: GeneralTerms<'a>,
}

impl<'a> GeneralFunction<'a> {
    /// The canonical text.
    pub open spec fn text(&self) -> Seq<char>
        decreases self,
    {
        self.word.text() + "("@ + self.terms.text() + ")"@
    }

    /// Appends the canonical text to `f`.
    pub fn fmt(&self, f: &mut String)
        ensures
            final(f)@ == old(f)@ + self.text(),
        decreases self, 0int,
    {
        self.word.fmt(f);
        f.append("(");
        self.terms.fmt(f);
        f.append(")");
        assert(f@ =~= old(f)@ + self.text());
    }

    /// The canonical text as a string.
    pub fn to_string(&self) -> (s: String)
        ensures
            s@ == self.text(),
        decreases self, 1int,
    {
        let mut s = String::new();
        self.fmt(&mut s);
        assert(s@ =~= self.text());
        s
    }
}

impl<'a> Clone for GeneralFunction<'a> {
    fn clone(&self) -> (copy: Self)
        ensures
            copy.text() == self.text(),
        decreases self,
    {
        GeneralFunction { word: self.word.clone(), terms: self.terms.clone() }
    }
}

/// One item of general data.
#[derive(Debug, PartialOrd, Ord, PartialEq, Eq, Hash)]
pub enum GeneralData<'a> {
    Atomic(AtomicWord<'a>),
    Function(GeneralFunction<'a>),
    Variable(Variable<'a>),
    Number(Number<'a>),
    DistinctObject(DistinctObject<'a>),
    Formula(FormulaData<'a>),
}

impl<'a> GeneralData<'a> {
    /// The canonical text.
    pub open spec fn text(&self) -> Seq<char>
        decreases self,
    {
        match self {
            GeneralData::Atomic(x) => x.text(),
            GeneralData::Function(x) => x.text(),
            GeneralData::Variable(x) => x.text(),
            GeneralData::Number(x) => x.text(),
            GeneralData::DistinctObject(x) => x.text(),
            GeneralData::Formula(x) => x.text(),
        }
    }

    /// Appends the canonical text to `f`.
    pub fn fmt(&self, f: &mut String)
        ensures
            final(f)@ == old(f)@ + self.text(),
        decreases self, 0int,
    {
        match self {
            GeneralData::Atomic(x) => x.fmt(f),
            GeneralData::Function(x) => x.fmt(f),
            GeneralData::Variable(x) => x.fmt(f),
            GeneralData::Number(x) => x.fmt(f),
            GeneralData::DistinctObject(x) => x.fmt(f),
            GeneralData::Formula(x) => x.fmt(f),
        }
        assert(f@ =~= old(f)@ + self.text());
    }

    /// The canonical text as a string.
    pub fn to_string(&self) -> (s: String)
        ensures
            s@ == self.text(),
        decreases self, 1int,
    {
        let mut s = String::new();
        self.fmt(&mut s);
        assert(s@ =~= self.text());
        s
    }
}

impl<'a> Clone for GeneralData<'a> {
    fn clone(&self) -> (copy: Self)
        ensures
            copy.text() == self.text(),
        decreases self,
    {
        match self {
            GeneralData::Atomic(x) => GeneralData::Atomic(x.clone()),
            GeneralData::Function(x) => GeneralData::Function(x.clone()),
            GeneralData::Variable(x) => GeneralData::Variable(x.clone()),
            GeneralData::Number(x) => GeneralData::Number(x.clone()),
            GeneralData::DistinctObject(x) => GeneralData::DistinctObject(x.clone()),
            GeneralData::Formula(x) => GeneralData::Formula(x.clone()),
        }
    }
}

/// The texts of a list of general terms.
pub open spec fn general_texts<'a>(terms: Seq<GeneralTerm<'a>>) -> Seq<Seq<char>>
    decreases terms,
{
    Seq::new(
        terms.len(),
        |k: int|
            if 0 <= k < terms.len() {
                terms[k].text()
            } else {
                Seq::empty()
            },
    )
}

/// General terms with commas between them.
#[derive(Debug, PartialOrd, Ord, PartialEq, Eq, Hash)]
pub struct GeneralTerms<'a>(pub Vec<GeneralTerm<'a>>);

impl<'a> GeneralTerms<'a> {
    /// The canonical text.
    pub open spec fn text(&self) -> Seq<char>
        decreases self,
    {
        join(general_texts(self.0@), ","@)
    }

    /// Appends the canonical text to `f`.
    #[verifier::loop_isolation(false)]
    pub fn fmt(&self, f: &mut String)
        ensures
            final(f)@ == old(f)@ + self.text(),
        decreases self, 0int,
    {
        let mut parts: Vec<String> = Vec::new();
        let mut k: usize = 0;
        while k < self.0.len()
            invariant
                k <= self.0.len(),
                parts@.len() == k,
                forall|j: int| 0 <= j < k ==> (#[trigger] parts@[j])@ == self.0@[j].text(),
            decreases self.0.len() - k,
        {
            let part = self.0[k].to_string();
            parts.push(part);
            k += 1;
        }
        assert(parts.deep_view() =~= general_texts(self.0@));
        fmt_list(f, ",", &parts);
        assert(f@ =~= old(f)@ + self.text());
    }

    /// The canonical text as a string.
    pub fn to_string(&self) -> (s: String)
        ensures
            s@ == self.text(),
        decreases self, 1int,
    {
        let mut s = String::new();
        self.fmt(&mut s);
        assert(s@ =~= self.text());
        s
    }
}

impl<'a> Clone for GeneralTerms<'a> {
    #[verifier::loop_isolation(false)]
    fn clone(&self) -> (copy: Self)
        ensures
            copy.text() == self.text(),
        decreases self,
    {
        let mut items: Vec<GeneralTerm<'a>> = Vec::new();
        let mut k: usize = 0;
        while k < self.0.len()
            invariant
                k <= self.0.len(),
                items@.len() == k,
                forall|j: int| 0 <= j < k ==> (#[trigger] items@[j]).text() == self.0@[j].text(),
            decreases self.0.len() - k,
        {
            let item = self.0[k].clone();
            items.push(item);
            k += 1;
        }
        let copy = GeneralTerms(items);
        assert(general_texts(copy.0@) =~= general_texts(self.0@));
        copy
    }
}

/// A list of general terms in square brackets, which may be empty.
#[derive(Debug, PartialOrd, Ord, PartialEq, Eq, Hash)]
pub struct GeneralList<'a>(pub Option<GeneralTerms<'a>>);

impl<'a> GeneralList<'a> {
    /// The canonical text.
    pub open spec fn text(&self) -> Seq<char>
        decreases self,
    {
        match self.0 {
            None => "[]"@,
            Some(terms) => "["@ + terms.text() + "]"@,
        }
    }

    /// Appends the canonical text to `f`.
    pub fn fmt(&self, f: &mut String)
        ensures
            final(f)@ == old(f)@ + self.text(),
        decreases self, 0int,
    {
        match &self.0 {
            None => f.append("[]"),
            Some(terms) => {
                f.append("[");
                terms.fmt(f);
                f.append("]");
            },
        }
        assert(f@ =~= old(f)@ + self.text());
    }

    /// The canonical text as a string.
    pub fn to_string(&self) -> (s: String)
        ensures
            s@ == self.text(),
        decreases self, 1int,
    {
        let mut s = String::new();
        self.fmt(&mut s);
        assert(s@ =~= self.text());
        s
    }
}

impl<'a> Clone for GeneralList<'a> {
    fn clone(&self) -> (copy: Self)
        ensures
            copy.text() == self.text(),
        decreases self,
    {
        match &self.0 {
            None => GeneralList(None),
            Some(terms) => GeneralList(Some(terms.clone())),
        }
    }
}

/// A general term: data, data with a term behind a colon, or a list.
#[derive(Debug, PartialOrd, Ord, PartialEq, Eq, Hash)]
pub enum GeneralTerm<'a> {
    Data(GeneralData<'a>),
    Colon(GeneralData<'a>, Box<GeneralTerm<'a>>),
    List(GeneralList<'a>),
}

impl<'a> GeneralTerm<'a> {
    /// The canonical text.
    pub open spec fn text(&self) -> Seq<char>
        decreases self,
    {
        match self {
            GeneralTerm::Data(d) => d.text(),
            GeneralTerm::Colon(d, t) => d.text() + ":"@ + t.text(),
            GeneralTerm::List(l) => l.text(),
        }
    }

    /// Appends the canonical text to `f`.
    pub fn fmt(&self, f: &mut String)
        ensures
            final(f)@ == old(f)@ + self.text(),
        decreases self, 0int,
    {
        match self {
            GeneralTerm::Data(d) => d.fmt(f),
            GeneralTerm::Colon(d, t) => {
                d.fmt(f);
                f.append(":");
                t.fmt(f);
            },
            GeneralTerm::List(l) => l.fmt(f),
        }
        assert(f@ =~= old(f)@ + self.text());
    }

    /// The canonical text as a string.
    pub fn to_string(&self) -> (s: String)
        ensures
            s@ == self.text(),
        decreases self, 1int,
    {
        let mut s = String::new();
        self.fmt(&mut s);
        assert(s@ =~= self.text());
        s
    }
}

impl<'a> Clone for GeneralTerm<'a> {
    fn clone(&self) -> (copy: Self)
        ensures
            copy.text() == self.text(),
        decreases self,
    {
        match self {
            GeneralTerm::Data(d) => GeneralTerm::Data(d.clone()),
            GeneralTerm::Colon(d, t) => GeneralTerm::Colon(d.clone(), Box::new((**t).clone())),
            GeneralTerm::List(l) => GeneralTerm::List(l.clone()),
        }
    }
}

/// Where an annotated formula comes from.
#[derive(Debug, PartialOrd, Ord, PartialEq, Eq, Hash)]
pub struct Source<'a>(pub GeneralTerm<'a>);

impl<'a> Source<'a> {
    /// The canonical text.
    pub open spec fn text(&self) -> Seq<char> {
        self.0.text()
    }

    /// Appends the canonical text to `f`.
    pub fn fmt(&self, f: &mut String)
        ensures
            final(f)@ == old(f)@ + self.text(),
    {
        self.0.fmt(f);
        assert(f@ =~= old(f)@ + self.text());
    }

    /// The canonical text as a string.
    pub fn to_string(&self) -> (s: String)
        ensures
            s@ == self.text(),
    {
        let mut s = String::new();
        self.fmt(&mut s);
        assert(s@ =~= self.text());
        s
    }
}

impl<'a> Clone for Source<'a> {
    fn clone(&self) -> (copy: Self)
        ensures
            copy.text() == self.text(),
    {
        Source(self.0.clone())
    }
}

/// What else is said of an annotated formula.
#[derive(Debug, PartialOrd, Ord, PartialEq, Eq, Hash)]
pub struct UsefulInfo<'a>(pub GeneralList<'a>);

impl<'a> UsefulInfo<'a> {
    /// The canonical text.
    pub open spec fn text(&self) -> Seq<char> {
        self.0.text()
    }

    /// Appends the canonical text to `f`.
    pub fn fmt(&self, f: &mut String)
        ensures
            final(f)@ == old(f)@ + self.text(),
    {
        self.0.fmt(f);
        assert(f@ =~= old(f)@ + self.text());
    }

    /// The canonical text as a string.
    pub fn to_string(&self) -> (s: String)
        ensures
            s@ == self.text(),
    {
        let mut s = String::new();
        self.fmt(&mut s);
        assert(s@ =~= self.text());
        s
    }
}

impl<'a> Clone for UsefulInfo<'a> {
    fn clone(&self) -> (copy: Self)
        ensures
            copy.text() == self.text(),
    {
        UsefulInfo(self.0.clone())
    }
}

/// Useful information, where there is any.
#[derive(Debug, PartialOrd, Ord, PartialEq, Eq, Hash)]
pub struct OptionalInfo<'a>(pub Option<UsefulInfo<'a>>);

impl<'a> OptionalInfo<'a> {
    /// The canonical text: a comma and the information, or nothing.
    pub open spec fn text(&self) -> Seq<char> {
        match self.0 {
            Some(info) => ","@ + info.text(),
            None => Seq::empty(),
        }
    }

    /// Appends the canonical text to `f`.
    pub fn fmt(&self, f: &mut String)
        ensures
            final(f)@ == old(f)@ + self.text(),
    {
        match &self.0 {
            Some(info) => {
                f.append(",");
                info.fmt(f);
            },
            None => {},
        }
        assert(f@ =~= old(f)@ + self.text());
    }

    /// The canonical text as a string.
    pub fn to_string(&self) -> (s: String)
        ensures
            s@ == self.text(),
    {
        let mut s = String::new();
        self.fmt(&mut s);
        assert(s@ =~= self.text());
        s
    }
}

impl<'a> Clone for OptionalInfo<'a> {
    fn clone(&self) -> (copy: Self)
        ensures
            copy.text() == self.text(),
    {
        match &self.0 {
            Some(info) => OptionalInfo(Some(info.clone())),
            None => OptionalInfo(None),
        }
    }
}

/// The annotations of a formula, where it has any.
#[derive(Debug, PartialOrd, Ord, PartialEq, Eq, Hash)]
pub struct Annotations<'a>(pub Option<(Source<'a>, OptionalInfo<'a>)>);

impl<'a> Annotations<'a> {
    /// The canonical text: a comma, the source and the information, or
    /// nothing.
    pub open spec fn text(&self) -> Seq<char> {
        match self.0 {
            Some((source, info)) => ","@ + source.text() + info.text(),
            None => Seq::empty(),
        }
    }

    /// Appends the canonical text to `f`.
    pub fn fmt(&self, f: &mut String)
        ensures
            final(f)@ == old(f)@ + self.text(),
    {
        match &self.0 {
            Some((source, info)) => {
                f.append(",");
                source.fmt(f);
                info.fmt(f);
            },
            None => {},
        }
        assert(f@ =~= old(f)@ + self.text());
    }

    /// The canonical text as a string.
    pub fn to_string(&self) -> (s: String)
        ensures
            s@ == self.text(),
    {
        let mut s = String::new();
        self.fmt(&mut s);
        assert(s@ =~= self.text());
        s
    }
}

impl<'a> Clone for Annotations<'a> {
    fn clone(&self) -> (copy: Self)
        ensures
            copy.text() == self.text(),
    {
        match &self.0 {
            Some((source, info)) => Annotations(Some((source.clone(), info.clone()))),
            None => Annotations(None),
        }
    }
}

/// A first-order formula with its name, role and annotations.
#[derive(Debug, PartialOrd, Ord, PartialEq, Eq, Hash)]
pub struct FofAnnotated<'a> {
    pub name: Name<'a>,
    pub role: FormulaRole,
    pub formula: Box<FofFormula<'a>>,
    pub annotations: Box<Annotations<'a>>,
}

impl<'a> FofAnnotated<'a> {
    /// The canonical text.
    pub open spec fn text(&self) -> Seq<char> {
        "fof("@ + self.name.text() + ","@ + self.role.text() + ","@ + self.formula.text()
            + self.annotations.text() + ")."@
    }

    /// Appends the canonical text to `f`.
    pub fn fmt(&self, f: &mut String)
        ensures
            final(f)@ == old(f)@ + self.text(),
    {
        f.append("fof(");
        self.name.fmt(f);
        f.append(",");
        self.role.fmt(f);
        f.append(",");
        self.formula.fmt(f);
        self.annotations.fmt(f);
        f.append(").");
        assert(f@ =~= old(f)@ + self.text());
    }

    /// The canonical text as a string.
    pub fn to_string(&self) -> (s: String)
        ensures
            s@ == self.text(),
    {
        let mut s = String::new();
        self.fmt(&mut s);
        assert(s@ =~= self.text());
        s
    }
}

impl<'a> Clone for FofAnnotated<'a> {
    fn clone(&self) -> (copy: Self)
        ensures
            copy.text() == self.text(),
    {
        FofAnnotated {
            name: self.name.clone(),
            role: self.role,
            formula: Box::new((*self.formula).clone()),
            annotations: Box::new((*self.annotations).clone()),
        }
    }
}

/// A clause with its name, role and annotations.
#[derive(Debug, PartialOrd, Ord, PartialEq, Eq, Hash)]
pub struct CnfAnnotated<'a> {
    pub name: Name<'a>,
    pub role: FormulaRole,
    pub formula: Box<CnfFormula<'a>>,
    pub annotations: Box<Annotations<'a>>,
}

impl<'a> CnfAnnotated<'a> {
    /// The canonical text.
    pub open spec fn text(&self) -> Seq<char> {
        "cnf("@ + self.name.text() + ","@ + self.role.text() + ","@ + self.formula.text()
            + self.annotations.text() + ")."@
    }

    /// Appends the canonical text to `f`.
    pub fn fmt(&self, f: &mut String)
        ensures
            final(f)@ == old(f)@ + self.text(),
    {
        f.append("cnf(");
        self.name.fmt(f);
        f.append(",");
        self.role.fmt(f);
        f.append(",");
        self.formula.fmt(f);
        self.annotations.fmt(f);
        f.append(").");
        assert(f@ =~= old(f)@ + self.text());
    }

    /// The canonical text as a string.
    pub fn to_string(&self) -> (s: String)
        ensures
            s@ == self.text(),
    {
        let mut s = String::new();
        self.fmt(&mut s);
        assert(s@ =~= self.text());
        s
    }
}

impl<'a> Clone for CnfAnnotated<'a> {
    fn clone(&self) -> (copy: Self)
        ensures
            copy.text() == self.text(),
    {
        CnfAnnotated {
            name: self.name.clone(),
            role: self.role,
            formula: Box::new((*self.formula).clone()),
            annotations: Box::new((*self.annotations).clone()),
        }
    }
}

/// An annotated formula of either family.
#[derive(Debug, PartialOrd, Ord, PartialEq, Eq, Hash)]
pub enum AnnotatedFormula<'a> {
    Fof(FofAnnotated<'a>),
    Cnf(CnfAnnotated<'a>),
}

impl<'a> AnnotatedFormula<'a> {
    /// The canonical text.
    pub open spec fn text(&self) -> Seq<char>
    {
        match self {
            AnnotatedFormula::Fof(x) => x.text(),
            AnnotatedFormula::Cnf(x) => x.text(),
        }
    }

    /// Appends the canonical text to `f`.
    pub fn fmt(&self, f: &mut String)
        ensures
            final(f)@ == old(f)@ + self.text(),
    {
        match self {
            AnnotatedFormula::Fof(x) => x.fmt(f),
            AnnotatedFormula::Cnf(x) => x.fmt(f),
        }
        assert(f@ =~= old(f)@ + self.text());
    }

    /// The canonical text as a string.
    pub fn to_string(&self) -> (s: String)
        ensures
            s@ == self.text(),
    {
        let mut s = String::new();
        self.fmt(&mut s);
        assert(s@ =~= self.text());
        s
    }
}

impl<'a> Clone for AnnotatedFormula<'a> {
    fn clone(&self) -> (copy: Self)
        ensures
            copy.text() == self.text(),
    {
        match self {
            AnnotatedFormula::Fof(x) => AnnotatedFormula::Fof(x.clone()),
            AnnotatedFormula::Cnf(x) => AnnotatedFormula::Cnf(x.clone()),
        }
    }
}

/// The name of a file to include.
#[derive(Debug, PartialOrd, Ord, PartialEq, Eq, Hash)]
pub struct FileName<'a>(pub SingleQuoted<'a>);

impl<'a> FileName<'a> {
    /// The canonical text.
    pub open spec fn text(&self) -> Seq<char> {
        self.0.text()
    }

    /// Appends the canonical text to `f`.
    pub fn fmt(&self, f: &mut String)
        ensures
            final(f)@ == old(f)@ + self.text(),
    {
        self.0.fmt(f);
        assert(f@ =~= old(f)@ + self.text());
    }

    /// The canonical text as a string.
    pub fn to_string(&self) -> (s: String)
        ensures
            s@ == self.text(),
    {
        let mut s = String::new();
        self.fmt(&mut s);
        assert(s@ =~= self.text());
        s
    }
}

impl<'a> Clone for FileName<'a> {
    fn clone(&self) -> (copy: Self)
        ensures
            copy.text() == self.text(),
    {
        FileName(self.0.clone())
    }
}

/// Names with commas between them.
#[derive(Debug, PartialOrd, Ord, PartialEq, Eq, Hash)]
pub struct NameList<'a>(pub Vec<Name<'a>>);

impl<'a> NameList<'a> {
    /// The texts of the names.
    pub open spec fn texts(&self) -> Seq<Seq<char>> {
        Seq::new(self.0@.len(), |k: int| self.0@[k].text())
    }

    /// The canonical text.
    pub open spec fn text(&self) -> Seq<char> {
        join(self.texts(), ","@)
    }

    /// Appends the canonical text to `f`.
    #[verifier::loop_isolation(false)]
    pub fn fmt(&self, f: &mut String)
        ensures
            final(f)@ == old(f)@ + self.text(),
    {
        let mut parts: Vec<String> = Vec::new();
        let mut k: usize = 0;
        while k < self.0.len()
            invariant
                k <= self.0.len(),
                parts@.len() == k,
                forall|j: int| 0 <= j < k ==> (#[trigger] parts@[j])@ == self.0@[j].text(),
            decreases self.0.len() - k,
        {
            let part = self.0[k].to_string();
            parts.push(part);
            k += 1;
        }
        assert(parts.deep_view() =~= self.texts());
        fmt_list(f, ",", &parts);
        assert(f@ =~= old(f)@ + self.text());
    }

    /// The canonical text as a string.
    pub fn to_string(&self) -> (s: String)
        ensures
            s@ == self.text(),
    {
        let mut s = String::new();
        self.fmt(&mut s);
        assert(s@ =~= self.text());
        s
    }
}

impl<'a> Clone for NameList<'a> {
    fn clone(&self) -> (copy: Self)
        ensures
            copy.text() == self.text(),
    {
        let mut items: Vec<Name<'a>> = Vec::new();
        let mut k: usize = 0;
        while k < self.0.len()
            invariant
                k <= self.0.len(),
                items@.len() == k,
                forall|j: int| 0 <= j < k ==> (#[trigger] items@[j]).text() == self.0@[j].text(),
            decreases self.0.len() - k,
        {
            let item = self.0[k].clone();
            items.push(item);
            k += 1;
        }
        let copy = NameList(items);
        assert(copy.texts() =~= self.texts());
        copy
    }
}

/// The formulas to take from an included file, where they are chosen.
#[derive(Debug, PartialOrd, Ord, PartialEq, Eq, Hash)]
pub struct FormulaSelection<'a>(pub Option<NameList<'a>>);

impl<'a> FormulaSelection<'a> {
    /// The canonical text: a comma and the names in square brackets, or
    /// nothing.
    pub open spec fn text(&self) -> Seq<char> {
        match self.0 {
            Some(list) => ",["@ + list.text() + "]"@,
            None => Seq::empty(),
        }
    }

    /// Appends the canonical text to `f`.
    pub fn fmt(&self, f: &mut String)
        ensures
            final(f)@ == old(f)@ + self.text(),
    {
        match &self.0 {
            Some(list) => {
                f.append(",[");
                list.fmt(f);
                f.append("]");
            },
            None => {},
        }
        assert(f@ =~= old(f)@ + self.text());
    }

    /// The canonical text as a string.
    pub fn to_string(&self) -> (s: String)
        ensures
            s@ == self.text(),
    {
        let mut s = String::new();
        self.fmt(&mut s);
        assert(s@ =~= self.text());
        s
    }
}

impl<'a> Clone for FormulaSelection<'a> {
    fn clone(&self) -> (copy: Self)
        ensures
            copy.text() == self.text(),
    {
        match &self.0 {
            Some(list) => FormulaSelection(Some(list.clone())),
            None => FormulaSelection(None),
        }
    }
}

/// An include directive.
#[derive(Debug, PartialOrd, Ord, PartialEq, Eq, Hash)]
pub struct Include<'a> {
    pub file_name: FileName<'a>,
    pub selection: FormulaSelection<'a>,
}

impl<'a> Include<'a> {
    /// The canonical text.
    pub open spec fn text(&self) -> Seq<char> {
        "include("@ + self.file_name.text() + self.selection.text() + ")."@
    }

    /// Appends the canonical text to `f`.
    pub fn fmt(&self, f: &mut String)
        ensures
            final(f)@ == old(f)@ + self.text(),
    {
        f.append("include(");
        self.file_name.fmt(f);
        self.selection.fmt(f);
        f.append(").");
        assert(f@ =~= old(f)@ + self.text());
    }

    /// The canonical text as a string.
    pub fn to_string(&self) -> (s: String)
        ensures
            s@ == self.text(),
    {
        let mut s = String::new();
        self.fmt(&mut s);
        assert(s@ =~= self.text());
        s
    }
}

impl<'a> Clone for Include<'a> {
    fn clone(&self) -> (copy: Self)
        ensures
            copy.text() == self.text(),
    {
        Include { file_name: self.file_name.clone(), selection: self.selection.clone() }
    }
}

/// One input of a problem file.
#[derive(Debug, PartialOrd, Ord, PartialEq, Eq, Hash)]
pub enum TPTPInput<'a> {
    Annotated(AnnotatedFormula<'a>),
    Include(Include<'a>),
}

impl<'a> TPTPInput<'a> {
    /// The canonical text.
    pub open spec fn text(&self) -> Seq<char>
    {
        match self {
            TPTPInput::Annotated(x) => x.text(),
            TPTPInput::Include(x) => x.text(),
        }
    }

    /// Appends the canonical text to `f`.
    pub fn fmt(&self, f: &mut String)
        ensures
            final(f)@ == old(f)@ + self.text(),
    {
        match self {
            TPTPInput::Annotated(x) => x.fmt(f),
            TPTPInput::Include(x) => x.fmt(f),
        }
        assert(f@ =~= old(f)@ + self.text());
    }

    /// The canonical text as a string.
    pub fn to_string(&self) -> (s: String)
        ensures
            s@ == self.text(),
    {
        let mut s = String::new();
        self.fmt(&mut s);
        assert(s@ =~= self.text());
        s
    }
}

impl<'a> Clone for TPTPInput<'a> {
    fn clone(&self) -> (copy: Self)
        ensures
            copy.text() == self.text(),
    {
        match self {
            TPTPInput::Annotated(x) => TPTPInput::Annotated(x.clone()),
            TPTPInput::Include(x) => TPTPInput::Include(x.clone()),
        }
    }
}

} // verus!
