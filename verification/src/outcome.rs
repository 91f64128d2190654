//! The three-way result of one attempted production.

use vstd::prelude::*;

verus! {

/// What an attempt to read one production from a buffer came to.
#[derive(Clone, Debug, PartialEq, Eq)]
pub enum Outcome<T> {
    /// The production was read: its tree, and the offset of the first byte
    /// that was not consumed.
    Complete(T, usize),
    /// Everything read so far is consistent with the production, but the
    /// buffer ended before it could be decided.
    Incomplete,
    /// The input cannot be this production: the offset of the offending
    /// byte, and what was expected there.
    Malformed(usize, Expected),
}

/// What a malformed production lacked at the offending byte.
#[derive(Clone, Copy, Debug, PartialEq, Eq, Hash)]
pub enum Expected {
    /// A lower-case letter, to begin a word.
    Lower,
    /// An upper-case letter, to begin a variable.
    Upper,
    /// A dollar sign.
    Dollar,
    /// A digit.
    Digit,
    /// The quote that opens a quoted token.
    Quote,
    /// A character that may stand between quotes.
    QuotedChar,
    /// A quote or a backslash, behind a backslash.
    Escape,
    /// The first byte of a term.
    Term,
    /// `=` or `!=`, behind a term that is no formula by itself.
    Equality,
    /// `)`, or the separator that would continue what the parenthesis holds.
    CloseParen,
    /// `!` or `?`.
    Quantifier,
    /// `[`, behind a quantifier.
    OpenBracket,
    /// `]`, or the comma that would continue the list of variables.
    CloseBracket,
    /// `:`, behind the variables of a quantifier.
    Colon,
    /// A binary connective.
    Connective,
}

/// The mathematical counterpart of [`Outcome`], over models and unbounded
/// offsets.
pub ghost enum Parsed<T> {
    /// The tree that was read, and the offset behind its last byte.
    Done(T, int),
    /// The buffer ended too early to tell.
    Incomplete,
    /// The offset of the offending byte, and what was expected there.
    Malformed(int, Expected),
}

impl<T: View> View for Outcome<T> {
    type V = Parsed<T::V>;

    open spec fn view(&self) -> Parsed<T::V> {
        match self {
            Outcome::Complete(t, end) => Parsed::Done(t@, *end as int),
            Outcome::Incomplete => Parsed::Incomplete,
            Outcome::Malformed(at, what) => Parsed::Malformed(*at as int, *what),
        }
    }
}

impl<T> Parsed<T> {
    /// The same result with the tree changed by `f`.
    pub open spec fn map<U>(self, f: spec_fn(T) -> U) -> Parsed<U> {
        match self {
            Parsed::Done(t, end) => Parsed::Done(f(t), end),
            Parsed::Incomplete => Parsed::Incomplete,
            Parsed::Malformed(at, what) => Parsed::Malformed(at, what),
        }
    }

    /// The result, provided that it ends after `from` and within `len`.
    /// Every production of the grammar does; the proviso makes that plain
    /// where the grammar is defined, so that its recursion is seen to end.
    pub open spec fn beyond(self, from: int, len: nat) -> Parsed<T> {
        match self {
            Parsed::Done(_, end) => if from < end <= len {
                self
            } else {
                Parsed::Incomplete
            },
            _ => self,
        }
    }

    /// A production that begins at `from` in a buffer of `len` bytes can have
    /// this result: where it is done, it ends after `from` and within the
    /// buffer; where it is malformed, the offending byte is one of the
    /// buffer, at or after `from`.
    pub open spec fn within(self, from: int, len: nat) -> bool {
        match self {
            Parsed::Done(_, end) => from < end <= len,
            Parsed::Incomplete => true,
            Parsed::Malformed(at, _) => from <= at < len,
        }
    }
}

/// A list that was read, with the items that were read before it in front.
pub open spec fn prepend<T>(front: Seq<T>, r: Parsed<Seq<T>>) -> Parsed<Seq<T>> {
    match r {
        Parsed::Done(rest, end) => Parsed::Done(front + rest, end),
        Parsed::Incomplete => Parsed::Incomplete,
        Parsed::Malformed(at, what) => Parsed::Malformed(at, what),
    }
}

/// Items in front of items in front of a list are all of them in front of it.
pub proof fn lemma_prepend_twice<T>(a: Seq<T>, b: Seq<T>, r: Parsed<Seq<T>>)
    ensures
        prepend(a, prepend(b, r)) == prepend(a + b, r),
{
    match r {
        Parsed::Done(rest, _) => {
            assert(a + (b + rest) =~= (a + b) + rest);
        },
        _ => {},
    }
}

/// Nothing in front of a list is the list.
pub proof fn lemma_prepend_nothing<T>(r: Parsed<Seq<T>>)
    ensures
        prepend(Seq::empty(), r) == r,
{
    match r {
        Parsed::Done(rest, _) => {
            assert(Seq::<T>::empty() + rest =~= rest);
        },
        _ => {},
    }
}

/// The models of a list of trees.
pub open spec fn views<T: View>(items: Seq<T>) -> Seq<T::V> {
    Seq::new(items.len(), |k: int| items[k]@)
}

/// The models of a list with one more tree behind it.
pub proof fn lemma_views_push<T: View>(items: Seq<T>, last: T)
    ensures
        views(items.push(last)) == views(items) + seq![last@],
{
    assert(views(items.push(last)) =~= views(items) + seq![last@]);
}

/// The models of a list with one more tree in front of it.
pub proof fn lemma_views_insert<T: View>(items: Seq<T>, first: T)
    ensures
        views(items.insert(0, first)) == seq![first@] + views(items),
{
    assert(views(items.insert(0, first)) =~= seq![first@] + views(items));
}

impl<T: View> Outcome<Vec<T>> {
    /// The result over the models of the items that were read.
    pub open spec fn list_view(&self) -> Parsed<Seq<T::V>> {
        match self {
            Outcome::Complete(items, end) => Parsed::Done(views(items@), *end as int),
            Outcome::Incomplete => Parsed::Incomplete,
            Outcome::Malformed(at, what) => Parsed::Malformed(*at as int, *what),
        }
    }
}

/// The model of a tree that may be absent.
pub open spec fn option_view<T: View>(item: Option<T>) -> Option<T::V> {
    match item {
        Some(t) => Some(t@),
        None => None,
    }
}

impl<T: View> Outcome<Option<T>> {
    /// The result over the model of what was read, where anything was.
    pub open spec fn optional_view(&self) -> Parsed<Option<T::V>> {
        match self {
            Outcome::Complete(item, end) => Parsed::Done(option_view(*item), *end as int),
            Outcome::Incomplete => Parsed::Incomplete,
            Outcome::Malformed(at, what) => Parsed::Malformed(*at as int, *what),
        }
    }
}

impl<T> Outcome<T> {
    /// Whether the production was read.
    pub fn is_complete(&self) -> (r: bool)
        ensures
            r == (self is Complete),
    {
        match self {
            Outcome::Complete(_, _) => true,
            _ => false,
        }
    }

    /// Whether more bytes are needed to decide.
    pub fn is_incomplete(&self) -> (r: bool)
        ensures
            r == (self is Incomplete),
    {
        match self {
            Outcome::Incomplete => true,
            _ => false,
        }
    }

    /// Whether the input cannot be the production.
    pub fn is_malformed(&self) -> (r: bool)
        ensures
            r == (self is Malformed),
    {
        match self {
            Outcome::Malformed(_, _) => true,
            _ => false,
        }
    }
}

} // verus!
