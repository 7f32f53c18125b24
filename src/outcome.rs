//! Cursors over input, scalar values, and the outcome of a match.
use vstd::prelude::*;

verus! {

/// The unconsumed input, with whether it is known to be all there is
/// (`complete`) or may still be extended by more input.
#[derive(Clone, Copy, Debug, PartialEq, Eq)]
pub struct Cursor<'a> {
    pub input: &'a str,
    pub complete: bool,
}

impl<'a> Cursor<'a> {
    /// A cursor over input known to be whole.
    pub fn complete(input: &'a str) -> (r: Cursor<'a>)
        ensures
            r.input@ == input@,
            r.complete,
    {
        Cursor { input, complete: true }
    }

    /// A cursor over input that may be followed by more.
    pub fn partial(input: &'a str) -> (r: Cursor<'a>)
        ensures
            r.input@ == input@,
            !r.complete,
    {
        Cursor { input, complete: false }
    }
}

/// A scalar JSON value. A number that is not an integer in range of `i64`
/// is kept as its literal text, which reads as a double with the usual
/// decimal and exponent rules.
#[derive(Clone, Debug, PartialEq)]
pub enum Node {
    Boolean(bool),
    Real(String),
    Integer(i64),
    Null,
}

/// What a [`Node`] stands for.
pub enum NodeView {
    Boolean(bool),
    Real(Seq<char>),
    Integer(int),
    Null,
}

impl View for Node {
    type V = NodeView;

    open spec fn view(&self) -> NodeView {
        match self {
            Node::Boolean(b) => NodeView::Boolean(*b),
            Node::Real(t) => NodeView::Real(t@),
            Node::Integer(i) => NodeView::Integer(*i as int),
            Node::Null => NodeView::Null,
        }
    }
}

/// The kind of text that was expected where a match failed.
#[derive(Clone, Copy, Debug, PartialEq, Eq)]
pub enum Expected {
    /// The next character of a keyword.
    Keyword,
    /// A digit.
    Digit,
    /// A fraction or an exponent after the integer part.
    FractionOrExponent,
    /// An integer part whose value fits in `i64`.
    FitsInt64,
    /// Any scalar: every alternative failed.
    Scalar,
}

/// Where and why the input cannot be matched: `offset` counts characters
/// from the start of the input handed in.
#[derive(Clone, Copy, Debug, PartialEq, Eq)]
pub struct Rejection {
    pub offset: usize,
    pub expected: Expected,
}

/// The outcome of matching a production at a cursor.
#[derive(Clone, Debug, PartialEq)]
pub enum MatchOutcome<'a> {
    /// A token was consumed; the cursor holds what follows it.
    Matched(Node, Cursor<'a>),
    /// The input cannot begin this production.
    Rejected(Rejection),
    /// The input seen so far may still become a match: at least this many
    /// more characters are needed to decide.
    NeedMore(usize),
}

/// What a [`MatchOutcome`] stands for: the value, the remaining input and
/// its completeness; or the offset and kind of a rejection; or the hint.
pub enum Outcome {
    Matched(NodeView, Seq<char>, bool),
    Rejected(nat, Expected),
    NeedMore(nat),
}

impl Outcome {
    pub open spec fn is_rejected(self) -> bool {
        self is Rejected
    }

    pub open spec fn is_need_more(self) -> bool {
        self is NeedMore
    }

    /// Offset of a rejection (0 for the other outcomes).
    pub open spec fn offset(self) -> nat {
        match self {
            Outcome::Rejected(o, _) => o,
            _ => 0,
        }
    }
}

impl<'a> View for MatchOutcome<'a> {
    type V = Outcome;

    open spec fn view(&self) -> Outcome {
        match self {
            MatchOutcome::Matched(v, c) => Outcome::Matched(v@, c.input@, c.complete),
            MatchOutcome::Rejected(r) => Outcome::Rejected(r.offset as nat, r.expected),
            MatchOutcome::NeedMore(n) => Outcome::NeedMore(*n as nat),
        }
    }
}

impl<'a> MatchOutcome<'a> {
    /// Whether this is a rejection.
    pub fn is_rejected(&self) -> (r: bool)
        ensures
            r == self@.is_rejected(),
    {
        match self {
            MatchOutcome::Rejected(_) => true,
            _ => false,
        }
    }

    /// Offset of a rejection (0 for the other outcomes).
    pub fn rejected_offset(&self) -> (r: usize)
        ensures
            r == self@.offset(),
    {
        match self {
            MatchOutcome::Rejected(j) => j.offset,
            _ => 0,
        }
    }
}

} // verus!
