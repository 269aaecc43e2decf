//! Source spans and identifiers.

use vstd::prelude::*;

verus! {

/// A location in source text. Spans are plain values: copying one keeps it equal.
pub trait Span: Copy {}

/// The span of syntax that was not read from source text.
#[derive(Clone, Copy, Debug, PartialEq, Eq, Structural)]
pub struct NoSpan;

impl Span for NoSpan {}

/// A byte range `start..end` of source text.
#[derive(Clone, Copy, Debug, PartialEq, Eq, Structural)]
pub struct SourceRange {
    /// First byte of the range.
    pub start: usize,
    /// One past the last byte of the range.
    pub end: usize,
}

impl Span for SourceRange {}

/// Wraps data of type `T` in a span of type `S`, locating it in the source text.
#[derive(Clone, Debug)]
pub struct Spanned<S, T> {
    /// Wrapped data
    pub inner: T,
    /// Text span
    pub span: S,
}

/// An identifier
#[derive(Clone, Debug, PartialEq, Eq, Hash)]
pub struct Name(String);

impl View for Name {
    type V = Seq<char>;

    closed spec fn view(&self) -> Seq<char> {
        self.0@
    }
}

impl Name {
    /// An identifier with the given text.
    pub fn new(s: String) -> (r: Name)
        ensures
            r@ == s@,
    {
        Name(s)
    }

    /// The text of the identifier.
    pub fn as_str(&self) -> (r: &str)
        ensures
            r@ == self@,
    {
        self.0.as_str()
    }

    /// Whether two identifiers have the same text.
    pub fn same(&self, other: &Name) -> (r: bool)
        ensures
            r == (self@ == other@),
    {
        self.0 == other.0
    }

    /// A copy of the identifier.
    pub fn duplicate(&self) -> (r: Name)
        ensures
            r == *self,
            r@ == self@,
    {
        Name(self.0.clone())
    }
}

} // verus!
