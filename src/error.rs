//! Errors that carry the span of source text they concern.
use vstd::prelude::*;
use crate::source::{Location, Span};

verus! {

/// The kind of an error of one stage: it has a message, and can be copied.
pub trait ErrorKind: Sized + View {
    /// The text of the message for a kind, by what the kind stands for.
    spec fn text_of(kind: Self::V) -> Seq<char>;

    /// A human-readable message describing this kind.
    fn message(&self) -> (r: String)
        ensures
            r@ == Self::text_of(self@),
    ;

    /// A copy of this kind.
    fn duplicate(&self) -> (r: Self)
        ensures
            r@ == self@,
    ;
}

/// An error of some kind, with the span of source text it concerns.
#[derive(Debug, PartialEq)]
pub struct SourceError<TErrorKind: ErrorKind> {
    kind: TErrorKind,
    span: Span,
}

impl<TErrorKind: ErrorKind> View for SourceError<TErrorKind> {
    type V = (TErrorKind::V, Span);

    closed spec fn view(&self) -> (TErrorKind::V, Span) {
        (self.kind@, self.span)
    }
}

impl<TErrorKind: ErrorKind> SourceError<TErrorKind> {
    pub fn new_with_span(kind: TErrorKind, span: Span) -> (r: SourceError<TErrorKind>)
        ensures
            r@ == (kind@, span),
    {
        SourceError { kind, span }
    }

    /// An error that concerns the single location `loc`.
    pub fn new_with_location(kind: TErrorKind, loc: Location) -> (r: SourceError<TErrorKind>)
        ensures
            r@ == (kind@, Span { start: loc, end: loc }),
    {
        SourceError { kind, span: Span::from_location(loc) }
    }

    pub fn kind(&self) -> (r: TErrorKind)
        ensures
            r@ == self@.0,
    {
        self.kind.duplicate()
    }

    pub fn span(&self) -> (r: Span)
        ensures
            r == self@.1,
    {
        self.span
    }

    /// The message of this error's kind.
    pub fn message(&self) -> (r: String)
        ensures
            r@ == TErrorKind::text_of(self@.0),
    {
        self.kind.message()
    }

    /// Takes the error apart into its kind and span.
    pub fn into_parts(self) -> (r: (TErrorKind, Span))
        ensures
            r.0@ == self@.0,
            r.1 == self@.1,
    {
        (self.kind, self.span)
    }
}

} // verus!
