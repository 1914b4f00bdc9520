use vstd::prelude::*;

verus! {

/// A half-open byte range `[start, end)` into the source text.
#[derive(Debug, Clone, Copy, PartialEq, Eq, Structural)]
pub struct Span {
    pub start: usize,
    pub end: usize,
}

impl Span {
    pub open spec fn wf(self) -> bool {
        self.start <= self.end
    }

    /// The same range as the diagnostic renderer's span type. Relies on
    /// miette's `From<Range<usize>> for SourceSpan`, which keeps the start as
    /// offset and the range's length as length.
    #[verifier::external_body]
    pub fn to_source_span(self) -> (r: miette::SourceSpan) {
        miette::SourceSpan::from(self.start..self.end)
    }
}

impl From<(usize, usize)> for Span {
    fn from(value: (usize, usize)) -> (r: Span) {
        Span { start: value.0, end: value.1 }
    }
}

impl vstd::std_specs::convert::FromSpecImpl<(usize, usize)> for Span {
    open spec fn obeys_from_spec() -> bool {
        true
    }

    open spec fn from_spec(v: (usize, usize)) -> Span {
        Span { start: v.0, end: v.1 }
    }
}

/// Declares the diagnostic renderer's span type so that it can stand in signatures.
#[verifier::external_type_specification]
#[verifier::external_body]
pub struct ExSourceSpan(miette::SourceSpan);

} // verus!
