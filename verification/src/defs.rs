//! Source spans and spanned values.
use vstd::prelude::*;

verus! {

/// A byte range `start..end` in a source text.
#[derive(Debug, Clone, Copy, PartialEq, Eq)]
pub struct RawSpan {
    pub start: usize,
    pub end: usize,
}

/// Where a value comes from: a known range of the source, or the call site
/// (a value that the compiler made up).
#[derive(Debug, Clone, Copy, PartialEq, Eq)]
pub enum Span {
    CallSite,
    Known(RawSpan),
}

impl Span {
    /// The length a span reports: the width of a known range, 1 for the call site.
    pub open spec fn spec_len(self) -> int {
        match self {
            Span::Known(s) => s.end - s.start,
            Span::CallSite => 1,
        }
    }

    /// A known range whose end is not before its start (the call site always is).
    pub open spec fn well_ordered(self) -> bool {
        match self {
            Span::Known(s) => s.start <= s.end,
            Span::CallSite => true,
        }
    }

    /// The range a span stands for; the call site stands for `0..0`.
    pub open spec fn spec_raw(self) -> RawSpan {
        match self {
            Span::Known(s) => s,
            Span::CallSite => RawSpan { start: 0, end: 0 },
        }
    }

    pub fn new(start: usize, end: usize) -> (r: Self)
        ensures
            r == Span::Known(RawSpan { start, end }),
    {
        Span::Known(RawSpan { start, end })
    }

    pub fn len(&self) -> (r: usize)
        requires
            self.well_ordered(),
        ensures
            r == self.spec_len(),
    {
        match self {
            Span::Known(span) => span.end - span.start,
            Span::CallSite => 1,
        }
    }

    pub fn is_empty(&self) -> (r: bool)
        requires
            self.well_ordered(),
        ensures
            r == (self.spec_len() == 0),
    {
        self.len() == 0
    }

    pub fn span(&self) -> (r: RawSpan)
        ensures
            r == self.spec_raw(),
    {
        match self {
            Span::CallSite => RawSpan { start: 0, end: 0 },
            Span::Known(known) => *known,
        }
    }
}

/// A value together with the span it was read from.
#[derive(Debug, Clone)]
pub struct Spanned<T> {
    pub span: Span,
    pub value: T,
}

/// Values that can be given a span.
pub trait Spans: Sized {
    fn with_span(self, span: Span) -> (r: Spanned<Self>)
        ensures
            r.span == span,
            r.value == self,
    {
        Spanned { span, value: self }
    }
}

impl<T> Spans for T {}

/// Attach a span to a value.
pub fn with_span<T>(value: T, span: Span) -> (r: Spanned<T>)
    ensures
        r.span == span,
        r.value == value,
{
    Spanned { span, value }
}

impl<T> Spanned<T> {
    pub fn new(start: usize, end: usize, value: T) -> (r: Self)
        ensures
            r.span == Span::Known(RawSpan { start, end }),
            r.value == value,
    {
        Spanned { value, span: Span::new(start, end) }
    }

    pub fn call_site(value: T) -> (r: Self)
        ensures
            r.span == Span::CallSite,
            r.value == value,
    {
        Spanned { value, span: Span::CallSite }
    }

    pub fn map<U, F: FnOnce(T) -> U>(self, f: F) -> (r: Spanned<U>)
        requires
            f.requires((self.value,)),
        ensures
            r.span == self.span,
            f.ensures((self.value,), r.value),
            forall|sf: spec_fn(T) -> U| (forall|x: T, y: U| #[trigger] f.ensures((x,), y) ==> y == sf(x))
                ==> r == spanned_map(self, sf),
    {
        let span = self.span;
        let value = f(self.value);
        Spanned { value, span }
    }

    pub fn len(&self) -> (r: usize)
        requires
            self.span.well_ordered(),
        ensures
            r == self.span.spec_len(),
    {
        self.span.len()
    }

    pub fn is_empty(&self) -> (r: bool)
        requires
            self.span.well_ordered(),
        ensures
            r == (self.span.spec_len() == 0),
    {
        self.span.is_empty()
    }

    pub fn span(&self) -> (r: RawSpan)
        ensures
            r == self.span.spec_raw(),
    {
        self.span.span()
    }
}

/// A value mapped by `f`, its span kept.
pub open spec fn spanned_map<T, U>(s: Spanned<T>, f: spec_fn(T) -> U) -> Spanned<U> {
    Spanned { span: s.span, value: f(s.value) }
}

/// Mapping by the identity gives back the value.
pub proof fn law_map_identity<T>(s: Spanned<T>)
    ensures
        spanned_map(s, |x: T| x) == s,
{
}

/// Mapping by `f` and then by `g` is mapping by `g` after `f`.
pub proof fn law_map_compose<T, U, V>(s: Spanned<T>, f: spec_fn(T) -> U, g: spec_fn(U) -> V)
    ensures
        spanned_map(spanned_map(s, f), g) == spanned_map(s, |x: T| g(f(x))),
{
}

} // verus!
