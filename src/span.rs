use vstd::prelude::*;

verus! {

/// A byte range `[start, end)` into the source text.
#[derive(Clone, Copy, Debug, PartialEq, Eq, Structural)]
pub struct Span {
    pub start: u32,
    pub end: u32,
}

impl Span {
    /// The span lies inside a text of `len` bytes and does not run backwards.
    pub open spec fn wf(self, len: nat) -> bool {
        self.start <= self.end && self.end <= len
    }

    /// `inner` lies entirely inside `self`.
    pub open spec fn spec_encloses(self, inner: Span) -> bool {
        self.start <= inner.start && inner.end <= self.end
    }

    pub fn new(start: u32, end: u32) -> (r: Span)
        ensures
            r.start == start,
            r.end == end,
    {
        Span { start, end }
    }

    /// Whether the span is well formed for a text of `len` bytes.
    pub fn fits(&self, len: usize) -> (r: bool)
        ensures
            r == self.wf(len as nat),
    {
        self.start <= self.end && (self.end as usize) <= len
    }

    /// Whether `inner` is contained in this span.
    pub fn encloses(&self, inner: &Span) -> (r: bool)
        ensures
            r == self.spec_encloses(*inner),
    {
        self.start <= inner.start && inner.end <= self.end
    }
}

/// Containment of spans is transitive, so a well-formed outer span bounds
/// every span nested inside it.
pub proof fn lemma_enclosed_span_fits(outer: Span, inner: Span, len: nat)
    requires
        outer.wf(len),
        outer.spec_encloses(inner),
        inner.start <= inner.end,
    ensures
        inner.wf(len),
{
}

} // verus!
