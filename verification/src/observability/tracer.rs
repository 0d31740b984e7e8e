//! Trace spans.

use vstd::prelude::*;

verus! {

/// A span of a trace. It lasts until it is dropped.
#[must_use]
#[derive(Debug)]
pub struct Span {
    _private: (),
}

impl Span {
    /// A span that nothing is kept of. Spans come from [`Tracer::start_span`].
    pub fn new() -> (span: Self)
        ensures
            span == Span::untracked(),
    {
        Span { _private: () }
    }

    /// The span that nothing is kept of.
    pub closed spec fn untracked() -> Span {
        Span { _private: () }
    }

    /// Marks the span as failed. Of a span that nothing is kept of, neither is
    /// its failure.
    pub fn record_error(&mut self, _err: &str)
        ensures
            *final(self) == *old(self),
    {
    }
}

/// Starts spans.
pub trait Tracer: Send + Sync + 'static {
    /// A span for the operation `name`, to be kept until the operation ends.
    fn start_span(&self, name: &str) -> Span;
}

/// A tracer that keeps nothing of its spans.
#[derive(Debug, Clone, Copy)]
pub struct NoopTracer;

impl Tracer for NoopTracer {
    fn start_span(&self, _name: &str) -> (span: Span)
        ensures
            span == Span::untracked(),
    {
        Span::new()
    }
}

impl Default for NoopTracer {
    fn default() -> (tracer: Self)
        ensures
            tracer == NoopTracer,
    {
        NoopTracer
    }
}

} // verus!
