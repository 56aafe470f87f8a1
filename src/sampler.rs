//! The sampling decision: whether a span is traced.
use vstd::prelude::*;
use crate::span::{CandidateSpan, SpanReference, BaggageItem};
use crate::tag::Tag;

verus! {

/// Decides whether a span is traced, from the span's finalized tags,
/// references and baggage alone.
pub trait Sampler<T> {
    /// The decision on a candidate with these tags, references and baggage.
    spec fn decides(&self, tags: Seq<Tag>, references: Seq<SpanReference<T>>, baggage: Seq<BaggageItem>) -> bool;

    /// Returns `true` if the candidate span is to be traced.
    fn is_sampled(&self, span: &CandidateSpan<T>) -> (r: bool)
        ensures
            r == self.decides(span.tags_view(), span.references_view(), span.baggage_view()),
    ;
}

/// Traces every span.
#[derive(Debug, Clone)]
pub struct AllSampler;

impl<T> Sampler<T> for AllSampler {
    open spec fn decides(&self, tags: Seq<Tag>, references: Seq<SpanReference<T>>, baggage: Seq<BaggageItem>) -> bool {
        true
    }

    fn is_sampled(&self, span: &CandidateSpan<T>) -> (r: bool) {
        true
    }
}

/// Traces no span.
#[derive(Debug, Clone)]
pub struct NullSampler;

impl<T> Sampler<T> for NullSampler {
    open spec fn decides(&self, tags: Seq<Tag>, references: Seq<SpanReference<T>>, baggage: Seq<BaggageItem>) -> bool {
        false
    }

    fn is_sampled(&self, span: &CandidateSpan<T>) -> (r: bool) {
        false
    }
}

} // verus!
