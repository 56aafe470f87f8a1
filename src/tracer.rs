//! The tracer: the sampler and the sending end of the finished-span channel.
use vstd::prelude::*;
use std::sync::mpsc::{Receiver, Sender};
use crate::span::{FinishedSpan, StartSpanOptions};

verus! {

#[verifier::external_type_specification]
#[verifier::external_body]
#[verifier::reject_recursive_types(T)]
pub struct ExSender<T>(std::sync::mpsc::Sender<T>);

#[verifier::external_type_specification]
#[verifier::external_body]
#[verifier::reject_recursive_types(T)]
pub struct ExReceiver<T>(std::sync::mpsc::Receiver<T>);

/// Relies on `std::sync::mpsc::channel`: a new unbounded channel.
#[verifier::external_body]
fn open_channel<T>() -> (Sender<T>, Receiver<T>) {
    std::sync::mpsc::channel()
}

/// Relies on `Sender::clone`: another sending end of the same channel.
#[verifier::external_body]
fn clone_sender<T>(tx: &Sender<T>) -> Sender<T> {
    tx.clone()
}

/// Relies on `Sender::send`: never blocks; a send without a receiver fails,
/// and that failure is dropped here.
#[verifier::external_body]
pub(crate) fn deliver<T>(tx: &Sender<T>, value: T)
    opens_invariants none
    no_unwind
{
    let _ = tx.send(value);
}

/// Receiving end of the finished spans.
pub type SpanReceiver<T> = Receiver<FinishedSpan<T>>;

/// Starts spans, and sends each finished span of a traced span to the
/// receiver made with it.
#[derive(Debug)]
#[verifier::reject_recursive_types(T)]
pub struct Tracer<S, T> {
    sampler: S,
    span_tx: Sender<FinishedSpan<T>>,
}

impl<S, T> Tracer<S, T> {
    /// A tracer with this sampler, and the receiver of its finished spans.
    pub fn new(sampler: S) -> (r: (Tracer<S, T>, SpanReceiver<T>))
        ensures
            r.0.sampler_view() == sampler,
    {
        let (span_tx, span_rx) = open_channel();
        (Tracer { sampler, span_tx }, span_rx)
    }

    pub closed spec fn sampler_view(&self) -> S {
        self.sampler
    }

    /// Returns the sampler of this tracer.
    pub fn sampler(&self) -> (r: &S)
        ensures
            *r == self.sampler_view(),
    {
        &self.sampler
    }

    /// Options for a new span with this operation name.
    pub fn span(&self, operation_name: &str) -> (r: StartSpanOptions<'_, S, T>)
        ensures
            r.operation_name_view() == operation_name@,
            r.start_time_view() is None,
            r.tags_view() == Seq::<crate::tag::Tag>::empty(),
            r.references_view() == Seq::<crate::span::SpanReference<T>>::empty(),
            r.baggage_view() == Seq::<crate::span::BaggageItem>::empty(),
            r.sampler_view() == self.sampler_view(),
    {
        StartSpanOptions::new(self, operation_name)
    }

    /// A new sending end for finished spans.
    pub(crate) fn span_tx(&self) -> Sender<FinishedSpan<T>> {
        clone_sender(&self.span_tx)
    }
}

} // verus!
