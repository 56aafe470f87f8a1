//! Spans: the builder that gathers a span's options, the active span, the
//! finished span handed to the collector, and the propagable span context.
use vstd::prelude::*;
use std::sync::mpsc::Sender;
use crate::log::{Log, LogBuilder};
use crate::names::{
    Named, find_named, has_name, is_first_named, is_last_of_name, is_normalization, normalize,
    put_entry, put_named, unique_names, lemma_covers_at, lemma_drawn_at, lemma_put_unique,
    lemma_sorted_unique, lemma_put_aba, lemma_put_all_last_wins, put_all_sorted, put_sorted,
    put_sorted_named, names_sorted, lemma_put_sorted,
};
use crate::sampler::Sampler;
use crate::tag::{Tag, TagValue};
use crate::time::{Timestamp, now};
use crate::tracer::{Tracer, deliver};

verus! {

/// A value that may refer to a value of type `U` (a span context).
pub trait MaybeAsRef<U> {
    /// The value referred to, if any.
    spec fn referred(&self) -> Option<U>;

    fn maybe_as_ref(&self) -> (r: Option<&U>)
        ensures
            match r {
                Some(u) => self.referred() == Some(*u),
                None => self.referred() is None,
            },
    ;
}

/// A key:value string pair that travels with a span context to every span
/// that refers to it, directly or transitively.
#[derive(Clone, Debug)]
pub struct BaggageItem {
    name: String,
    value: String,
}

impl BaggageItem {
    /// Makes a new `BaggageItem` instance.
    pub fn new(name: &str, value: &str) -> (r: BaggageItem)
        ensures
            r.name_view() == name@,
            r.value_view() == value@,
    {
        BaggageItem { name: name.to_owned(), value: value.to_owned() }
    }

    pub closed spec fn value_view(&self) -> Seq<char> {
        self.value@
    }

    /// Returns the name of this item.
    pub fn name(&self) -> (r: &str)
        ensures
            r@ == self.name_view(),
    {
        self.name.as_str()
    }

    /// Returns the value of this item.
    pub fn value(&self) -> (r: &str)
        ensures
            r@ == self.value_view(),
    {
        self.value.as_str()
    }

    /// An equal copy of this item.
    pub fn copy(&self) -> (r: BaggageItem)
        ensures
            r == *self,
    {
        BaggageItem { name: self.name.clone(), value: self.value.clone() }
    }
}

impl Named for BaggageItem {
    closed spec fn name_view(&self) -> Seq<char> {
        self.name@
    }

    fn name_str(&self) -> (r: &str) {
        self.name.as_str()
    }
}

/// A causal reference to another span's state.
#[derive(Clone, Debug)]
pub enum SpanReference<T> {
    ChildOf(T),
    FollowsFrom(T),
}

impl<T> SpanReference<T> {
    /// Returns `true` if this is a `ChildOf` reference.
    pub fn is_child_of(&self) -> (r: bool)
        ensures
            r == (*self is ChildOf),
    {
        match self {
            SpanReference::ChildOf(_) => true,
            SpanReference::FollowsFrom(_) => false,
        }
    }

    /// Returns `true` if this is a `FollowsFrom` reference.
    pub fn is_follows_from(&self) -> (r: bool)
        ensures
            r == (*self is FollowsFrom),
    {
        match self {
            SpanReference::ChildOf(_) => false,
            SpanReference::FollowsFrom(_) => true,
        }
    }

    pub open spec fn state_view(&self) -> T {
        match self {
            SpanReference::ChildOf(x) => *x,
            SpanReference::FollowsFrom(x) => *x,
        }
    }

    /// The referenced state.
    pub fn state(&self) -> (r: &T)
        ensures
            *r == self.state_view(),
    {
        match self {
            SpanReference::ChildOf(x) => x,
            SpanReference::FollowsFrom(x) => x,
        }
    }
}

impl<T> std::ops::Deref for SpanReference<T> {
    type Target = T;

    fn deref(&self) -> &T {
        self.state()
    }
}

impl<T> AsRef<T> for SpanReference<T> {
    fn as_ref(&self) -> &T {
        self.state()
    }
}

/// Span context: the tracer's state `T` that identifies a span across a
/// process boundary, and the baggage items that travel with it.
#[derive(Clone, Debug)]
pub struct SpanContext<T> {
    state: T,
    baggage_items: Vec<BaggageItem>,
}

impl<T> SpanContext<T> {
    pub closed spec fn state_view(&self) -> T {
        self.state
    }

    pub closed spec fn baggage_view(&self) -> Seq<BaggageItem> {
        self.baggage_items@
    }

    /// Makes a context from a state and baggage items kept as given.
    pub fn new(state: T, baggage_items: Vec<BaggageItem>) -> (r: SpanContext<T>)
        ensures
            r.state_view() == state,
            r.baggage_view() == baggage_items@,
    {
        SpanContext { state, baggage_items }
    }

    /// Returns the baggage items associated with this context.
    pub fn baggage_items(&self) -> (r: &[BaggageItem])
        ensures
            r@ == self.baggage_view(),
    {
        self.baggage_items.as_slice()
    }

    /// Returns the tracer's state of this context.
    pub fn state(&self) -> (r: &T)
        ensures
            *r == self.state_view(),
    {
        &self.state
    }
}

impl<T> std::ops::Deref for SpanContext<T> {
    type Target = T;

    fn deref(&self) -> &T {
        &self.state
    }
}

impl<T> AsRef<T> for SpanContext<T> {
    fn as_ref(&self) -> &T {
        &self.state
    }
}

impl<T> MaybeAsRef<SpanContext<T>> for SpanContext<T> {
    open spec fn referred(&self) -> Option<SpanContext<T>> {
        Some(*self)
    }

    fn maybe_as_ref(&self) -> (r: Option<&SpanContext<T>>) {
        Some(self)
    }
}

/// What a sampler may look at: the finalized tags, references and baggage
/// of a span that is about to start.
#[derive(Debug)]
pub struct CandidateSpan<'a, T> {
    tags: &'a [Tag],
    references: &'a [SpanReference<T>],
    baggage_items: &'a [BaggageItem],
}

impl<'a, T> CandidateSpan<'a, T> {
    pub closed spec fn tags_view(&self) -> Seq<Tag> {
        self.tags@
    }

    pub closed spec fn references_view(&self) -> Seq<SpanReference<T>> {
        self.references@
    }

    pub closed spec fn baggage_view(&self) -> Seq<BaggageItem> {
        self.baggage_items@
    }

    /// Returns the tags of this span.
    pub fn tags(&self) -> (r: &[Tag])
        ensures
            r@ == self.tags_view(),
    {
        self.tags
    }

    /// Returns the references of this span.
    pub fn references(&self) -> (r: &[SpanReference<T>])
        ensures
            r@ == self.references_view(),
    {
        self.references
    }

    /// Returns the baggage items of this span.
    pub fn baggage_items(&self) -> (r: &[BaggageItem])
        ensures
            r@ == self.baggage_view(),
    {
        self.baggage_items
    }
}

/// What a span holds while it is active, and what its finished span holds.
pub struct SpanModel<T> {
    pub operation_name: Seq<char>,
    pub start_time: Timestamp,
    pub finish_time: Option<Timestamp>,
    pub references: Seq<SpanReference<T>>,
    pub tags: Seq<Tag>,
    pub logs: Seq<Log>,
    pub state: T,
    pub baggage_items: Seq<BaggageItem>,
}

/// A change made to an active span.
pub enum SpanEvent {
    OperationName(Seq<char>),
    FinishTime(Timestamp),
    SetTag(Tag),
    SetBaggageItem(BaggageItem),
    AppendLog(Log),
}

impl<T> SpanModel<T> {
    /// Tag names are unique; baggage items are sorted by name, hence
    /// unique by name.
    pub open spec fn well_formed(self) -> bool {
        &&& unique_names(self.tags)
        &&& names_sorted(self.baggage_items)
    }

    /// The span after the event.
    pub open spec fn apply(self, e: SpanEvent) -> SpanModel<T> {
        match e {
            SpanEvent::OperationName(n) => SpanModel { operation_name: n, ..self },
            SpanEvent::FinishTime(t) => SpanModel { finish_time: Some(t), ..self },
            SpanEvent::SetTag(t) => SpanModel { tags: put_entry(self.tags, t), ..self },
            SpanEvent::SetBaggageItem(b) => SpanModel {
                baggage_items: put_sorted(self.baggage_items, b),
                ..self
            },
            SpanEvent::AppendLog(l) => SpanModel { logs: self.logs.push(l), ..self },
        }
    }

    /// The finished span: the finish time set, or else `now`.
    pub open spec fn finished(self, now: Timestamp) -> SpanModel<T> {
        SpanModel {
            finish_time: Some(
                match self.finish_time {
                    Some(t) => t,
                    None => now,
                },
            ),
            ..self
        }
    }
}

/// A span (active or disabled) after the event: a disabled span stays as it is.
pub open spec fn apply_event<T>(span: Option<SpanModel<T>>, e: SpanEvent) -> Option<SpanModel<T>> {
    match span {
        Some(m) => Some(m.apply(e)),
        None => None,
    }
}

/// A span after the events, in order.
pub open spec fn apply_events<T>(span: Option<SpanModel<T>>, es: Seq<SpanEvent>) -> Option<SpanModel<T>>
    decreases es.len(),
{
    if es.len() == 0 {
        span
    } else {
        apply_event(apply_events(span, es.drop_last()), es.last())
    }
}

/// What is delivered when a span is relinquished at time `now`.
pub open spec fn delivery<T>(span: Option<SpanModel<T>>, now: Timestamp) -> Option<SpanModel<T>> {
    match span {
        Some(m) => Some(m.finished(now)),
        None => None,
    }
}

#[derive(Debug)]
#[verifier::reject_recursive_types(T)]
struct SpanInner<T> {
    operation_name: String,
    start_time: Timestamp,
    finish_time: Option<Timestamp>,
    references: Vec<SpanReference<T>>,
    tags: Vec<Tag>,
    logs: Vec<Log>,
    context: SpanContext<T>,
    span_tx: Sender<FinishedSpan<T>>,
}

impl<T> SpanInner<T> {
    closed spec fn model(&self) -> SpanModel<T> {
        SpanModel {
            operation_name: self.operation_name@,
            start_time: self.start_time,
            finish_time: self.finish_time,
            references: self.references@,
            tags: self.tags@,
            logs: self.logs@,
            state: self.context.state,
            baggage_items: self.context.baggage_items@,
        }
    }
}

/// A span: active (traced) or disabled.
///
/// When an active span is dropped, it is converted to a `FinishedSpan`
/// once and sent to the tracer's `SpanReceiver`.
#[derive(Debug)]
#[verifier::reject_recursive_types(T)]
pub struct Span<T>(Option<SpanInner<T>>);

impl<T> View for Span<T> {
    type V = Option<SpanModel<T>>;

    closed spec fn view(&self) -> Option<SpanModel<T>> {
        match self.0 {
            Some(inner) => Some(inner.model()),
            None => None,
        }
    }
}

impl<T> Span<T> {
    /// An active span's tag names are unique and its baggage is sorted by name.
    #[verifier::type_invariant]
    spec fn inv(self) -> bool {
        match self.0 {
            Some(inner) => inner.model().well_formed(),
            None => true,
        }
    }

    /// Returns `true` if this span is sampled (i.e., being traced).
    pub fn is_sampled(&self) -> (r: bool)
        ensures
            r == (self@ is Some),
    {
        self.0.is_some()
    }

    /// Returns the context of this span; `None` for a disabled span.
    pub fn context(&self) -> (r: Option<&SpanContext<T>>)
        ensures
            r is Some <==> self@ is Some,
            r matches Some(c) ==> c.state_view() == self@->0.state && c.baggage_view() == self@->0.baggage_items,
            self@ matches Some(m) ==> m.well_formed(),
    {
        proof {
            use_type_invariant(self);
        }
        match &self.0 {
            Some(inner) => Some(&inner.context),
            None => None,
        }
    }

    /// Sets the operation name of this span.
    pub fn set_operation_name<F>(&mut self, f: F)
        where
            F: FnOnce() -> String,
        requires
            f.requires(()),
        ensures
            old(self)@ is None ==> final(self)@ is None,
            old(self)@ is Some ==> exists|n: String|
                f.ensures((), n) && final(self)@ == apply_event(old(self)@, SpanEvent::OperationName(n@)),
            final(self)@ matches Some(m) ==> m.well_formed(),
    {
        proof {
            use_type_invariant(&*self);
        }
        let mut cur: Option<SpanInner<T>> = None;
        std::mem::swap(&mut self.0, &mut cur);
        if let Some(mut inner) = cur {
            let n = f();
            inner.operation_name = n;
            self.0 = Some(inner);
            assert(self@ == apply_event(old(self)@, SpanEvent::OperationName(n@)));
        }
    }

    /// Sets the finish time of this span.
    pub fn set_finish_time<F>(&mut self, f: F)
        where
            F: FnOnce() -> Timestamp,
        requires
            f.requires(()),
        ensures
            old(self)@ is None ==> final(self)@ is None,
            old(self)@ is Some ==> exists|t: Timestamp|
                f.ensures((), t) && final(self)@ == apply_event(old(self)@, SpanEvent::FinishTime(t)),
            final(self)@ matches Some(m) ==> m.well_formed(),
    {
        proof {
            use_type_invariant(&*self);
        }
        let mut cur: Option<SpanInner<T>> = None;
        std::mem::swap(&mut self.0, &mut cur);
        if let Some(mut inner) = cur {
            let t = f();
            inner.finish_time = Some(t);
            self.0 = Some(inner);
            assert(self@ == apply_event(old(self)@, SpanEvent::FinishTime(t)));
        }
    }

    /// Sets the tag: any tag of the same name is replaced.
    pub fn set_tag<F>(&mut self, f: F)
        where
            F: FnOnce() -> Tag,
        requires
            f.requires(()),
        ensures
            old(self)@ is None ==> final(self)@ is None,
            old(self)@ is Some ==> exists|t: Tag|
                f.ensures((), t) && final(self)@ == apply_event(old(self)@, SpanEvent::SetTag(t)),
            final(self)@ matches Some(m) ==> m.well_formed(),
    {
        proof {
            use_type_invariant(&*self);
        }
        let mut cur: Option<SpanInner<T>> = None;
        std::mem::swap(&mut self.0, &mut cur);
        if let Some(mut inner) = cur {
            let tag = f();
            let ghost t = tag;
            proof {
                lemma_put_unique(inner.tags@, t);
            }
            put_named(&mut inner.tags, tag);
            self.0 = Some(inner);
            assert(self@ == apply_event(old(self)@, SpanEvent::SetTag(t)));
        }
    }

    /// Sets the baggage item: it replaces the item of the same name, or else
    /// goes where its name sorts, so the baggage stays sorted by name.
    pub fn set_baggage_item<F>(&mut self, f: F)
        where
            F: FnOnce() -> BaggageItem,
        requires
            f.requires(()),
        ensures
            old(self)@ is None ==> final(self)@ is None,
            final(self)@ matches Some(m) ==> m.well_formed(),
            old(self)@ is Some ==> exists|b: BaggageItem|
                f.ensures((), b) && final(self)@ == apply_event(old(self)@, SpanEvent::SetBaggageItem(b)) && {
                    let before = old(self)@->0.baggage_items;
                    let after = final(self)@->0.baggage_items;
                    {
                        &&& names_sorted(after)
                        &&& after.contains(b)
                        &&& forall|x: BaggageItem| #[trigger] before.contains(x) && x.name_view() != b.name_view() ==> after.contains(x)
                        &&& forall|i: int| 0 <= i < after.len() ==> {
                            ||| #[trigger] after[i] == b
                            ||| (before.contains(after[i]) && after[i].name_view() != b.name_view())
                        }
                    }
                },
    {
        proof {
            use_type_invariant(&*self);
        }
        let mut cur: Option<SpanInner<T>> = None;
        std::mem::swap(&mut self.0, &mut cur);
        if let Some(mut inner) = cur {
            let item = f();
            let ghost b = item;
            proof {
                lemma_put_sorted(inner.context.baggage_items@, b);
            }
            put_sorted_named(&mut inner.context.baggage_items, item);
            self.0 = Some(inner);
            assert(self@ == apply_event(old(self)@, SpanEvent::SetBaggageItem(b)));
        }
    }

    /// Gets the baggage item that has the name `name`.
    pub fn get_baggage_item(&self, name: &str) -> (r: Option<&BaggageItem>)
        ensures
            self@ is None ==> r is None,
            self@ matches Some(m) ==> match r {
                Some(b) => exists|i: int| is_first_named(m.baggage_items, name@, i) && *b == m.baggage_items[i],
                None => !has_name(m.baggage_items, name@),
            },
    {
        match &self.0 {
            Some(inner) => {
                assert(self@->0.baggage_items == inner.context.baggage_items@);
                find_named(&inner.context.baggage_items, name)
            },
            None => None,
        }
    }

    /// Logs structured data: `f` fills an empty builder, whose fields
    /// make one record (see `LogBuilder::finish`); a record with no field is
    /// not kept.
    pub fn log<F>(&mut self, f: F)
        where
            F: FnOnce(LogBuilder) -> LogBuilder,
        requires
            forall|b: LogBuilder| #[trigger] f.requires((b,)),
        ensures
            old(self)@ is None ==> final(self)@ is None,
            old(self)@ is Some ==> exists|b0: LogBuilder, b1: LogBuilder| {
                &&& b0.fields_view().len() == 0
                &&& b0.time_view() is None
                &&& f.ensures((b0,), b1)
                &&& b1.fields_view().len() == 0 ==> final(self)@ == old(self)@
                &&& b1.fields_view().len() > 0 ==> exists|l: Log| {
                    &&& is_normalization(b1.fields_view(), l.fields_view())
                    &&& (b1.time_view() matches Some(t) ==> l.time_view() == t)
                    &&& final(self)@ == apply_event(old(self)@, SpanEvent::AppendLog(l))
                }
            },
            final(self)@ matches Some(m) ==> m.well_formed(),
    {
        proof {
            use_type_invariant(&*self);
        }
        let mut cur: Option<SpanInner<T>> = None;
        std::mem::swap(&mut self.0, &mut cur);
        if let Some(mut inner) = cur {
            let builder = f(LogBuilder::new());
            if let Some(log) = builder.finish() {
                let ghost l = log;
                inner.logs.push(log);
                self.0 = Some(inner);
                assert(self@ == apply_event(old(self)@, SpanEvent::AppendLog(l)));
            } else {
                self.0 = Some(inner);
            }
        }
    }

    /// Takes what is to be delivered, leaving the span disabled.
    fn take_finished(&mut self) -> (r: Option<(FinishedSpan<T>, Sender<FinishedSpan<T>>)>)
        ensures
            final(self)@ is None,
            r is None <==> old(self)@ is None,
            r matches Some(p) ==> exists|t: Timestamp| Some(p.0@) == delivery(old(self)@, t),
        opens_invariants none
        no_unwind
    {
        let ghost taken_before = self@;
        let mut taken: Option<SpanInner<T>> = None;
        std::mem::swap(&mut self.0, &mut taken);
        match taken {
            Some(inner) => {
                let finish_time = match inner.finish_time {
                    Some(t) => t,
                    None => now(),
                };
                let finished = FinishedSpan {
                    operation_name: inner.operation_name,
                    start_time: inner.start_time,
                    finish_time,
                    references: inner.references,
                    tags: inner.tags,
                    logs: inner.logs,
                    context: inner.context,
                };
                assert(Some(finished@) == delivery(taken_before, finish_time));
                Some((finished, inner.span_tx))
            },
            None => None,
        }
    }
}

impl<T> Drop for Span<T> {
    /// Finalizes the span: an active span's finished snapshot is sent to
    /// the tracer's receiver once, and the span is left disabled, so nothing
    /// is sent twice.
    fn drop(&mut self)
        ensures
            final(self)@ is None,
        opens_invariants none
        no_unwind
    {
        if let Some((finished, span_tx)) = self.take_finished() {
            deliver(&span_tx, finished);
        }
    }
}

impl<T> MaybeAsRef<SpanContext<T>> for Span<T> {
    closed spec fn referred(&self) -> Option<SpanContext<T>> {
        match self.0 {
            Some(inner) => Some(inner.context),
            None => None,
        }
    }

    fn maybe_as_ref(&self) -> (r: Option<&SpanContext<T>>) {
        match &self.0 {
            Some(inner) => Some(&inner.context),
            None => None,
        }
    }
}

/// A finished span: the snapshot of an active span when it was relinquished.
#[derive(Debug)]
pub struct FinishedSpan<T> {
    operation_name: String,
    start_time: Timestamp,
    finish_time: Timestamp,
    references: Vec<SpanReference<T>>,
    tags: Vec<Tag>,
    logs: Vec<Log>,
    context: SpanContext<T>,
}

impl<T> View for FinishedSpan<T> {
    type V = SpanModel<T>;

    closed spec fn view(&self) -> SpanModel<T> {
        SpanModel {
            operation_name: self.operation_name@,
            start_time: self.start_time,
            finish_time: Some(self.finish_time),
            references: self.references@,
            tags: self.tags@,
            logs: self.logs@,
            state: self.context.state,
            baggage_items: self.context.baggage_items@,
        }
    }
}

impl<T> FinishedSpan<T> {
    /// Returns the operation name of this span.
    pub fn operation_name(&self) -> (r: &str)
        ensures
            r@ == self@.operation_name,
    {
        self.operation_name.as_str()
    }

    /// Returns the start time of this span.
    pub fn start_time(&self) -> (r: Timestamp)
        ensures
            r == self@.start_time,
    {
        self.start_time
    }

    /// Returns the finish time of this span.
    pub fn finish_time(&self) -> (r: Timestamp)
        ensures
            self@.finish_time == Some(r),
    {
        self.finish_time
    }

    /// Returns the logs recorded during this span.
    pub fn logs(&self) -> (r: &[Log])
        ensures
            r@ == self@.logs,
    {
        self.logs.as_slice()
    }

    /// Returns the tags of this span.
    pub fn tags(&self) -> (r: &[Tag])
        ensures
            r@ == self@.tags,
    {
        self.tags.as_slice()
    }

    /// Returns the references of this span.
    pub fn references(&self) -> (r: &[SpanReference<T>])
        ensures
            r@ == self@.references,
    {
        self.references.as_slice()
    }

    /// Returns the context of this span.
    pub fn context(&self) -> (r: &SpanContext<T>)
        ensures
            r.state_view() == self@.state,
            r.baggage_view() == self@.baggage_items,
    {
        &self.context
    }
}

/// The name of the tag that decides sampling by itself: an integer value
/// above zero traces the span, any other integer disables it.
pub open spec fn priority_name() -> Seq<char> {
    "sampling.priority"@
}

/// Whether a span with these finalized tags is traced, where `sampler_says`
/// is the sampler's decision: an integer `sampling.priority` tag overrides it.
pub open spec fn sampling_decision(tags: Seq<Tag>, sampler_says: bool) -> bool {
    if exists|i: int| is_first_named(tags, priority_name(), i) {
        let i = choose|i: int| is_first_named(tags, priority_name(), i);
        match tags[i].value_view() {
            TagValue::Integer(n) => n > 0,
            _ => sampler_says,
        }
    } else {
        sampler_says
    }
}

/// A span as it starts.
pub open spec fn started<T>(
    operation_name: Seq<char>,
    start_time: Timestamp,
    references: Seq<SpanReference<T>>,
    tags: Seq<Tag>,
    state: T,
    baggage_items: Seq<BaggageItem>,
) -> SpanModel<T> {
    SpanModel {
        operation_name,
        start_time,
        finish_time: None,
        references,
        tags,
        logs: Seq::empty(),
        state,
        baggage_items,
    }
}

/// Options for starting a span.
#[derive(Debug)]
#[verifier::reject_recursive_types(T)]
pub struct StartSpanOptions<'a, S, T> {
    tracer: &'a Tracer<S, T>,
    operation_name: String,
    start_time: Option<Timestamp>,
    tags: Vec<Tag>,
    references: Vec<SpanReference<T>>,
    baggage_items: Vec<BaggageItem>,
}

impl<'a, S, T> StartSpanOptions<'a, S, T> {
    pub closed spec fn operation_name_view(&self) -> Seq<char> {
        self.operation_name@
    }

    pub closed spec fn start_time_view(&self) -> Option<Timestamp> {
        self.start_time
    }

    pub closed spec fn tags_view(&self) -> Seq<Tag> {
        self.tags@
    }

    pub closed spec fn references_view(&self) -> Seq<SpanReference<T>> {
        self.references@
    }

    pub closed spec fn baggage_view(&self) -> Seq<BaggageItem> {
        self.baggage_items@
    }

    pub closed spec fn sampler_view(&self) -> S {
        self.tracer.sampler_view()
    }

    /// Options with this operation name and nothing else set.
    pub(crate) fn new(tracer: &'a Tracer<S, T>, operation_name: &str) -> (r: Self)
        ensures
            r.operation_name_view() == operation_name@,
            r.start_time_view() is None,
            r.tags_view() == Seq::<Tag>::empty(),
            r.references_view() == Seq::<SpanReference<T>>::empty(),
            r.baggage_view() == Seq::<BaggageItem>::empty(),
            r.sampler_view() == tracer.sampler_view(),
    {
        StartSpanOptions {
            tracer,
            operation_name: operation_name.to_owned(),
            start_time: None,
            tags: Vec::new(),
            references: Vec::new(),
            baggage_items: Vec::new(),
        }
    }

    /// Sets the start time of this span.
    pub fn start_time(self, time: Timestamp) -> (r: Self)
        ensures
            r.start_time_view() == Some(time),
            r.operation_name_view() == self.operation_name_view(),
            r.tags_view() == self.tags_view(),
            r.references_view() == self.references_view(),
            r.baggage_view() == self.baggage_view(),
            r.sampler_view() == self.sampler_view(),
    {
        let mut o = self;
        o.start_time = Some(time);
        o
    }

    /// Adds a tag; of several tags with one name, the last one added is kept.
    pub fn tag(self, tag: Tag) -> (r: Self)
        ensures
            r.tags_view() == self.tags_view().push(tag),
            r.start_time_view() == self.start_time_view(),
            r.operation_name_view() == self.operation_name_view(),
            r.references_view() == self.references_view(),
            r.baggage_view() == self.baggage_view(),
            r.sampler_view() == self.sampler_view(),
    {
        let mut o = self;
        o.tags.push(tag);
        o
    }

    /// Appends copies of the context's baggage items to the pending ones.
    fn extend_baggage(&mut self, context: &SpanContext<T>)
        ensures
            final(self).baggage_view() == old(self).baggage_view() + context.baggage_view(),
            final(self).tags_view() == old(self).tags_view(),
            final(self).start_time_view() == old(self).start_time_view(),
            final(self).operation_name_view() == old(self).operation_name_view(),
            final(self).references_view() == old(self).references_view(),
            final(self).sampler_view() == old(self).sampler_view(),
    {
        let items = context.baggage_items();
        let mut i: usize = 0;
        while i < items.len()
            invariant
                items@ == context.baggage_view(),
                i <= items@.len(),
                self.baggage_view() == old(self).baggage_view() + items@.take(i as int),
                self.tags_view() == old(self).tags_view(),
                self.start_time_view() == old(self).start_time_view(),
                self.operation_name_view() == old(self).operation_name_view(),
                self.references_view() == old(self).references_view(),
                self.sampler_view() == old(self).sampler_view(),
            decreases items@.len() - i,
        {
            self.baggage_items.push(items[i].copy());
            proof {
                assert(items@.take(i + 1) =~= items@.take(i as int).push(items@[i as int]));
            }
            i = i + 1;
        }
        proof {
            assert(items@.take(i as int) =~= items@);
        }
    }

    /// Adds a `ChildOf` reference to the context, if `context` has one, and
    /// its baggage items.
    pub fn child_of<C>(self, context: &C) -> (r: Self)
        where
            C: MaybeAsRef<SpanContext<T>>,
            T: Clone,
        ensures
            context.referred() is None ==> r == self,
            context.referred() matches Some(c) ==> {
                &&& r.references_view().len() == self.references_view().len() + 1
                &&& r.references_view().drop_last() == self.references_view()
                &&& r.references_view().last() is ChildOf
                &&& cloned(c.state_view(), r.references_view().last().state_view())
                &&& r.baggage_view() == self.baggage_view() + c.baggage_view()
                &&& r.tags_view() == self.tags_view()
                &&& r.start_time_view() == self.start_time_view()
                &&& r.operation_name_view() == self.operation_name_view()
                &&& r.sampler_view() == self.sampler_view()
            },
    {
        let mut o = self;
        match context.maybe_as_ref() {
            Some(c) => {
                let state = c.state().clone();
                o.references.push(SpanReference::ChildOf(state));
                proof {
                    assert(o.references_view().drop_last() =~= self.references_view());
                }
                o.extend_baggage(c);
                o
            },
            None => o,
        }
    }

    /// Adds a `FollowsFrom` reference to the context, if `context` has one,
    /// and its baggage items.
    pub fn follows_from<C>(self, context: &C) -> (r: Self)
        where
            C: MaybeAsRef<SpanContext<T>>,
            T: Clone,
        ensures
            context.referred() is None ==> r == self,
            context.referred() matches Some(c) ==> {
                &&& r.references_view().len() == self.references_view().len() + 1
                &&& r.references_view().drop_last() == self.references_view()
                &&& r.references_view().last() is FollowsFrom
                &&& cloned(c.state_view(), r.references_view().last().state_view())
                &&& r.baggage_view() == self.baggage_view() + c.baggage_view()
                &&& r.tags_view() == self.tags_view()
                &&& r.start_time_view() == self.start_time_view()
                &&& r.operation_name_view() == self.operation_name_view()
                &&& r.sampler_view() == self.sampler_view()
            },
    {
        let mut o = self;
        match context.maybe_as_ref() {
            Some(c) => {
                let state = c.state().clone();
                o.references.push(SpanReference::FollowsFrom(state));
                proof {
                    assert(o.references_view().drop_last() =~= self.references_view());
                }
                o.extend_baggage(c);
                o
            },
            None => o,
        }
    }

    /// Keeps one tag and one baggage item per name, the last one added, each
    /// sorted by name.
    fn normalize(&mut self)
        ensures
            is_normalization(old(self).tags_view(), final(self).tags_view()),
            is_normalization(old(self).baggage_view(), final(self).baggage_view()),
            final(self).start_time_view() == old(self).start_time_view(),
            final(self).operation_name_view() == old(self).operation_name_view(),
            final(self).references_view() == old(self).references_view(),
            final(self).sampler_view() == old(self).sampler_view(),
    {
        let mut tags: Vec<Tag> = Vec::new();
        std::mem::swap(&mut tags, &mut self.tags);
        self.tags = normalize(tags);
        let mut items: Vec<BaggageItem> = Vec::new();
        std::mem::swap(&mut items, &mut self.baggage_items);
        self.baggage_items = normalize(items);
    }

    /// The candidate that the sampler sees.
    fn span(&self) -> (r: CandidateSpan<'_, T>)
        ensures
            r.tags_view() == self.tags_view(),
            r.references_view() == self.references_view(),
            r.baggage_view() == self.baggage_view(),
    {
        CandidateSpan {
            tags: self.tags.as_slice(),
            references: self.references.as_slice(),
            baggage_items: self.baggage_items.as_slice(),
        }
    }

    /// The active span with these options and this state.
    fn into_span(self, state: T) -> (r: Span<T>)
        requires
            unique_names(self.tags_view()),
            names_sorted(self.baggage_view()),
        ensures
            r@ matches Some(m) && m == started(
                self.operation_name_view(),
                m.start_time,
                self.references_view(),
                self.tags_view(),
                state,
                self.baggage_view(),
            ),
            self.start_time_view() matches Some(t) ==> r@->0.start_time == t,
    {
        let start_time = match self.start_time {
            Some(t) => t,
            None => now(),
        };
        let inner = SpanInner {
            operation_name: self.operation_name,
            start_time,
            finish_time: None,
            references: self.references,
            tags: self.tags,
            logs: Vec::new(),
            context: SpanContext::new(state, self.baggage_items),
            span_tx: self.tracer.span_tx(),
        };
        let r = Span(Some(inner));
        assert(r@->0.logs =~= Seq::<Log>::empty());
        r
    }
}

impl<'a, S, T> StartSpanOptions<'a, S, T> where S: Sampler<T> {
    /// The sampling gate: an integer `sampling.priority` tag decides alone
    /// (traced when above zero); else the tracer's sampler decides.
    fn is_sampled(&self) -> (r: bool)
        ensures
            r == sampling_decision(
                self.tags_view(),
                self.sampler_view().decides(self.tags_view(), self.references_view(), self.baggage_view()),
            ),
    {
        let name = "sampling.priority";
        match find_named(&self.tags, name) {
            Some(t) => {
                proof {
                    let i = choose|i: int| is_first_named(self.tags@, name@, i) && *t == self.tags@[i];
                    let k = choose|k: int| is_first_named(self.tags@, priority_name(), k);
                    assert(k == i) by {
                        if k < i {
                            assert(self.tags@[k].name_view() != name@);
                        }
                        if i < k {
                            assert(self.tags@[i].name_view() != name@);
                        }
                    }
                }
                match t.value() {
                    TagValue::Integer(n) => *n > 0,
                    _ => self.tracer.sampler().is_sampled(&self.span()),
                }
            },
            None => self.tracer.sampler().is_sampled(&self.span()),
        }
    }

    /// Starts a span with the explicit tracer `state`: disabled unless the
    /// sampling gate lets it through.
    pub fn start_with_context(self, state: T) -> (r: Span<T>)
        ensures
            exists|tags: Seq<Tag>, baggage: Seq<BaggageItem>| {
                &&& is_normalization(self.tags_view(), tags)
                &&& is_normalization(self.baggage_view(), baggage)
                &&& (r@ is Some) == sampling_decision(
                    tags,
                    self.sampler_view().decides(tags, self.references_view(), baggage),
                )
                &&& r@ matches Some(m) ==> m == started(
                    self.operation_name_view(),
                    m.start_time,
                    self.references_view(),
                    tags,
                    state,
                    baggage,
                )
            },
            r@ matches Some(m) ==> (self.start_time_view() matches Some(t) ==> m.start_time == t),
            r@ matches Some(m) ==> m.well_formed(),
    {
        let mut o = self;
        o.normalize();
        proof {
            lemma_sorted_unique(o.tags_view());
            lemma_sorted_unique(o.baggage_view());
        }
        if !o.is_sampled() {
            return Span(None);
        }
        o.into_span(state)
    }

    /// Starts a span whose tracer state is made from the candidate span:
    /// disabled unless the sampling gate lets it through.
    pub fn start(self) -> (r: Span<T>)
        where
            T: for<'b> From<CandidateSpan<'b, T>>,
        ensures
            exists|tags: Seq<Tag>, baggage: Seq<BaggageItem>| {
                &&& is_normalization(self.tags_view(), tags)
                &&& is_normalization(self.baggage_view(), baggage)
                &&& (r@ is Some) == sampling_decision(
                    tags,
                    self.sampler_view().decides(tags, self.references_view(), baggage),
                )
                &&& r@ matches Some(m) ==> m == started(
                    self.operation_name_view(),
                    m.start_time,
                    self.references_view(),
                    tags,
                    m.state,
                    baggage,
                )
            },
            r@ matches Some(m) ==> (self.start_time_view() matches Some(t) ==> m.start_time == t),
            r@ matches Some(m) ==> m.well_formed(),
    {
        let mut o = self;
        o.normalize();
        proof {
            lemma_sorted_unique(o.tags_view());
            lemma_sorted_unique(o.baggage_view());
        }
        if !o.is_sampled() {
            return Span(None);
        }
        let state = T::from(o.span());
        o.into_span(state)
    }
}

/// An integer `sampling.priority` tag decides sampling whatever the sampler
/// says: the last such tag given to the builder, of value `n`, traces the
/// span exactly when `n > 0` (so `0` disables it and `5` traces it).
pub proof fn lemma_priority_overrides_sampler(given: Seq<Tag>, tags: Seq<Tag>, j: int, n: i64, sampler_says: bool)
    requires
        is_normalization(given, tags),
        is_last_of_name(given, j),
        given[j].name_view() == priority_name(),
        given[j].value_view() == TagValue::Integer(n),
    ensures
        sampling_decision(tags, sampler_says) == (n > 0),
{
    lemma_covers_at(given, 0, tags, j);
    let a = choose|a: int| #![trigger tags[a]] 0 <= a < tags.len() && tags[a].name_view() == given[j].name_view();
    lemma_drawn_at(given, 0, tags, a);
    let j2 = choose|j2: int| #![trigger given[j2]] 0 <= j2 && is_last_of_name(given, j2) && tags[a] == given[j2];
    assert(j2 == j) by {
        if j2 < j {
            assert(given[j].name_view() != given[j2].name_view());
        }
        if j < j2 {
            assert(given[j2].name_view() != given[j].name_view());
        }
    }
    lemma_sorted_unique(tags);
    assert(is_first_named(tags, priority_name(), a));
    let i = choose|i: int| is_first_named(tags, priority_name(), i);
    assert(i == a) by {
        if i < a {
            assert(tags[i].name_view() != tags[a].name_view());
        }
        if a < i {
            assert(tags[a].name_view() != priority_name());
        }
    }
}

/// A disabled span stays disabled whatever is done to it, and relinquishing
/// it delivers nothing.
pub proof fn lemma_disabled_span_delivers_nothing<T>(events: Seq<SpanEvent>, now: Timestamp)
    ensures
        apply_events::<T>(None, events) is None,
        delivery::<T>(apply_events(None, events), now) is None,
    decreases events.len(),
{
    if events.len() > 0 {
        lemma_disabled_span_delivers_nothing::<T>(events.drop_last(), now);
    }
}

/// Setting tags and baggage items on a well-formed span keeps it well-formed.
pub proof fn lemma_events_keep_well_formed<T>(m: SpanModel<T>, e: SpanEvent)
    requires
        m.well_formed(),
    ensures
        m.apply(e).well_formed(),
{
    match e {
        SpanEvent::SetTag(t) => lemma_put_unique(m.tags, t),
        SpanEvent::SetBaggageItem(b) => lemma_put_sorted(m.baggage_items, b),
        _ => {},
    }
}

/// Setting tags named `a`, `b`, `a` on an active span (`a` and `b`
/// distinct) leaves exactly one tag named `a`, the third, and exactly one
/// named `b`, the second.
pub proof fn lemma_set_tag_last_wins<T>(m: SpanModel<T>, t1: Tag, t2: Tag, t3: Tag)
    requires
        t1.name_view() == t3.name_view(),
        t1.name_view() != t2.name_view(),
    ensures
        ({
            let tags = m.apply(SpanEvent::SetTag(t1)).apply(SpanEvent::SetTag(t2)).apply(SpanEvent::SetTag(t3)).tags;
            &&& tags.contains(t3)
            &&& tags.contains(t2)
            &&& forall|i: int| 0 <= i < tags.len() && #[trigger] tags[i].name_view() == t3.name_view() ==> tags[i] == t3
            &&& forall|i: int| 0 <= i < tags.len() && #[trigger] tags[i].name_view() == t2.name_view() ==> tags[i] == t2
        }),
{
    lemma_put_aba(m.tags, t1, t2, t3);
}

/// The events of setting each baggage item in turn.
pub open spec fn baggage_events(items: Seq<BaggageItem>) -> Seq<SpanEvent> {
    items.map_values(|b: BaggageItem| SpanEvent::SetBaggageItem(b))
}

/// After any sequence of baggage items set on an active, well-formed span,
/// baggage is sorted by name, names are unique and, for each name set, the
/// span holds the last item set with it.
pub proof fn lemma_set_baggage_items_last_wins<T>(m: SpanModel<T>, items: Seq<BaggageItem>)
    requires
        m.well_formed(),
    ensures
        apply_events(Some(m), baggage_events(items)) matches Some(r) && {
            &&& r.baggage_items == put_all_sorted(m.baggage_items, items)
            &&& names_sorted(r.baggage_items)
            &&& unique_names(r.baggage_items)
            &&& forall|j: int| is_last_of_name(items, j) ==> r.baggage_items.contains(#[trigger] items[j])
        },
    decreases items.len(),
{
    if items.len() > 0 {
        lemma_set_baggage_items_last_wins(m, items.drop_last());
        assert(baggage_events(items).drop_last() =~= baggage_events(items.drop_last()));
    } else {
        assert(baggage_events(items) =~= Seq::<SpanEvent>::empty());
    }
    lemma_put_all_last_wins(m.baggage_items, items);
}

} // verus!
