use std::cmp::Ordering;
use std::collections::HashMap;
use std::sync::mpsc::TryRecvError;
use vstd::map::Map;
use vstd::seq::Seq;

use rustracing::carrier::{
    BinaryFormat, HttpHeaderFormat, TextMapFormat, ExtractFromBinary, ExtractFromHttpHeader, ExtractFromTextMap, GetHttpHeaderField,
    InjectToBinary, InjectToHttpHeader, InjectToTextMap, SetHttpHeaderField, TextMap,
};
use rustracing::error::ErrorKind;
use rustracing::log::{LogBuilder, LogField};
use rustracing::names::{compare_names, normalize};
use rustracing::sampler::{AllSampler, NullSampler};
use rustracing::span::{BaggageItem, CandidateSpan, SpanContext, SpanReference};
use rustracing::tag::{Tag, TagValue};
use rustracing::time::Timestamp;
use rustracing::tracer::Tracer;

#[derive(Clone, Debug, PartialEq)]
struct Ids {
    trace: u64,
    span: u64,
}

impl<'a> From<CandidateSpan<'a, Ids>> for Ids {
    fn from(c: CandidateSpan<'a, Ids>) -> Ids {
        let trace = match c.references().first() {
            Some(r) => r.state().trace,
            None => 100,
        };
        Ids { trace, span: 7 }
    }
}

#[derive(Default)]
struct MapCarrier(HashMap<String, String>);

impl TextMap for MapCarrier {
    fn entries(&self) -> Map<Seq<char>, Seq<char>> {
        unreachable!()
    }
    fn set(&mut self, key: &str, value: &str) {
        self.0.insert(key.to_owned(), value.to_owned());
    }
    fn get(&self, key: &str) -> Option<&str> {
        self.0.get(key).map(|v| v.as_str())
    }
}

impl SetHttpHeaderField for MapCarrier {
    fn set_fields(&self) -> Map<Seq<char>, Seq<char>> {
        unreachable!()
    }
    fn set_http_header_field(&mut self, name: &str, value: &str) -> Result<(), ErrorKind> {
        self.0.insert(name.to_owned(), value.to_owned());
        Ok(())
    }
}

impl GetHttpHeaderField for MapCarrier {
    fn get_fields(&self) -> Map<Seq<char>, Seq<char>> {
        unreachable!()
    }
    fn get_http_header_field(&self, name: &str) -> Result<Option<&str>, ErrorKind> {
        Ok(self.0.get(name).map(|v| v.as_str()))
    }
}

// The format traits' spec functions and lemmas are ghost: they state what a
// verified state type proves of its encoding and are never run. This test
// state is not verified, so those items have no executable meaning here.
impl TextMapFormat for Ids {
    fn text_encodes(_: Map<Seq<char>, Seq<char>>, _: SpanContext<Ids>) -> bool {
        unreachable!()
    }
    fn text_carries_trace(_: Map<Seq<char>, Seq<char>>) -> bool {
        unreachable!()
    }
    fn lemma_text_encoding(_: Map<Seq<char>, Seq<char>>, _: SpanContext<Ids>, _: SpanContext<Ids>) {}
}
impl HttpHeaderFormat for Ids {
    fn header_encodes(_: Map<Seq<char>, Seq<char>>, _: SpanContext<Ids>) -> bool {
        unreachable!()
    }
    fn header_carries_trace(_: Map<Seq<char>, Seq<char>>) -> bool {
        unreachable!()
    }
    fn lemma_header_encoding(_: Map<Seq<char>, Seq<char>>, _: SpanContext<Ids>, _: SpanContext<Ids>) {}
}
impl BinaryFormat for Ids {
    fn binary_encodes(_: Seq<u8>, _: SpanContext<Ids>) -> bool {
        unreachable!()
    }
    fn binary_carries_trace(_: Seq<u8>) -> bool {
        unreachable!()
    }
    fn lemma_binary_encoding(_: Seq<u8>, _: SpanContext<Ids>, _: SpanContext<Ids>) {}
}

const STATE_KEY: &str = "trace-state";
const BAGGAGE_PREFIX: &str = "baggage-";

fn parse_state(s: &str) -> Result<Ids, ErrorKind> {
    let mut parts = s.split(':');
    let t = parts.next().and_then(|x| x.parse().ok());
    let p = parts.next().and_then(|x| x.parse().ok());
    match (t, p, parts.next()) {
        (Some(trace), Some(span), None) => Ok(Ids { trace, span }),
        _ => Err(ErrorKind::InvalidInput),
    }
}

impl InjectToTextMap<MapCarrier> for Ids {
    fn inject_to_text_map(context: &SpanContext<Ids>, carrier: &mut MapCarrier) -> Result<(), ErrorKind> {
        let s = context.state();
        carrier.set(STATE_KEY, &format!("{}:{}", s.trace, s.span));
        for b in context.baggage_items() {
            carrier.set(&format!("{}{}", BAGGAGE_PREFIX, b.name()), b.value());
        }
        Ok(())
    }
}

impl ExtractFromTextMap<MapCarrier> for Ids {
    fn extract_from_text_map(carrier: &MapCarrier) -> Result<Option<SpanContext<Ids>>, ErrorKind> {
        let state = match carrier.get(STATE_KEY) {
            None => return Ok(None),
            Some(s) => parse_state(s)?,
        };
        let mut items: Vec<BaggageItem> = carrier
            .0
            .iter()
            .filter_map(|(k, v)| k.strip_prefix(BAGGAGE_PREFIX).map(|n| BaggageItem::new(n, v)))
            .collect();
        items.sort_by(|a, b| a.name().cmp(b.name()));
        Ok(Some(SpanContext::new(state, items)))
    }
}

impl InjectToHttpHeader<MapCarrier> for Ids {
    fn inject_to_http_header(context: &SpanContext<Ids>, carrier: &mut MapCarrier) -> Result<(), ErrorKind> {
        let s = context.state();
        carrier.set_http_header_field(STATE_KEY, &format!("{}:{}", s.trace, s.span))
    }
}

impl ExtractFromHttpHeader<MapCarrier> for Ids {
    fn extract_from_http_header(carrier: &MapCarrier) -> Result<Option<SpanContext<Ids>>, ErrorKind> {
        match carrier.get_http_header_field(STATE_KEY)? {
            None => Ok(None),
            Some(s) => Ok(Some(SpanContext::new(parse_state(s)?, Vec::new()))),
        }
    }
}

impl InjectToBinary for Ids {
    fn inject_to_binary(context: &SpanContext<Ids>, carrier: &mut Vec<u8>) -> Result<(), ErrorKind> {
        carrier.extend_from_slice(&context.state().trace.to_be_bytes());
        carrier.extend_from_slice(&context.state().span.to_be_bytes());
        Ok(())
    }
}

impl ExtractFromBinary for Ids {
    fn extract_from_binary(carrier: &[u8]) -> Result<Option<SpanContext<Ids>>, ErrorKind> {
        if carrier.is_empty() {
            return Ok(None);
        }
        if carrier.len() != 16 {
            return Err(ErrorKind::InvalidInput);
        }
        let mut t = [0u8; 8];
        let mut s = [0u8; 8];
        t.copy_from_slice(&carrier[..8]);
        s.copy_from_slice(&carrier[8..]);
        let ids = Ids { trace: u64::from_be_bytes(t), span: u64::from_be_bytes(s) };
        Ok(Some(SpanContext::new(ids, Vec::new())))
    }
}

fn str_tag(name: &str, value: &str) -> Tag {
    Tag::new(name, TagValue::String(value.to_owned()))
}

fn names_and_values(items: &[BaggageItem]) -> Vec<(String, String)> {
    items.iter().map(|b| (b.name().to_owned(), b.value().to_owned())).collect()
}

#[test]
fn set_tag_aba_keeps_last_value_per_name() {
    let (tracer, rx) = Tracer::<AllSampler, Ids>::new(AllSampler);
    {
        let mut span = tracer.span("op").start();
        span.set_tag(|| str_tag("a", "v1"));
        span.set_tag(|| str_tag("b", "v2"));
        span.set_tag(|| str_tag("a", "v3"));
    }
    let finished = rx.try_recv().unwrap();
    let tags = finished.tags();
    assert_eq!(tags.len(), 2);
    let a: Vec<&Tag> = tags.iter().filter(|t| t.name() == "a").collect();
    let b: Vec<&Tag> = tags.iter().filter(|t| t.name() == "b").collect();
    assert_eq!(a.len(), 1);
    assert_eq!(a[0].value(), &TagValue::String("v3".to_owned()));
    assert_eq!(b.len(), 1);
    assert_eq!(b[0].value(), &TagValue::String("v2".to_owned()));
}

#[test]
fn set_baggage_item_keeps_unique_names_and_last_values() {
    let (tracer, _rx) = Tracer::<AllSampler, Ids>::new(AllSampler);
    let mut span = tracer.span("op").start();
    span.set_baggage_item(|| BaggageItem::new("x", "1"));
    span.set_baggage_item(|| BaggageItem::new("y", "2"));
    span.set_baggage_item(|| BaggageItem::new("x", "3"));
    span.set_baggage_item(|| BaggageItem::new("z", "4"));
    span.set_baggage_item(|| BaggageItem::new("y", "5"));
    let mut got = names_and_values(span.context().unwrap().baggage_items());
    got.sort();
    assert_eq!(
        got,
        vec![
            ("x".to_owned(), "3".to_owned()),
            ("y".to_owned(), "5".to_owned()),
            ("z".to_owned(), "4".to_owned())
        ]
    );
    assert_eq!(span.get_baggage_item("y").unwrap().value(), "5");
    assert!(span.get_baggage_item("w").is_none());
}

#[test]
fn text_map_round_trip_keeps_state_and_baggage() {
    let context = SpanContext::new(
        Ids { trace: 11, span: 22 },
        vec![BaggageItem::new("team", "core"), BaggageItem::new("user", "42")],
    );
    let mut carrier = MapCarrier::default();
    context.inject_to_text_map(&mut carrier).unwrap();
    let back = SpanContext::<Ids>::extract_from_text_map(&carrier).unwrap().unwrap();
    assert_eq!(back.state(), context.state());
    assert_eq!(names_and_values(back.baggage_items()), names_and_values(context.baggage_items()));
}

#[test]
fn http_header_round_trip_keeps_state() {
    let context = SpanContext::new(Ids { trace: 3, span: 4 }, Vec::new());
    let mut carrier = MapCarrier::default();
    context.inject_to_http_header(&mut carrier).unwrap();
    let back = SpanContext::<Ids>::extract_from_http_header(&carrier).unwrap().unwrap();
    assert_eq!(back.state(), &Ids { trace: 3, span: 4 });
}

#[test]
fn extract_without_trace_keys_is_absent() {
    let mut carrier = MapCarrier::default();
    carrier.set("content-type", "text/plain");
    assert!(SpanContext::<Ids>::extract_from_text_map(&carrier).unwrap().is_none());
    assert!(SpanContext::<Ids>::extract_from_http_header(&carrier).unwrap().is_none());
    assert!(SpanContext::<Ids>::extract_from_binary(&[]).unwrap().is_none());
}

#[test]
fn extract_from_malformed_carriers_is_error() {
    let mut carrier = MapCarrier::default();
    carrier.set(STATE_KEY, "not-a-state");
    assert_eq!(
        SpanContext::<Ids>::extract_from_text_map(&carrier).err(),
        Some(ErrorKind::InvalidInput)
    );
    let context = SpanContext::new(Ids { trace: 5, span: 6 }, Vec::new());
    let mut bytes = Vec::new();
    context.inject_to_binary(&mut bytes).unwrap();
    let back = SpanContext::<Ids>::extract_from_binary(&bytes).unwrap().unwrap();
    assert_eq!(back.state(), &Ids { trace: 5, span: 6 });
    bytes.truncate(11);
    assert_eq!(
        SpanContext::<Ids>::extract_from_binary(&bytes).err(),
        Some(ErrorKind::InvalidInput)
    );
}

#[test]
fn priority_zero_disables_even_when_sampler_traces() {
    let (tracer, rx) = Tracer::<AllSampler, Ids>::new(AllSampler);
    let span = tracer.span("op").tag(Tag::new("sampling.priority", TagValue::Integer(0))).start();
    assert!(!span.is_sampled());
    assert!(span.context().is_none());
    drop(span);
    assert_eq!(rx.try_recv().err(), Some(TryRecvError::Empty));
}

#[test]
fn priority_five_traces_even_when_sampler_refuses() {
    let (tracer, rx) = Tracer::<NullSampler, Ids>::new(NullSampler);
    let span = tracer.span("op").tag(Tag::new("sampling.priority", TagValue::Integer(5))).start();
    assert!(span.is_sampled());
    drop(span);
    assert!(rx.try_recv().is_ok());
}

#[test]
fn last_priority_tag_given_decides() {
    let (tracer, _rx) = Tracer::<NullSampler, Ids>::new(NullSampler);
    let span = tracer
        .span("op")
        .tag(Tag::new("sampling.priority", TagValue::Integer(0)))
        .tag(Tag::new("sampling.priority", TagValue::Integer(1)))
        .start();
    assert!(span.is_sampled());
}

#[test]
fn non_integer_priority_leaves_decision_to_sampler() {
    let (tracer, _rx) = Tracer::<NullSampler, Ids>::new(NullSampler);
    let span = tracer.span("op").tag(Tag::new("sampling.priority", TagValue::Boolean(true))).start();
    assert!(!span.is_sampled());
}

#[test]
fn start_with_context_honors_priority_zero() {
    let (tracer, rx) = Tracer::<AllSampler, Ids>::new(AllSampler);
    let span = tracer
        .span("op")
        .tag(Tag::new("sampling.priority", TagValue::Integer(-1)))
        .start_with_context(Ids { trace: 1, span: 2 });
    assert!(!span.is_sampled());
    drop(span);
    assert!(rx.try_recv().is_err());
}

#[test]
fn disabled_span_ignores_changes_and_delivers_nothing() {
    let (tracer, rx) = Tracer::<NullSampler, Ids>::new(NullSampler);
    {
        let mut span = tracer.span("op").start();
        span.set_tag(|| str_tag("a", "1"));
        span.set_baggage_item(|| BaggageItem::new("k", "v"));
        span.log(|mut b| {
            b.field(LogField::new("event", "x"));
            b
        });
        span.set_operation_name(|| "other".to_owned());
        span.set_finish_time(|| Timestamp::from_nanos(9));
        assert!(!span.is_sampled());
        assert!(span.get_baggage_item("k").is_none());
    }
    assert_eq!(rx.try_recv().err(), Some(TryRecvError::Empty));
}

#[test]
fn fetch_child_span_baggage_override_is_delivered() {
    let (tracer, rx) = Tracer::<AllSampler, Ids>::new(AllSampler);
    let parent = SpanContext::new(Ids { trace: 77, span: 1 }, vec![BaggageItem::new("user", "42")]);
    {
        let mut span = tracer
            .span("fetch")
            .tag(str_tag("http.method", "GET"))
            .child_of(&parent)
            .start();
        assert!(span.is_sampled());
        assert_eq!(
            names_and_values(span.context().unwrap().baggage_items()),
            vec![("user".to_owned(), "42".to_owned())]
        );
        span.set_baggage_item(|| BaggageItem::new("user", "7"));
    }
    let finished = rx.try_recv().unwrap();
    assert_eq!(finished.operation_name(), "fetch");
    assert_eq!(
        names_and_values(finished.context().baggage_items()),
        vec![("user".to_owned(), "7".to_owned())]
    );
    assert_eq!(finished.tags().len(), 1);
    assert_eq!(finished.tags()[0].name(), "http.method");
    assert_eq!(finished.references().len(), 1);
    assert!(finished.references()[0].is_child_of());
    assert_eq!(finished.references()[0].state(), &Ids { trace: 77, span: 1 });
    assert_eq!(finished.context().state(), &Ids { trace: 77, span: 7 });
    assert!(rx.try_recv().is_err());
}

#[test]
fn builder_tags_sorted_with_last_value_per_name() {
    let (tracer, rx) = Tracer::<AllSampler, Ids>::new(AllSampler);
    drop(
        tracer
            .span("op")
            .tag(str_tag("b", "1"))
            .tag(str_tag("a", "2"))
            .tag(str_tag("b", "3"))
            .tag(str_tag("c", "4"))
            .start(),
    );
    let finished = rx.try_recv().unwrap();
    let got: Vec<(String, TagValue)> =
        finished.tags().iter().map(|t| (t.name().to_owned(), t.value().clone())).collect();
    assert_eq!(
        got,
        vec![
            ("a".to_owned(), TagValue::String("2".to_owned())),
            ("b".to_owned(), TagValue::String("3".to_owned())),
            ("c".to_owned(), TagValue::String("4".to_owned())),
        ]
    );
}

#[test]
fn references_accumulate_baggage_last_applied_wins() {
    let (tracer, _rx) = Tracer::<AllSampler, Ids>::new(AllSampler);
    let first = SpanContext::new(Ids { trace: 1, span: 1 }, vec![BaggageItem::new("k", "old"), BaggageItem::new("p", "1")]);
    let second = SpanContext::new(Ids { trace: 1, span: 2 }, vec![BaggageItem::new("k", "new")]);
    let span = tracer.span("op").child_of(&first).follows_from(&second).start();
    assert_eq!(
        names_and_values(span.context().unwrap().baggage_items()),
        vec![("k".to_owned(), "new".to_owned()), ("p".to_owned(), "1".to_owned())]
    );
}

#[test]
fn reference_to_disabled_span_adds_nothing() {
    let (null_tracer, _rx0) = Tracer::<NullSampler, Ids>::new(NullSampler);
    let disabled = null_tracer.span("parent").start();
    let (tracer, rx) = Tracer::<AllSampler, Ids>::new(AllSampler);
    drop(tracer.span("op").child_of(&disabled).follows_from(&disabled).start());
    let finished = rx.try_recv().unwrap();
    assert!(finished.references().is_empty());
    assert!(finished.context().baggage_items().is_empty());
}

#[test]
fn child_of_active_span_inherits_its_context() {
    let (tracer, _rx) = Tracer::<AllSampler, Ids>::new(AllSampler);
    let mut parent = tracer.span("parent").start();
    parent.set_baggage_item(|| BaggageItem::new("tenant", "t1"));
    let child = tracer.span("child").follows_from(&parent).start();
    assert_eq!(
        names_and_values(child.context().unwrap().baggage_items()),
        vec![("tenant".to_owned(), "t1".to_owned())]
    );
}

#[test]
fn explicit_times_and_name_are_delivered() {
    let (tracer, rx) = Tracer::<AllSampler, Ids>::new(AllSampler);
    {
        let mut span = tracer
            .span("first")
            .start_time(Timestamp::from_nanos(1_000))
            .start_with_context(Ids { trace: 9, span: 8 });
        span.set_operation_name(|| "renamed".to_owned());
        span.set_finish_time(|| Timestamp::from_nanos(5_000));
    }
    let finished = rx.try_recv().unwrap();
    assert_eq!(finished.operation_name(), "renamed");
    assert_eq!(finished.start_time(), Timestamp::from_nanos(1_000));
    assert_eq!(finished.finish_time(), Timestamp::from_nanos(5_000));
    assert_eq!(finished.context().state(), &Ids { trace: 9, span: 8 });
}

#[test]
fn finish_time_defaults_to_now() {
    let (tracer, rx) = Tracer::<AllSampler, Ids>::new(AllSampler);
    drop(tracer.span("op").start_time(Timestamp::from_nanos(1)).start());
    let finished = rx.try_recv().unwrap();
    assert!(finished.finish_time().nanos > 1);
}

#[test]
fn delivery_without_receiver_is_swallowed() {
    let (tracer, rx) = Tracer::<AllSampler, Ids>::new(AllSampler);
    drop(rx);
    let mut span = tracer.span("op").start();
    span.set_tag(|| str_tag("a", "1"));
    drop(span);
}

#[test]
fn logs_keep_records_with_fields_only() {
    let (tracer, rx) = Tracer::<AllSampler, Ids>::new(AllSampler);
    {
        let mut span = tracer.span("op").start();
        span.log(|mut b| {
            b.field(LogField::new("event", "first"));
            b.field(LogField::new("event", "second"));
            b.field(LogField::new("a", "x"));
            b.time(Timestamp::from_nanos(42));
            b
        });
        span.log(|b| b);
    }
    let finished = rx.try_recv().unwrap();
    assert_eq!(finished.logs().len(), 1);
    let log = &finished.logs()[0];
    assert_eq!(log.time(), Timestamp::from_nanos(42));
    let fields: Vec<(&str, &str)> = log.fields().iter().map(|f| (f.name(), f.value())).collect();
    assert_eq!(fields, vec![("a", "x"), ("event", "second")]);
}

#[test]
fn log_builder_without_fields_makes_no_record() {
    assert!(LogBuilder::new().finish().is_none());
}

#[test]
fn reference_kinds() {
    let c = SpanReference::ChildOf(1u8);
    let f = SpanReference::FollowsFrom(2u8);
    assert!(c.is_child_of() && !c.is_follows_from());
    assert!(f.is_follows_from() && !f.is_child_of());
    assert_eq!(*f.state(), 2);
}

#[test]
fn baggage_item_accessors() {
    let b = BaggageItem::new("name", "value");
    assert_eq!(b.name(), "name");
    assert_eq!(b.value(), "value");
    let c = b.copy();
    assert_eq!(c.name(), "name");
    assert_eq!(c.value(), "value");
}

#[test]
fn names_compare_by_bytes() {
    assert_eq!(compare_names("a", "b"), Ordering::Less);
    assert_eq!(compare_names("ab", "a"), Ordering::Greater);
    assert_eq!(compare_names("same", "same"), Ordering::Equal);
    assert_eq!(compare_names("", "a"), Ordering::Less);
    assert_eq!(compare_names("Z", "a"), Ordering::Less);
    assert_eq!(compare_names("é", "z"), Ordering::Greater);
}

#[test]
fn normalize_empty_and_duplicates() {
    assert!(normalize::<BaggageItem>(Vec::new()).is_empty());
    let items = vec![
        BaggageItem::new("k", "1"),
        BaggageItem::new("k", "2"),
        BaggageItem::new("k", "3"),
    ];
    assert_eq!(names_and_values(&normalize(items)), vec![("k".to_owned(), "3".to_owned())]);
}

#[test]
fn candidate_span_shows_finalized_options() {
    let (tracer, rx) = Tracer::<AllSampler, Ids>::new(AllSampler);
    let parent = SpanContext::new(Ids { trace: 55, span: 1 }, Vec::new());
    drop(tracer.span("op").child_of(&parent).start());
    let finished = rx.try_recv().unwrap();
    assert_eq!(finished.context().state().trace, 55);
}

#[test]
fn context_and_reference_deref_to_state() {
    let context = SpanContext::new(Ids { trace: 12, span: 34 }, Vec::new());
    assert_eq!(context.trace, 12);
    assert_eq!(AsRef::<Ids>::as_ref(&context).span, 34);
    let r = SpanReference::FollowsFrom(Ids { trace: 1, span: 2 });
    assert_eq!(r.span, 2);
    assert_eq!(AsRef::<Ids>::as_ref(&r).trace, 1);
}

#[test]
fn float_tag_value_keeps_its_bits() {
    let t = Tag::new("ratio", TagValue::Float(0.25f64.to_bits()));
    match t.value() {
        TagValue::Float(bits) => assert_eq!(f64::from_bits(*bits), 0.25),
        _ => panic!("wrong variant"),
    }
    assert_eq!(t.name(), "ratio");
}

#[test]
fn set_baggage_item_keeps_baggage_sorted_by_name() {
    let (tracer, rx) = Tracer::<AllSampler, Ids>::new(AllSampler);
    {
        let mut span = tracer.span("op").start();
        span.set_baggage_item(|| BaggageItem::new("b", "1"));
        span.set_baggage_item(|| BaggageItem::new("a", "2"));
        span.set_baggage_item(|| BaggageItem::new("c", "3"));
        span.set_baggage_item(|| BaggageItem::new("b", "4"));
        assert_eq!(
            names_and_values(span.context().unwrap().baggage_items()),
            vec![
                ("a".to_owned(), "2".to_owned()),
                ("b".to_owned(), "4".to_owned()),
                ("c".to_owned(), "3".to_owned())
            ]
        );
    }
    let finished = rx.try_recv().unwrap();
    let names: Vec<&str> = finished.context().baggage_items().iter().map(|b| b.name()).collect();
    assert_eq!(names, vec!["a", "b", "c"]);
}
