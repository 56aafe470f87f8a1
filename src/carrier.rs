//! Carriers: what a span context is injected into and extracted from when
//! it crosses a process boundary (a text map, HTTP header fields, bytes).
//!
//! Which keys and bytes stand for a context is owned by the tracer's state
//! type: it names its format with spec functions (`TextMapFormat`,
//! `HttpHeaderFormat`, `BinaryFormat`) and implements the inject and
//! extract traits against them. Extraction tells three outcomes apart: a
//! context, `None` when the carrier holds no trace, and an error when it
//! holds trace data that encodes no context.
use vstd::prelude::*;
use crate::error::ErrorKind;
use crate::span::SpanContext;

verus! {

/// A string-keyed map that a context can be written into and read from.
pub trait TextMap {
    /// The entries of the map.
    spec fn entries(&self) -> Map<Seq<char>, Seq<char>>;

    /// Sets the value of `key`.
    fn set(&mut self, key: &str, value: &str)
        ensures
            final(self).entries() == old(self).entries().insert(key@, value@),
    ;

    /// The value of `key`, if any.
    fn get(&self, key: &str) -> (r: Option<&str>)
        ensures
            match r {
                Some(v) => self.entries().contains_key(key@) && self.entries()[key@] == v@,
                None => !self.entries().contains_key(key@),
            },
    ;
}

/// HTTP header fields that a context can be written into.
pub trait SetHttpHeaderField {
    /// The header fields.
    spec fn set_fields(&self) -> Map<Seq<char>, Seq<char>>;

    /// Sets the header field `name`; an error leaves the fields as they were.
    fn set_http_header_field(&mut self, name: &str, value: &str) -> (r: Result<(), ErrorKind>)
        ensures
            r is Ok ==> final(self).set_fields() == old(self).set_fields().insert(name@, value@),
            r is Err ==> final(self).set_fields() == old(self).set_fields(),
    ;
}

/// HTTP header fields that a context can be read from.
pub trait GetHttpHeaderField {
    /// The header fields.
    spec fn get_fields(&self) -> Map<Seq<char>, Seq<char>>;

    /// The value of the header field `name`, if any.
    fn get_http_header_field(&self, name: &str) -> (r: Result<Option<&str>, ErrorKind>)
        ensures
            r matches Ok(Some(v)) ==> self.get_fields().contains_key(name@) && self.get_fields()[name@] == v@,
            r matches Ok(None) ==> !self.get_fields().contains_key(name@),
    ;
}

/// How a tracer state writes contexts into text maps.
pub trait TextMapFormat: Sized {
    /// The entries hold an encoding of `context`.
    spec fn text_encodes(entries: Map<Seq<char>, Seq<char>>, context: SpanContext<Self>) -> bool;

    /// The entries hold trace data (a key of the format).
    spec fn text_carries_trace(entries: Map<Seq<char>, Seq<char>>) -> bool;

    /// Entries that encode a context carry trace data and encode no other
    /// context.
    proof fn lemma_text_encoding(entries: Map<Seq<char>, Seq<char>>, c1: SpanContext<Self>, c2: SpanContext<Self>)
        requires
            Self::text_encodes(entries, c1),
        ensures
            Self::text_carries_trace(entries),
            Self::text_encodes(entries, c2) ==> c1 == c2,
    ;
}

/// How a tracer state writes contexts into HTTP header fields.
pub trait HttpHeaderFormat: Sized {
    /// The fields hold an encoding of `context`.
    spec fn header_encodes(fields: Map<Seq<char>, Seq<char>>, context: SpanContext<Self>) -> bool;

    /// The fields hold trace data.
    spec fn header_carries_trace(fields: Map<Seq<char>, Seq<char>>) -> bool;

    /// Fields that encode a context carry trace data and encode no other
    /// context.
    proof fn lemma_header_encoding(fields: Map<Seq<char>, Seq<char>>, c1: SpanContext<Self>, c2: SpanContext<Self>)
        requires
            Self::header_encodes(fields, c1),
        ensures
            Self::header_carries_trace(fields),
            Self::header_encodes(fields, c2) ==> c1 == c2,
    ;
}

/// How a tracer state writes contexts as bytes.
pub trait BinaryFormat: Sized {
    /// The bytes are an encoding of `context`.
    spec fn binary_encodes(bytes: Seq<u8>, context: SpanContext<Self>) -> bool;

    /// The bytes hold trace data.
    spec fn binary_carries_trace(bytes: Seq<u8>) -> bool;

    /// Bytes that encode a context carry trace data and encode no other
    /// context.
    proof fn lemma_binary_encoding(bytes: Seq<u8>, c1: SpanContext<Self>, c2: SpanContext<Self>)
        requires
            Self::binary_encodes(bytes, c1),
        ensures
            Self::binary_carries_trace(bytes),
            Self::binary_encodes(bytes, c2) ==> c1 == c2,
    ;
}

/// What extracting from a text map with these entries may give: the context
/// they encode; `None` when they carry no trace; an error when they carry
/// trace data that encodes no context.
pub open spec fn text_outcome<T: TextMapFormat>(
    entries: Map<Seq<char>, Seq<char>>,
    r: Result<Option<SpanContext<T>>, ErrorKind>,
) -> bool {
    match r {
        Ok(Some(c)) => T::text_encodes(entries, c),
        Ok(None) => !T::text_carries_trace(entries),
        Err(_) => T::text_carries_trace(entries) && forall|c: SpanContext<T>| !T::text_encodes(entries, c),
    }
}

/// What extracting from header fields may give (as for text maps); a read
/// error of the carrier may also come out.
pub open spec fn header_outcome<T: HttpHeaderFormat>(
    fields: Map<Seq<char>, Seq<char>>,
    r: Result<Option<SpanContext<T>>, ErrorKind>,
) -> bool {
    match r {
        Ok(Some(c)) => T::header_encodes(fields, c),
        Ok(None) => !T::header_carries_trace(fields),
        Err(ErrorKind::InvalidInput) => T::header_carries_trace(fields) && forall|c: SpanContext<T>|
            !T::header_encodes(fields, c),
        Err(ErrorKind::Other) => true,
    }
}

/// What extracting from these bytes may give (as for text maps).
pub open spec fn binary_outcome<T: BinaryFormat>(
    bytes: Seq<u8>,
    r: Result<Option<SpanContext<T>>, ErrorKind>,
) -> bool {
    match r {
        Ok(Some(c)) => T::binary_encodes(bytes, c),
        Ok(None) => !T::binary_carries_trace(bytes),
        Err(_) => T::binary_carries_trace(bytes) && forall|c: SpanContext<T>| !T::binary_encodes(bytes, c),
    }
}

/// A tracer state that can be written into the text map `C`.
pub trait InjectToTextMap<C: TextMap>: TextMapFormat {
    /// On success the carrier's entries encode `context`.
    fn inject_to_text_map(context: &SpanContext<Self>, carrier: &mut C) -> (r: Result<(), ErrorKind>)
        ensures
            r is Ok ==> Self::text_encodes(final(carrier).entries(), *context),
    ;
}

/// A tracer state that can be read from the text map `C`.
pub trait ExtractFromTextMap<C: TextMap>: TextMapFormat {
    fn extract_from_text_map(carrier: &C) -> (r: Result<Option<SpanContext<Self>>, ErrorKind>)
        ensures
            text_outcome(carrier.entries(), r),
    ;
}

/// A tracer state that can be written into the header fields `C`.
pub trait InjectToHttpHeader<C: SetHttpHeaderField>: HttpHeaderFormat {
    /// On success the carrier's fields encode `context`.
    fn inject_to_http_header(context: &SpanContext<Self>, carrier: &mut C) -> (r: Result<(), ErrorKind>)
        ensures
            r is Ok ==> Self::header_encodes(final(carrier).set_fields(), *context),
    ;
}

/// A tracer state that can be read from the header fields `C`.
pub trait ExtractFromHttpHeader<C: GetHttpHeaderField>: HttpHeaderFormat {
    fn extract_from_http_header(carrier: &C) -> (r: Result<Option<SpanContext<Self>>, ErrorKind>)
        ensures
            header_outcome(carrier.get_fields(), r),
    ;
}

/// A tracer state that can be written as bytes, appended to `carrier`.
pub trait InjectToBinary: BinaryFormat {
    /// On success the bytes appended encode `context`; the bytes before are
    /// kept.
    fn inject_to_binary(context: &SpanContext<Self>, carrier: &mut Vec<u8>) -> (r: Result<(), ErrorKind>)
        ensures
            r is Ok ==> {
                &&& final(carrier)@.len() >= old(carrier)@.len()
                &&& final(carrier)@.take(old(carrier)@.len() as int) == old(carrier)@
                &&& Self::binary_encodes(final(carrier)@.skip(old(carrier)@.len() as int), *context)
            },
    ;
}

/// A tracer state that can be read from bytes.
pub trait ExtractFromBinary: BinaryFormat {
    fn extract_from_binary(carrier: &[u8]) -> (r: Result<Option<SpanContext<Self>>, ErrorKind>)
        ensures
            binary_outcome(carrier@, r),
    ;
}

impl<T> SpanContext<T> {
    /// Injects this context to the text map `carrier`; on success the
    /// carrier's entries encode it.
    pub fn inject_to_text_map<C>(&self, carrier: &mut C) -> (r: Result<(), ErrorKind>)
        where
            C: TextMap,
            T: InjectToTextMap<C>,
        ensures
            r is Ok ==> T::text_encodes(final(carrier).entries(), *self),
    {
        T::inject_to_text_map(self, carrier)
    }

    /// Injects this context to the HTTP header `carrier`; on success the
    /// carrier's fields encode it.
    pub fn inject_to_http_header<C>(&self, carrier: &mut C) -> (r: Result<(), ErrorKind>)
        where
            C: SetHttpHeaderField,
            T: InjectToHttpHeader<C>,
        ensures
            r is Ok ==> T::header_encodes(final(carrier).set_fields(), *self),
    {
        T::inject_to_http_header(self, carrier)
    }

    /// Injects this context to the binary `carrier`: on success its encoding
    /// is appended.
    pub fn inject_to_binary(&self, carrier: &mut Vec<u8>) -> (r: Result<(), ErrorKind>)
        where
            T: InjectToBinary,
        ensures
            r is Ok ==> {
                &&& final(carrier)@.len() >= old(carrier)@.len()
                &&& final(carrier)@.take(old(carrier)@.len() as int) == old(carrier)@
                &&& T::binary_encodes(final(carrier)@.skip(old(carrier)@.len() as int), *self)
            },
    {
        T::inject_to_binary(self, carrier)
    }

    /// Extracts a context from the text map `carrier`.
    pub fn extract_from_text_map<C>(carrier: &C) -> (r: Result<Option<SpanContext<T>>, ErrorKind>)
        where
            C: TextMap,
            T: ExtractFromTextMap<C>,
        ensures
            text_outcome(carrier.entries(), r),
    {
        T::extract_from_text_map(carrier)
    }

    /// Extracts a context from the HTTP header `carrier`.
    pub fn extract_from_http_header<C>(carrier: &C) -> (r: Result<Option<SpanContext<T>>, ErrorKind>)
        where
            C: GetHttpHeaderField,
            T: ExtractFromHttpHeader<C>,
        ensures
            header_outcome(carrier.get_fields(), r),
    {
        T::extract_from_http_header(carrier)
    }

    /// Extracts a context from the binary `carrier`.
    pub fn extract_from_binary(carrier: &[u8]) -> (r: Result<Option<SpanContext<T>>, ErrorKind>)
        where
            T: ExtractFromBinary,
        ensures
            binary_outcome(carrier@, r),
    {
        T::extract_from_binary(carrier)
    }
}

/// Round trip through a text map: extracting from entries that encode a
/// context (as injecting leaves them) gives that context back, neither
/// absent nor an error.
pub proof fn lemma_text_map_round_trip<T: TextMapFormat>(
    entries: Map<Seq<char>, Seq<char>>,
    context: SpanContext<T>,
    r: Result<Option<SpanContext<T>>, ErrorKind>,
)
    requires
        T::text_encodes(entries, context),
        text_outcome(entries, r),
    ensures
        r == Ok::<Option<SpanContext<T>>, ErrorKind>(Some(context)),
{
    match r {
        Ok(Some(c)) => T::lemma_text_encoding(entries, context, c),
        _ => T::lemma_text_encoding(entries, context, context),
    }
}

/// Round trip through header fields: extracting from fields that encode a
/// context gives that context back, or a read error of the carrier.
pub proof fn lemma_http_header_round_trip<T: HttpHeaderFormat>(
    fields: Map<Seq<char>, Seq<char>>,
    context: SpanContext<T>,
    r: Result<Option<SpanContext<T>>, ErrorKind>,
)
    requires
        T::header_encodes(fields, context),
        header_outcome(fields, r),
    ensures
        r == Ok::<Option<SpanContext<T>>, ErrorKind>(Some(context)) || r == Err::<Option<SpanContext<T>>, ErrorKind>(ErrorKind::Other),
{
    match r {
        Ok(Some(c)) => T::lemma_header_encoding(fields, context, c),
        _ => T::lemma_header_encoding(fields, context, context),
    }
}

/// Round trip through bytes: extracting from the bytes that injecting into
/// an empty buffer wrote gives the context back, neither absent nor an error.
pub proof fn lemma_binary_round_trip<T: BinaryFormat>(
    bytes: Seq<u8>,
    context: SpanContext<T>,
    r: Result<Option<SpanContext<T>>, ErrorKind>,
)
    requires
        T::binary_encodes(bytes.skip(0), context),
        binary_outcome(bytes, r),
    ensures
        r == Ok::<Option<SpanContext<T>>, ErrorKind>(Some(context)),
{
    assert(bytes.skip(0) =~= bytes);
    match r {
        Ok(Some(c)) => T::lemma_binary_encoding(bytes, context, c),
        _ => T::lemma_binary_encoding(bytes, context, context),
    }
}

/// Bytes that carry no trace data give "absent"; bytes that carry trace data
/// but encode no context (truncated or corrupt) give an error, never a
/// context.
pub proof fn lemma_binary_absent_or_error<T: BinaryFormat>(
    bytes: Seq<u8>,
    r: Result<Option<SpanContext<T>>, ErrorKind>,
)
    requires
        binary_outcome(bytes, r),
    ensures
        !T::binary_carries_trace(bytes) ==> r == Ok::<Option<SpanContext<T>>, ErrorKind>(None),
        (T::binary_carries_trace(bytes) && forall|c: SpanContext<T>| !T::binary_encodes(bytes, c)) ==> r is Err,
{
    match r {
        Ok(Some(c)) => T::lemma_binary_encoding(bytes, c, c),
        _ => {},
    }
}

/// Text-map entries that carry no trace data give "absent", and entries
/// that carry trace data but encode no context give an error.
pub proof fn lemma_text_map_absent_or_error<T: TextMapFormat>(
    entries: Map<Seq<char>, Seq<char>>,
    r: Result<Option<SpanContext<T>>, ErrorKind>,
)
    requires
        text_outcome(entries, r),
    ensures
        !T::text_carries_trace(entries) ==> r == Ok::<Option<SpanContext<T>>, ErrorKind>(None),
        (T::text_carries_trace(entries) && forall|c: SpanContext<T>| !T::text_encodes(entries, c)) ==> r is Err,
{
    match r {
        Ok(Some(c)) => T::lemma_text_encoding(entries, c, c),
        _ => {},
    }
}

} // verus!
