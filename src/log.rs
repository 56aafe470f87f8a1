//! Structured log records appended to a span.
use vstd::prelude::*;
use crate::names::{Named, is_normalization, normalize};
use crate::time::{Timestamp, now};

verus! {

/// A named field of a log record.
#[derive(Clone, Debug)]
pub struct LogField {
    name: String,
    value: String,
}

impl LogField {
    /// Makes a new field.
    pub fn new(name: &str, value: &str) -> (r: LogField)
        ensures
            r.name_view() == name@,
            r.value_view() == value@,
    {
        LogField { name: name.to_owned(), value: value.to_owned() }
    }

    pub closed spec fn value_view(&self) -> Seq<char> {
        self.value@
    }

    /// Returns the name of this field.
    pub fn name(&self) -> (r: &str)
        ensures
            r@ == self.name_view(),
    {
        self.name.as_str()
    }

    /// Returns the value of this field.
    pub fn value(&self) -> (r: &str)
        ensures
            r@ == self.value_view(),
    {
        self.value.as_str()
    }
}

impl Named for LogField {
    closed spec fn name_view(&self) -> Seq<char> {
        self.name@
    }

    fn name_str(&self) -> (r: &str) {
        self.name.as_str()
    }
}

/// A log record: fields with unique names, sorted by name, and a time.
#[derive(Clone, Debug)]
pub struct Log {
    fields: Vec<LogField>,
    time: Timestamp,
}

impl Log {
    pub closed spec fn fields_view(&self) -> Seq<LogField> {
        self.fields@
    }

    pub closed spec fn time_view(&self) -> Timestamp {
        self.time
    }

    /// Returns the fields of this record.
    pub fn fields(&self) -> (r: &[LogField])
        ensures
            r@ == self.fields_view(),
    {
        self.fields.as_slice()
    }

    /// Returns the time of this record.
    pub fn time(&self) -> (r: Timestamp)
        ensures
            r == self.time_view(),
    {
        self.time
    }
}

/// Collects the fields of a log record.
#[derive(Debug)]
pub struct LogBuilder {
    fields: Vec<LogField>,
    time: Option<Timestamp>,
}

impl LogBuilder {
    pub closed spec fn fields_view(&self) -> Seq<LogField> {
        self.fields@
    }

    pub closed spec fn time_view(&self) -> Option<Timestamp> {
        self.time
    }

    /// An empty builder with no time set.
    pub fn new() -> (r: LogBuilder)
        ensures
            r.fields_view() == Seq::<LogField>::empty(),
            r.time_view() == None::<Timestamp>,
    {
        LogBuilder { fields: Vec::new(), time: None }
    }

    /// Adds a field.
    pub fn field(&mut self, field: LogField)
        ensures
            final(self).fields_view() == old(self).fields_view().push(field),
            final(self).time_view() == old(self).time_view(),
    {
        self.fields.push(field);
    }

    /// Sets the time of the record.
    pub fn time(&mut self, time: Timestamp)
        ensures
            final(self).fields_view() == old(self).fields_view(),
            final(self).time_view() == Some(time),
    {
        self.time = Some(time);
    }

    /// The record, with one field per name (the last one added) sorted by
    /// name, stamped with the time set or else with the time now; `None`
    /// when no field was added.
    pub fn finish(self) -> (r: Option<Log>)
        ensures
            r is None <==> self.fields_view().len() == 0,
            r matches Some(log) ==> {
                &&& is_normalization(self.fields_view(), log.fields_view())
                &&& (self.time_view() matches Some(t) ==> log.time_view() == t)
            },
    {
        if self.fields.len() == 0 {
            None
        } else {
            let time = match self.time {
                Some(t) => t,
                None => now(),
            };
            Some(Log { fields: normalize(self.fields), time })
        }
    }
}

} // verus!
