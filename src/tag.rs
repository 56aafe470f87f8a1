//! Tags: named values attached to a span.
use vstd::prelude::*;
use crate::names::Named;

verus! {

/// The value of a tag. A floating-point value is held as its IEEE 754 bit
/// pattern (`f64::to_bits`).
#[derive(Clone, Debug, PartialEq)]
pub enum TagValue {
    String(String),
    Boolean(bool),
    Integer(i64),
    Float(u64),
}

/// A named value attached to a span.
#[derive(Clone, Debug)]
pub struct Tag {
    name: String,
    value: TagValue,
}

impl Tag {
    /// Makes a new tag.
    pub fn new(name: &str, value: TagValue) -> (r: Tag)
        ensures
            r.name_view() == name@,
            r.value_view() == value,
    {
        Tag { name: name.to_owned(), value }
    }

    pub closed spec fn value_view(&self) -> TagValue {
        self.value
    }

    /// Returns the name of this tag.
    pub fn name(&self) -> (r: &str)
        ensures
            r@ == self.name_view(),
    {
        self.name.as_str()
    }

    /// Returns the value of this tag.
    pub fn value(&self) -> (r: &TagValue)
        ensures
            *r == self.value_view(),
    {
        &self.value
    }
}

impl Named for Tag {
    closed spec fn name_view(&self) -> Seq<char> {
        self.name@
    }

    fn name_str(&self) -> (r: &str) {
        self.name.as_str()
    }
}

} // verus!
