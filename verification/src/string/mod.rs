//! Source text and spans of it.

use std::sync::Arc;
use vstd::prelude::*;

pub mod parser;

verus! {

/// A span `start..end`, counted in characters, of a shared source text.
#[derive(Debug, Clone, PartialEq, Eq)]
pub struct StringSlice {
    pub src: Arc<str>,
    pub start: usize,
    pub end: usize,
}

impl StringSlice {
    /// The span lies inside its source text.
    pub open spec fn wf(&self) -> bool {
        self.start <= self.end <= self.src@.len()
    }

    /// The span is a span of the text `src`, and lies inside it.
    pub open spec fn within(&self, src: Arc<str>) -> bool {
        self.wf() && self.src == src
    }

    /// The characters that the span covers.
    pub open spec fn text(&self) -> Seq<char> {
        self.src@.subrange(self.start as int, self.end as int)
    }

    /// The smallest span that covers both `self` and `other`, over the source of `self`.
    pub open spec fn spec_merge(&self, other: &StringSlice) -> StringSlice {
        StringSlice {
            src: self.src,
            start: if self.start <= other.start { self.start } else { other.start },
            end: if self.end >= other.end { self.end } else { other.end },
        }
    }

    /// A span of `src` from `start` to `end`.
    pub fn new(src: Arc<str>, start: usize, end: usize) -> (r: StringSlice)
        ensures
            r == (StringSlice { src, start, end }),
    {
        StringSlice { src, start, end }
    }

    /// A copy of this span that shares the source text.
    pub fn duplicate(&self) -> (r: StringSlice)
        ensures
            r == *self,
    {
        StringSlice { src: self.src.clone(), start: self.start, end: self.end }
    }

    /// The number of characters in the span.
    pub fn len(&self) -> (n: usize)
        requires
            self.start <= self.end,
        ensures
            n == self.end - self.start,
    {
        self.end - self.start
    }

    /// The covered characters as an owned string.
    pub fn value(&self) -> (r: String)
        requires
            self.wf(),
        ensures
            r@ == self.text(),
    {
        self.src.substring_char(self.start, self.end).to_owned()
    }

    /// Joins two spans into the smallest span that covers both.
    pub fn merge(&self, other: &StringSlice) -> (r: StringSlice)
        ensures
            r == self.spec_merge(other),
            self.wf() && other.wf() && other.src@ == self.src@ ==> r.wf(),
            forall|src: Arc<str>| self.within(src) && other.within(src) ==> r.within(src),
    {
        let start: usize = if self.start <= other.start { self.start } else { other.start };
        let end: usize = if self.end >= other.end { self.end } else { other.end };
        StringSlice { src: self.src.clone(), start, end }
    }
}

/// The string value that holds exactly the characters `text`.
pub uninterp spec fn string_of(text: Seq<char>) -> String;

/// Calls `String::from` on a string slice. The result holds the characters
/// of `text`, and as a value it depends on those characters alone.
#[verifier::external_body]
pub(crate) fn owned(text: &str) -> (r: String)
    ensures
        r@ == text@,
        r == string_of(text@),
{
    String::from(text)
}

} // verus!
