use vstd::prelude::*;

verus! {

/// A half-open range `start..end` of character positions in a message's text.
#[derive(Clone, Copy, PartialEq, Eq, Debug)]
pub struct Span {
    pub start: usize,
    pub end: usize,
}

impl Span {
    /// The span `start..end`.
    pub fn new(start: usize, end: usize) -> (r: Span)
        ensures
            r.start == start,
            r.end == end,
    {
        Span { start, end }
    }

    /// Whether the span lies inside a text of `len` characters.
    pub open spec fn within(self, len: int) -> bool {
        self.start <= self.end && self.end <= len
    }

    /// The characters of `s` that the span covers.
    pub open spec fn of(self, s: Seq<char>) -> Seq<char> {
        s.subrange(self.start as int, self.end as int)
    }
}

} // verus!

verus! {

/// A tag: the span of its key and, if it has an `=`, the span of its value.
#[derive(Clone, Copy, PartialEq, Eq, Debug)]
pub struct TagSpan {
    pub key: Span,
    pub value: Option<Span>,
}

/// A prefix: its whole span, the span of its name, and those of its user and
/// host where it has them.
#[derive(Clone, Copy, PartialEq, Eq, Debug)]
pub struct PrefixSpan {
    pub raw: Span,
    pub name: Span,
    pub user: Option<Span>,
    pub host: Option<Span>,
}

} // verus!

verus! {

impl TagSpan {
    /// Whether the tag's spans lie inside a text of `len` characters.
    pub open spec fn within(self, len: int) -> bool {
        &&& self.key.within(len)
        &&& self.value matches Some(v) ==> v.within(len)
    }
}

impl PrefixSpan {
    /// Whether the prefix's spans lie inside a text of `len` characters.
    pub open spec fn within(self, len: int) -> bool {
        &&& self.raw.within(len)
        &&& self.name.within(len)
        &&& self.user matches Some(u) ==> u.within(len)
        &&& self.host matches Some(h) ==> h.within(len)
    }
}

/// The contents of an optional vector.
pub open spec fn opt_seq<T>(v: Option<Vec<T>>) -> Option<Seq<T>> {
    match v {
        Some(v) => Some(v@),
        None => None,
    }
}

} // verus!
