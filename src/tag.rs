//! Typed tags: shapes that a tag of a message may have.
use vstd::prelude::*;
use crate::message::{opt_chars, TagIter};
use crate::parser::same_text;

verus! {

/// The value of the first tag keyed `key` among `tags`: `None` when no tag
/// has that key, `Some(None)` when the first such tag has no `=`.
pub open spec fn lookup(tags: Seq<(Seq<char>, Option<Seq<char>>)>, key: Seq<char>) -> Option<
    Option<Seq<char>>,
>
    decreases tags.len(),
{
    if tags.len() == 0 {
        None
    } else if tags[0].0 == key {
        Some(tags[0].1)
    } else {
        lookup(tags.drop_first(), key)
    }
}

/// A shape of tag that can be recognised among a message's tags.
/// Recognition never fails loudly: a message without such a tag gives `None`.
pub trait Tag<'a>: Sized {
    /// The key of the tag that the shape answers to.
    spec fn key() -> Seq<char>;

    /// Whether the tags hold one of this shape.
    spec fn accepts(tags: Seq<(Seq<char>, Option<Seq<char>>)>) -> bool;

    /// Whether the fields of `self` are those of that tag among `tags`.
    spec fn holds(self, tags: Seq<(Seq<char>, Option<Seq<char>>)>) -> bool;

    /// The tag of this shape among `tags`, if there is one.
    fn try_match(tags: TagIter<'a>) -> (r: Option<Self>)
        ensures
            r is Some <==> Self::accepts(tags@),
            r matches Some(v) ==> v.holds(tags@),
            lookup(tags@, Self::key()) is None ==> r is None,
    ;
}

/// The value of the first tag keyed `key` among those left in `tags`.
pub fn find_tag<'a>(tags: TagIter<'a>, key: &str) -> (r: Option<Option<&'a str>>)
    ensures
        match r {
            Some(v) => lookup(tags@, key@) == Some(opt_chars(v)),
            None => lookup(tags@, key@) is None,
        },
{
    let mut it = tags;
    loop
        invariant
            lookup(it@, key@) == lookup(tags@, key@),
        decreases it@.len(),
    {
        match it.next() {
            Some((k, v)) => {
                if same_text(k, key) {
                    return Some(v);
                }
            },
            None => {
                return None;
            },
        }
    }
}

/// `time`: when the server handled the message.
pub struct Time<'a> {
    pub timestamp: &'a str,
}

impl<'a> Tag<'a> for Time<'a> {
    open spec fn key() -> Seq<char> {
        "time"@
    }

    open spec fn accepts(tags: Seq<(Seq<char>, Option<Seq<char>>)>) -> bool {
        lookup(tags, Self::key()) matches Some(Some(_))
    }

    open spec fn holds(self, tags: Seq<(Seq<char>, Option<Seq<char>>)>) -> bool {
        lookup(tags, Self::key()) == Some(Some(self.timestamp@))
    }

    fn try_match(tags: TagIter<'a>) -> (r: Option<Self>) {
        match find_tag(tags, "time") {
            Some(Some(timestamp)) => Some(Time { timestamp }),
            _ => None,
        }
    }
}

/// `color`: the colour the sender's name is shown in.
pub struct Color<'a> {
    pub color: &'a str,
}

impl<'a> Tag<'a> for Color<'a> {
    open spec fn key() -> Seq<char> {
        "color"@
    }

    open spec fn accepts(tags: Seq<(Seq<char>, Option<Seq<char>>)>) -> bool {
        lookup(tags, Self::key()) matches Some(Some(_))
    }

    open spec fn holds(self, tags: Seq<(Seq<char>, Option<Seq<char>>)>) -> bool {
        lookup(tags, Self::key()) == Some(Some(self.color@))
    }

    fn try_match(tags: TagIter<'a>) -> (r: Option<Self>) {
        match find_tag(tags, "color") {
            Some(Some(color)) => Some(Color { color }),
            _ => None,
        }
    }
}

} // verus!
