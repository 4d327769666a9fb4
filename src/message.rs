//! A parsed line: its text and the spans of its sections.
use vstd::prelude::*;
use crate::command::Command;
use crate::error::ParseError;
use crate::tag::{lookup, Tag};
use crate::grammar::{args_of, command_of, parse_error, prefix_of, tags_of};
use crate::parser::{chars_of, parse_parts, Parts};
use crate::span::{PrefixSpan, Span, TagSpan};

verus! {

/// The text of an optional span of `s`.
pub open spec fn opt_text(sp: Option<Span>, s: Seq<char>) -> Option<Seq<char>> {
    match sp {
        Some(sp) => Some(sp.of(s)),
        None => None,
    }
}

/// The characters of an optional string.
pub open spec fn opt_chars(o: Option<&str>) -> Option<Seq<char>> {
    match o {
        Some(x) => Some(x@),
        None => None,
    }
}

/// The texts of the arguments of the line `s`, in order; empty when it has none.
pub open spec fn arg_texts(s: Seq<char>) -> Seq<Seq<char>> {
    match args_of(s) {
        Some(a) => a.map_values(|sp: Span| sp.of(s)),
        None => seq![],
    }
}

/// The key and value texts of a tag of `s`.
pub open spec fn tag_text(s: Seq<char>, t: TagSpan) -> (Seq<char>, Option<Seq<char>>) {
    (t.key.of(s), opt_text(t.value, s))
}

/// The key and value texts of the tags of the line `s`, in order; empty when
/// it has none.
pub open spec fn tag_texts(s: Seq<char>) -> Seq<(Seq<char>, Option<Seq<char>>)> {
    match tags_of(s) {
        Some(t) => t.map_values(|t: TagSpan| tag_text(s, t)),
        None => seq![],
    }
}

/// A protocol line split into its sections: optional tags, an optional
/// prefix, a command, and optional arguments. The sections are kept as spans
/// of the line's own text, which the message owns and never changes.
#[derive(Debug)]
pub struct Message {
    message: String,
    tags: Option<Vec<TagSpan>>,
    prefix: Option<PrefixSpan>,
    command: Span,
    arguments: Option<Vec<Span>>,
}

impl View for Message {
    type V = Seq<char>;

    /// The text of the line.
    closed spec fn view(&self) -> Seq<char> {
        self.message@
    }
}

impl Message {
    /// The spans are those that the grammar gives the text.
    #[verifier::type_invariant]
    closed spec fn inv(self) -> bool {
        (Parts {
            tags: self.tags,
            prefix: self.prefix,
            command: self.command,
            arguments: self.arguments,
        }).of_line(self.message@)
    }

    /// Parses a line, without its line terminator, into a message.
    pub fn try_from(value: String) -> (r: Result<Message, ParseError>)
        ensures
            r is Ok <==> parse_error(value@) is None,
            r matches Ok(m) ==> m@ == value@,
            r matches Err(e) ==> parse_error(value@) == Some(e),
    {
        let chars = chars_of(value.as_str());
        match parse_parts(&chars) {
            Ok(p) => Ok(
                Message {
                    message: value,
                    tags: p.tags,
                    prefix: p.prefix,
                    command: p.command,
                    arguments: p.arguments,
                },
            ),
            Err(e) => Err(e),
        }
    }

    /// The command as the shape `T`, if it has that shape; `None` for a
    /// command of any other shape.
    pub fn command<'a, T: Command<'a>>(&'a self) -> (r: Option<T>)
        ensures
            r is Some <==> T::accepts(command_of(self@).of(self@), arg_texts(self@)),
            r matches Some(v) ==> v.holds(arg_texts(self@)),
            command_of(self@).of(self@) != T::name() ==> r is None,
    {
        T::try_match(self.raw_command(), self.raw_args())
    }

    /// The tag of the shape `T`, if the message has one; `None` otherwise.
    pub fn tag<'a, T: Tag<'a>>(&'a self) -> (r: Option<T>)
        ensures
            r is Some <==> T::accepts(tag_texts(self@)),
            r matches Some(v) ==> v.holds(tag_texts(self@)),
            lookup(tag_texts(self@), T::key()) is None ==> r is None,
    {
        T::try_match(self.raw_tags())
    }

    /// The prefix's name, user and host, if the message has a prefix.
    pub fn prefix(&self) -> (r: Option<(&str, Option<&str>, Option<&str>)>)
        ensures
            r is Some <==> prefix_of(self@) is Some,
            r matches Some(t) ==> {
                let p = prefix_of(self@)->0;
                &&& t.0@ == p.name.of(self@)
                &&& opt_chars(t.1) == opt_text(p.user, self@)
                &&& opt_chars(t.2) == opt_text(p.host, self@)
            },
    {
        proof {
            use_type_invariant(self);
        }
        match self.prefix {
            Some(p) => {
                let s = self.message.as_str();
                let user = match p.user {
                    Some(u) => Some(s.substring_char(u.start, u.end)),
                    None => None,
                };
                let host = match p.host {
                    Some(h) => Some(s.substring_char(h.start, h.end)),
                    None => None,
                };
                Some((s.substring_char(p.name.start, p.name.end), user, host))
            },
            None => None,
        }
    }

    /// The whole prefix, without its leading `:`, if the message has one.
    pub fn raw_prefix(&self) -> (r: Option<&str>)
        ensures
            r is Some <==> prefix_of(self@) is Some,
            r matches Some(x) ==> x@ == prefix_of(self@)->0.raw.of(self@),
    {
        proof {
            use_type_invariant(self);
        }
        match self.prefix {
            Some(p) => Some(self.message.as_str().substring_char(p.raw.start, p.raw.end)),
            None => None,
        }
    }

    /// The command token.
    pub fn raw_command(&self) -> (r: &str)
        ensures
            r@ == command_of(self@).of(self@),
            r@.len() > 0,
    {
        proof {
            use_type_invariant(self);
        }
        self.message.as_str().substring_char(self.command.start, self.command.end)
    }

    /// The whole line the message was parsed from.
    pub fn raw_message(&self) -> (r: &str)
        ensures
            r@ == self@,
    {
        self.message.as_str()
    }

    /// The arguments, in order; none when the message has no arguments.
    pub fn raw_args(&self) -> (r: ArgumentIter<'_>)
        ensures
            r@ == arg_texts(self@),
    {
        proof {
            use_type_invariant(self);
        }
        let r = ArgumentIter { text: self.message.as_str(), spans: self.arguments.as_ref(), next: 0 };
        proof {
            if let Some(a) = &self.arguments {
                assert(a@.subrange(0, a@.len() as int) =~= a@);
            }
        }
        r
    }

    /// The tags as keys and optional values, in order; none when the message
    /// has no tag section.
    pub fn raw_tags(&self) -> (r: TagIter<'_>)
        ensures
            r@ == tag_texts(self@),
    {
        proof {
            use_type_invariant(self);
        }
        let r = TagIter { text: self.message.as_str(), spans: self.tags.as_ref(), next: 0 };
        proof {
            if let Some(t) = &self.tags {
                assert(t@.subrange(0, t@.len() as int) =~= t@);
            }
        }
        r
    }
}

/// A copy of `v`.
fn copy_all<T: Copy>(v: &Vec<T>) -> (r: Vec<T>)
    ensures
        r@ == v@,
{
    let mut r: Vec<T> = Vec::new();
    let mut i: usize = 0;
    while i < v.len()
        invariant
            i <= v@.len(),
            r@ == v@.subrange(0, i as int),
        decreases v@.len() - i,
    {
        r.push(v[i]);
        i = i + 1;
        assert(r@ =~= v@.subrange(0, i as int));
    }
    assert(r@ =~= v@);
    r
}

impl Clone for Message {
    fn clone(&self) -> (r: Message)
        ensures
            r@ == self@,
    {
        proof {
            use_type_invariant(self);
        }
        let tags = match &self.tags {
            Some(v) => Some(copy_all(v)),
            None => None,
        };
        let arguments = match &self.arguments {
            Some(v) => Some(copy_all(v)),
            None => None,
        };
        Message {
            message: self.message.clone(),
            tags,
            prefix: self.prefix,
            command: self.command,
            arguments,
        }
    }
}

impl PartialEq for Message {
    /// Two messages are equal when their lines are: the sections follow from
    /// the line.
    fn eq(&self, other: &Message) -> (r: bool) {
        self.message == other.message
    }
}

impl Eq for Message {

}

impl vstd::std_specs::cmp::PartialEqSpecImpl for Message {
    open spec fn obeys_eq_spec() -> bool {
        true
    }

    open spec fn eq_spec(&self, other: &Message) -> bool {
        self@ == other@
    }
}

/// Argument iterators, and tag iterators, taken from one message yield the
/// same items: taking one changes nothing that the next one sees.
pub proof fn lemma_iteration_repeats(
    m: &Message,
    a: ArgumentIter,
    b: ArgumentIter,
    s: TagIter,
    t: TagIter,
)
    requires
        a@ == arg_texts(m@),
        b@ == arg_texts(m@),
        s@ == tag_texts(m@),
        t@ == tag_texts(m@),
    ensures
        a@ == b@,
        s@ == t@,
{
}

/// The arguments of a message, one at a time, in order.
pub struct ArgumentIter<'a> {
    text: &'a str,
    spans: Option<&'a Vec<Span>>,
    next: usize,
}

impl<'a> View for ArgumentIter<'a> {
    type V = Seq<Seq<char>>;

    /// The texts of the arguments still to come.
    closed spec fn view(&self) -> Seq<Seq<char>> {
        match self.spans {
            Some(v) => v@.subrange(self.next as int, v@.len() as int).map_values(
                |sp: Span| sp.of(self.text@),
            ),
            None => seq![],
        }
    }
}

impl<'a> ArgumentIter<'a> {
    #[verifier::type_invariant]
    closed spec fn inv(self) -> bool {
        match self.spans {
            Some(v) => self.next <= v@.len() && forall|k: int|
                0 <= k < v@.len() ==> (#[trigger] v@[k]).within(self.text@.len() as int),
            None => self.next == 0,
        }
    }

    /// The next argument, if any is left.
    pub fn next(&mut self) -> (r: Option<&'a str>)
        ensures
            old(self)@.len() > 0 ==> (r matches Some(x) && x@ == old(self)@[0] && final(self)@
                == old(self)@.drop_first()),
            old(self)@.len() == 0 ==> r is None && final(self)@ == old(self)@,
    {
        proof {
            use_type_invariant(&*self);
        }
        match self.spans {
            Some(v) => {
                if self.next < v.len() {
                    let sp = v[self.next];
                    let x = self.text.substring_char(sp.start, sp.end);
                    let ghost before = self@;
                    self.next = self.next + 1;
                    assert(self@ =~= before.drop_first());
                    Some(x)
                } else {
                    None
                }
            },
            None => None,
        }
    }
}

/// The tags of a message, one key and optional value at a time, in order.
pub struct TagIter<'a> {
    text: &'a str,
    spans: Option<&'a Vec<TagSpan>>,
    next: usize,
}

impl<'a> View for TagIter<'a> {
    type V = Seq<(Seq<char>, Option<Seq<char>>)>;

    /// The keys and value texts of the tags still to come.
    closed spec fn view(&self) -> Seq<(Seq<char>, Option<Seq<char>>)> {
        match self.spans {
            Some(v) => v@.subrange(self.next as int, v@.len() as int).map_values(
                |t: TagSpan| tag_text(self.text@, t),
            ),
            None => seq![],
        }
    }
}

impl<'a> TagIter<'a> {
    #[verifier::type_invariant]
    closed spec fn inv(self) -> bool {
        match self.spans {
            Some(v) => self.next <= v@.len() && forall|k: int|
                0 <= k < v@.len() ==> (#[trigger] v@[k]).within(self.text@.len() as int),
            None => self.next == 0,
        }
    }

    /// The next tag's key and value, if any is left.
    pub fn next(&mut self) -> (r: Option<(&'a str, Option<&'a str>)>)
        ensures
            old(self)@.len() > 0 ==> (r matches Some(x) && x.0@ == old(self)@[0].0 && opt_chars(x.1)
                == old(self)@[0].1 && final(self)@ == old(self)@.drop_first()),
            old(self)@.len() == 0 ==> r is None && final(self)@ == old(self)@,
    {
        proof {
            use_type_invariant(&*self);
        }
        match self.spans {
            Some(v) => {
                if self.next < v.len() {
                    let t = v[self.next];
                    let key = self.text.substring_char(t.key.start, t.key.end);
                    let value = match t.value {
                        Some(sp) => Some(self.text.substring_char(sp.start, sp.end)),
                        None => None,
                    };
                    let ghost before = self@;
                    self.next = self.next + 1;
                    assert(self@ =~= before.drop_first());
                    Some((key, value))
                } else {
                    None
                }
            },
            None => None,
        }
    }
}

} // verus!
