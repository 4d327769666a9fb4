//! Typed commands: shapes that a message's command and arguments may have.
use vstd::prelude::*;
use crate::message::ArgumentIter;
use crate::parser::same_text;

verus! {

/// A shape of command that can be recognised from a command token and its
/// arguments. Recognition never fails loudly: a command of another shape
/// gives `None`.
pub trait Command<'a>: Sized {
    /// The command token that the shape answers to.
    spec fn name() -> Seq<char>;

    /// Whether a command with these arguments has the shape.
    spec fn accepts(command: Seq<char>, args: Seq<Seq<char>>) -> bool;

    /// Whether the fields of `self` are those of the arguments `args`.
    spec fn holds(self, args: Seq<Seq<char>>) -> bool;

    /// The command as this shape, if it has it.
    fn try_match(command: &'a str, args: ArgumentIter<'a>) -> (r: Option<Self>)
        ensures
            r is Some <==> Self::accepts(command@, args@),
            r matches Some(v) ==> v.holds(args@),
            command@ != Self::name() ==> r is None,
    ;
}

/// The only argument left in `args`, if exactly one is.
fn only_one<'a>(args: ArgumentIter<'a>) -> (r: Option<&'a str>)
    ensures
        r is Some <==> args@.len() == 1,
        r matches Some(x) ==> x@ == args@[0],
{
    let mut it = args;
    match it.next() {
        Some(x) => match it.next() {
            Some(_) => None,
            None => Some(x),
        },
        None => None,
    }
}

/// The only two arguments left in `args`, if exactly two are.
fn only_two<'a>(args: ArgumentIter<'a>) -> (r: Option<(&'a str, &'a str)>)
    ensures
        r is Some <==> args@.len() == 2,
        r matches Some(x) ==> x.0@ == args@[0] && x.1@ == args@[1],
{
    let mut it = args;
    match it.next() {
        Some(x) => match only_one(it) {
            Some(y) => Some((x, y)),
            None => None,
        },
        None => None,
    }
}

/// `PING <server>`: a keep-alive probe.
pub struct Ping<'a> {
    pub server: &'a str,
}

impl<'a> Command<'a> for Ping<'a> {
    open spec fn name() -> Seq<char> {
        "PING"@
    }

    open spec fn accepts(command: Seq<char>, args: Seq<Seq<char>>) -> bool {
        command == Self::name() && args.len() == 1
    }

    open spec fn holds(self, args: Seq<Seq<char>>) -> bool {
        self.server@ == args[0]
    }

    fn try_match(command: &'a str, args: ArgumentIter<'a>) -> (r: Option<Self>) {
        if !same_text(command, "PING") {
            return None;
        }
        match only_one(args) {
            Some(server) => Some(Ping { server }),
            None => None,
        }
    }
}

/// `PRIVMSG <target> <message>`: a message to a user or channel.
pub struct Privmsg<'a> {
    pub target: &'a str,
    pub message: &'a str,
}

impl<'a> Command<'a> for Privmsg<'a> {
    open spec fn name() -> Seq<char> {
        "PRIVMSG"@
    }

    open spec fn accepts(command: Seq<char>, args: Seq<Seq<char>>) -> bool {
        command == Self::name() && args.len() == 2
    }

    open spec fn holds(self, args: Seq<Seq<char>>) -> bool {
        self.target@ == args[0] && self.message@ == args[1]
    }

    fn try_match(command: &'a str, args: ArgumentIter<'a>) -> (r: Option<Self>) {
        if !same_text(command, "PRIVMSG") {
            return None;
        }
        match only_two(args) {
            Some((target, message)) => Some(Privmsg { target, message }),
            None => None,
        }
    }
}

/// `001 <target> <message>`: the server's welcome reply.
pub struct Welcome<'a> {
    pub target: &'a str,
    pub message: &'a str,
}

impl<'a> Command<'a> for Welcome<'a> {
    open spec fn name() -> Seq<char> {
        "001"@
    }

    open spec fn accepts(command: Seq<char>, args: Seq<Seq<char>>) -> bool {
        command == Self::name() && args.len() == 2
    }

    open spec fn holds(self, args: Seq<Seq<char>>) -> bool {
        self.target@ == args[0] && self.message@ == args[1]
    }

    fn try_match(command: &'a str, args: ArgumentIter<'a>) -> (r: Option<Self>) {
        if !same_text(command, "001") {
            return None;
        }
        match only_two(args) {
            Some((target, message)) => Some(Welcome { target, message }),
            None => None,
        }
    }
}

} // verus!
