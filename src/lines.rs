//! Messages for the lines a client sends, built by filling in fixed shapes.
use vstd::prelude::*;
use vstd::string::StringExecFns;
use crate::error::ParseError;
use crate::grammar::parse_error;
use crate::message::Message;

verus! {

/// Whether `r` is what parsing `line` gives.
pub open spec fn parses_to(r: Result<Message, ParseError>, line: Seq<char>) -> bool {
    match r {
        Ok(m) => parse_error(line) is None && m@ == line,
        Err(e) => parse_error(line) == Some(e),
    }
}

/// `a` followed by `b`.
fn joined(a: &str, b: &str) -> (r: String)
    ensures
        r@ == a@ + b@,
{
    let mut s = a.to_owned();
    s.append(b);
    s
}

/// `a`, `x`, `b` and `y` one after another.
fn joined4(a: &str, x: &str, b: &str, y: &str) -> (r: String)
    ensures
        r@ == a@ + x@ + b@ + y@,
{
    let s = joined(a, x);
    let t = joined(s.as_str(), b);
    joined(t.as_str(), y)
}

/// A `PING` to `host`.
pub fn ping(host: &str) -> (r: Result<Message, ParseError>)
    ensures
        parses_to(r, "PING :"@ + host@),
{
    Message::try_from(joined("PING :", host))
}

/// A `PONG` to `host`.
pub fn pong(host: &str) -> (r: Result<Message, ParseError>)
    ensures
        parses_to(r, "PONG "@ + host@),
{
    Message::try_from(joined("PONG ", host))
}

/// A `PASS` with the password `password`.
pub fn pass(password: &str) -> (r: Result<Message, ParseError>)
    ensures
        parses_to(r, "PASS "@ + password@),
{
    Message::try_from(joined("PASS ", password))
}

/// A `NICK` with the nickname `nickname`.
pub fn nick(nickname: &str) -> (r: Result<Message, ParseError>)
    ensures
        parses_to(r, "NICK "@ + nickname@),
{
    Message::try_from(joined("NICK ", nickname))
}

/// A `USER` with the user name `username` and the real name `real_name`.
pub fn user(username: &str, real_name: &str) -> (r: Result<Message, ParseError>)
    ensures
        parses_to(r, "USER "@ + username@ + " 0 * :"@ + real_name@),
{
    Message::try_from(joined4("USER ", username, " 0 * :", real_name))
}

/// A `CAP REQ` for the capability `cap`.
pub fn cap_req(cap: &str) -> (r: Result<Message, ParseError>)
    ensures
        parses_to(r, "CAP REQ :"@ + cap@),
{
    Message::try_from(joined("CAP REQ :", cap))
}

/// A `JOIN` of `channel`.
pub fn join(channel: &str) -> (r: Result<Message, ParseError>)
    ensures
        parses_to(r, "JOIN "@ + channel@),
{
    Message::try_from(joined("JOIN ", channel))
}

/// A `PRIVMSG` of `message` to `targets`.
pub fn privmsg(targets: &str, message: &str) -> (r: Result<Message, ParseError>)
    ensures
        parses_to(r, "PRIVMSG "@ + targets@ + " :"@ + message@),
{
    Message::try_from(joined4("PRIVMSG ", targets, " :", message))
}

/// The welcome reply `001` to `target`.
pub fn welcome(target: &str, message: &str) -> (r: Result<Message, ParseError>)
    ensures
        parses_to(r, "001 "@ + target@ + " :"@ + message@),
{
    Message::try_from(joined4("001 ", target, " :", message))
}

/// The host reply `002` to `target`.
pub fn yourhost(target: &str, message: &str) -> (r: Result<Message, ParseError>)
    ensures
        parses_to(r, "002 "@ + target@ + " :"@ + message@),
{
    Message::try_from(joined4("002 ", target, " :", message))
}

/// The server creation reply `003` to `target`.
pub fn created(target: &str, message: &str) -> (r: Result<Message, ParseError>)
    ensures
        parses_to(r, "003 "@ + target@ + " :"@ + message@),
{
    Message::try_from(joined4("003 ", target, " :", message))
}

/// The server information reply `004` to `target`.
pub fn serverinfo(target: &str, message: &str) -> (r: Result<Message, ParseError>)
    ensures
        parses_to(r, "004 "@ + target@ + " :"@ + message@),
{
    Message::try_from(joined4("004 ", target, " :", message))
}

} // verus!
