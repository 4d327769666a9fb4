use irc_message::command::{Ping, Privmsg, Welcome};
use irc_message::error::ParseError;
use irc_message::lines::{
    cap_req, created, join, nick, pass, ping, pong, privmsg, serverinfo, user, welcome, yourhost,
};
use irc_message::message::Message;
use irc_message::tag::{Color, Time};

fn parse(line: &str) -> Result<Message, ParseError> {
    Message::try_from(line.to_string())
}

fn args(m: &Message) -> Vec<String> {
    let mut it = m.raw_args();
    let mut out = Vec::new();
    while let Some(a) = it.next() {
        out.push(a.to_string());
    }
    out
}

fn tags(m: &Message) -> Vec<(String, Option<String>)> {
    let mut it = m.raw_tags();
    let mut out = Vec::new();
    while let Some((k, v)) = it.next() {
        out.push((k.to_string(), v.map(|v| v.to_string())));
    }
    out
}

/// The line put back together from the message's parts, one space between
/// sections and a `:` before the last argument.
fn rebuild(m: &Message) -> String {
    let mut line = String::new();
    let t = tags(m);
    if !t.is_empty() {
        line.push('@');
        let parts: Vec<String> = t
            .iter()
            .map(|(k, v)| match v {
                Some(v) => format!("{}={}", k, v),
                None => k.clone(),
            })
            .collect();
        line.push_str(&parts.join(";"));
        line.push(' ');
    }
    if let Some(p) = m.raw_prefix() {
        line.push(':');
        line.push_str(p);
        line.push(' ');
    }
    line.push_str(m.raw_command());
    let a = args(m);
    for (i, arg) in a.iter().enumerate() {
        line.push(' ');
        if i + 1 == a.len() {
            line.push(':');
        }
        line.push_str(arg);
    }
    line
}

#[test]
fn raw_message_is_the_line() {
    for line in [
        "PING :tmi.twitch.tv",
        ":nick!user@host PRIVMSG #chan :hello world",
        "@badge-info=;color=#FF0000 :tmi PRIVMSG #chan :hi",
        "JOIN   #a",
        "CMD :",
        "PRIVMSG #chan :héllo wörld ✓",
    ] {
        let m = parse(line).unwrap();
        assert_eq!(m.raw_message(), line);
    }
}

#[test]
fn rebuilt_line_parses_to_the_same_parts() {
    for line in [
        "PING :tmi.twitch.tv",
        "PING tmi.twitch.tv",
        ":nick!user@host PRIVMSG #chan :hello world",
        "@badge-info=;color=#FF0000;flag :tmi PRIVMSG #chan :hi",
        "@a=1   :srv   NOTICE  x   y   :z z",
        "CMD :",
        "CMD a :",
        "CMD ::x",
        "QUIT",
    ] {
        let m = parse(line).unwrap();
        let r = parse(&rebuild(&m)).unwrap();
        assert_eq!(tags(&r), tags(&m));
        assert_eq!(r.raw_prefix(), m.raw_prefix());
        assert_eq!(r.prefix(), m.prefix());
        assert_eq!(r.raw_command(), m.raw_command());
        assert_eq!(args(&r), args(&m));
    }
}

#[test]
fn missing_command() {
    assert_eq!(parse("").unwrap_err(), ParseError::MissingCommand);
    assert_eq!(parse("@time=123").unwrap_err(), ParseError::MissingCommand);
    assert_eq!(parse("@time=123 :prefix").unwrap_err(), ParseError::MissingCommand);
    assert_eq!(parse(":prefix   ").unwrap_err(), ParseError::MissingCommand);
    assert_eq!(parse("   ").unwrap_err(), ParseError::MissingCommand);
}

#[test]
fn malformed_tags() {
    assert_eq!(parse("@=x CMD").unwrap_err(), ParseError::MalformedTags);
    assert_eq!(parse("@a;;b CMD").unwrap_err(), ParseError::MalformedTags);
    assert_eq!(parse("@ CMD").unwrap_err(), ParseError::MalformedTags);
    assert_eq!(parse("@=1").unwrap_err(), ParseError::MalformedTags);
}

#[test]
fn malformed_prefix() {
    assert_eq!(parse(": CMD").unwrap_err(), ParseError::MalformedPrefix);
    assert_eq!(parse(":!user@host CMD").unwrap_err(), ParseError::MalformedPrefix);
    assert_eq!(parse(":@host CMD").unwrap_err(), ParseError::MalformedPrefix);
}

#[test]
fn full_prefix_and_trailing_argument() {
    let m = parse(":nick!user@host PRIVMSG #chan :hello world").unwrap();
    assert_eq!(m.prefix(), Some(("nick", Some("user"), Some("host"))));
    assert_eq!(m.raw_prefix(), Some("nick!user@host"));
    assert_eq!(m.raw_command(), "PRIVMSG");
    assert_eq!(args(&m), vec!["#chan".to_string(), "hello world".to_string()]);
    assert!(tags(&m).is_empty());
}

#[test]
fn prefix_parts() {
    let m = parse(":irc.example.net 001 me :hi").unwrap();
    assert_eq!(m.prefix(), Some(("irc.example.net", None, None)));
    let m = parse(":nick@host CMD").unwrap();
    assert_eq!(m.prefix(), Some(("nick", None, Some("host"))));
    let m = parse(":nick!user CMD").unwrap();
    assert_eq!(m.prefix(), Some(("nick", Some("user"), None)));
}

#[test]
fn ping_line() {
    let m = parse("PING :tmi.twitch.tv").unwrap();
    assert_eq!(m.prefix(), None);
    assert_eq!(m.raw_prefix(), None);
    assert!(tags(&m).is_empty());
    assert_eq!(m.raw_command(), "PING");
    assert_eq!(args(&m), vec!["tmi.twitch.tv".to_string()]);
}

#[test]
fn empty_and_absent_tag_values() {
    let m = parse("@badge-info=;color=#FF0000;flag :tmi PRIVMSG #chan :hi").unwrap();
    assert_eq!(
        tags(&m),
        vec![
            ("badge-info".to_string(), Some(String::new())),
            ("color".to_string(), Some("#FF0000".to_string())),
            ("flag".to_string(), None),
        ]
    );
    assert_eq!(m.raw_prefix(), Some("tmi"));
    assert_eq!(m.raw_command(), "PRIVMSG");
    assert_eq!(args(&m), vec!["#chan".to_string(), "hi".to_string()]);
}

#[test]
fn tag_value_keeps_later_equals_signs() {
    let m = parse("@k=a=b CMD").unwrap();
    assert_eq!(tags(&m), vec![("k".to_string(), Some("a=b".to_string()))]);
}

#[test]
fn iterating_twice_gives_the_same_items() {
    let m = parse("@a=1;b :p CMD x y :z w").unwrap();
    assert_eq!(args(&m), args(&m));
    assert_eq!(tags(&m), tags(&m));
    let mut first = m.raw_args();
    let mut second = m.raw_args();
    for _ in 0..4 {
        assert_eq!(first.next(), second.next());
    }
    assert_eq!(first.next(), None);
}

#[test]
fn no_arguments_and_bare_trailing_colon() {
    let m = parse("QUIT").unwrap();
    assert!(args(&m).is_empty());
    let m = parse("QUIT   ").unwrap();
    assert!(args(&m).is_empty());
    let m = parse("CMD :").unwrap();
    assert_eq!(args(&m), vec![String::new()]);
    let m = parse("CMD a ::b c").unwrap();
    assert_eq!(args(&m), vec!["a".to_string(), ":b c".to_string()]);
}

#[test]
fn command_of_another_shape_is_absent() {
    let m = parse("PING :tmi.twitch.tv").unwrap();
    assert!(m.command::<Privmsg>().is_none());
    assert!(m.command::<Welcome>().is_none());
    let m = parse("PRIVMSG #chan :hi").unwrap();
    assert!(m.command::<Ping>().is_none());
    assert!(m.command::<Welcome>().is_none());
    let m = parse("privmsg #chan :hi").unwrap();
    assert!(m.command::<Privmsg>().is_none());
}

#[test]
fn command_shapes() {
    let m = parse("PING :tmi.twitch.tv").unwrap();
    assert_eq!(m.command::<Ping>().unwrap().server, "tmi.twitch.tv");
    let m = parse(":a!b@c PRIVMSG #chan :hello world").unwrap();
    let p = m.command::<Privmsg>().unwrap();
    assert_eq!(p.target, "#chan");
    assert_eq!(p.message, "hello world");
    let m = parse(":srv 001 me :Welcome!").unwrap();
    let w = m.command::<Welcome>().unwrap();
    assert_eq!(w.target, "me");
    assert_eq!(w.message, "Welcome!");
}

#[test]
fn command_of_wrong_arity_is_absent() {
    assert!(parse("PING").unwrap().command::<Ping>().is_none());
    assert!(parse("PING a b").unwrap().command::<Ping>().is_none());
    assert!(parse("PRIVMSG #chan").unwrap().command::<Privmsg>().is_none());
    assert!(parse("PRIVMSG a b c").unwrap().command::<Privmsg>().is_none());
}

#[test]
fn tag_shapes() {
    let m = parse("@time=123;color=#FF0000 CMD").unwrap();
    assert_eq!(m.tag::<Time>().unwrap().timestamp, "123");
    assert_eq!(m.tag::<Color>().unwrap().color, "#FF0000");
    let m = parse("@color;time=1;time=2 CMD").unwrap();
    assert!(m.tag::<Color>().is_none());
    assert_eq!(m.tag::<Time>().unwrap().timestamp, "1");
    let m = parse("CMD").unwrap();
    assert!(m.tag::<Time>().is_none());
}

#[test]
fn built_lines() {
    assert_eq!(ping("irc.net").unwrap().raw_message(), "PING :irc.net");
    assert_eq!(pong("irc.net").unwrap().raw_message(), "PONG irc.net");
    assert_eq!(pass("secret").unwrap().raw_message(), "PASS secret");
    assert_eq!(nick("me").unwrap().raw_message(), "NICK me");
    assert_eq!(user("me", "Real Name").unwrap().raw_message(), "USER me 0 * :Real Name");
    assert_eq!(cap_req("twitch.tv/tags").unwrap().raw_message(), "CAP REQ :twitch.tv/tags");
    assert_eq!(join("#chan").unwrap().raw_message(), "JOIN #chan");
    assert_eq!(privmsg("#chan", "hi there").unwrap().raw_message(), "PRIVMSG #chan :hi there");
    assert_eq!(welcome("me", "hi").unwrap().raw_message(), "001 me :hi");
    assert_eq!(yourhost("me", "hi").unwrap().raw_message(), "002 me :hi");
    assert_eq!(created("me", "hi").unwrap().raw_message(), "003 me :hi");
    assert_eq!(serverinfo("me", "hi").unwrap().raw_message(), "004 me :hi");
}

#[test]
fn built_lines_parse() {
    let m = user("me", "Real Name").unwrap();
    assert_eq!(m.raw_command(), "USER");
    assert_eq!(
        args(&m),
        vec!["me".to_string(), "0".to_string(), "*".to_string(), "Real Name".to_string()]
    );
    let m = ping("irc.net").unwrap();
    assert_eq!(m.command::<Ping>().unwrap().server, "irc.net");
    let m = privmsg("#chan", "hi there").unwrap();
    assert_eq!(m.command::<Privmsg>().unwrap().message, "hi there");
    assert_eq!(args(&cap_req("a b").unwrap()), vec!["REQ".to_string(), "a b".to_string()]);
}

#[test]
fn messages_equal_by_line() {
    assert!(parse("PING :x").unwrap() == parse("PING :x").unwrap());
    assert!(parse("PING :x").unwrap() != parse("PING x").unwrap());
}

#[test]
fn rebuilt_line_is_in_normal_form() {
    for line in [
        "@a=1;b=;c   :n!u@h   PRIVMSG   #chan   :hi there",
        "PING tmi.twitch.tv",
        "CMD a b",
    ] {
        let once = rebuild(&parse(line).unwrap());
        let twice = rebuild(&parse(&once).unwrap());
        assert_eq!(once, twice);
    }
    let canonical = "@a=1;b=;c :n!u@h PRIVMSG #chan :hi there";
    assert_eq!(rebuild(&parse(canonical).unwrap()), canonical);
}

#[test]
fn command_opening_with_at_after_spaces() {
    let m = parse("  @x y").unwrap();
    assert!(tags(&m).is_empty());
    assert_eq!(m.raw_command(), "@x");
    assert_eq!(parse(&rebuild(&m)).unwrap_err(), ParseError::MissingCommand);
}
