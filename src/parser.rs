//! The single left-to-right pass that finds a line's sections.
use vstd::prelude::*;
use crate::error::ParseError;
use vstd::std_specs::iter::IteratorSpec;
use crate::grammar::{
    args_from, args_of, command_of, find, has_tags, parse_error, prefix_at, prefix_of,
    skip_spaces, tag_at, tag_list, tags_end, tags_malformed, tags_of,
};
use crate::span::{opt_seq, PrefixSpan, Span, TagSpan};

verus! {

/// The characters of `s`, in order.
pub fn chars_of(s: &str) -> (r: Vec<char>)
    ensures
        r@ == s@,
{
    broadcast use vstd::string::axiom_spec_iter, vstd::string::next_postcondition;
    let mut it = s.chars();
    let mut r: Vec<char> = Vec::new();
    loop
        invariant
            it.obeys_prophetic_iter_laws(),
            r@ + it.remaining() == s@,
            it.decrease() is Some,
        ensures
            r@ == s@,
        decreases it.decrease()->0,
    {
        match it.next() {
            Some(c) => {
                r.push(c);
            }
            None => {
                assert(it.remaining().len() == 0);
                assert(r@ + it.remaining() =~= r@);
                assert(r@ =~= s@);
                break;
            }
        }
    }
    r
}

} // verus!

verus! {

/// The first position in `i..hi` that holds `c`, or `hi`.
pub fn find_in(s: &Vec<char>, i: usize, hi: usize, c: char) -> (r: usize)
    requires
        i <= hi <= s@.len(),
    ensures
        r == find(s@, i as int, hi as int, c),
        i <= r <= hi,
        r < hi ==> s@[r as int] == c,
{
    let mut j: usize = i;
    while j < hi && s[j] != c
        invariant
            i <= j <= hi,
            hi <= s@.len(),
            find(s@, i as int, hi as int, c) == find(s@, j as int, hi as int, c),
        decreases hi - j,
    {
        j = j + 1;
    }
    j
}

/// The first position at or after `i` that holds no space, or the end.
pub fn skip_in(s: &Vec<char>, i: usize) -> (r: usize)
    requires
        i <= s@.len(),
    ensures
        r == skip_spaces(s@, i as int),
        i <= r <= s@.len(),
        r < s@.len() ==> s@[r as int] != ' ',
{
    let mut j: usize = i;
    while j < s.len() && s[j] == ' '
        invariant
            i <= j <= s@.len(),
            skip_spaces(s@, i as int) == skip_spaces(s@, j as int),
        decreases s@.len() - j,
    {
        j = j + 1;
    }
    j
}

/// The sections of a line, as spans of its characters.
pub struct Parts {
    pub tags: Option<Vec<TagSpan>>,
    pub prefix: Option<PrefixSpan>,
    pub command: Span,
    pub arguments: Option<Vec<Span>>,
}

impl Parts {
    /// Whether these are the sections that the grammar gives the line `s`,
    /// each inside it.
    pub open spec fn of_line(self, s: Seq<char>) -> bool {
        &&& s.len() <= usize::MAX
        &&& parse_error(s) is None
        &&& opt_seq(self.tags) == tags_of(s)
        &&& self.prefix == prefix_of(s)
        &&& self.command == command_of(s)
        &&& opt_seq(self.arguments) == args_of(s)
        &&& self.tags matches Some(t) ==> forall|k: int| 0 <= k < t@.len() ==> (#[trigger] t@[k]).within(s.len() as int)
        &&& self.prefix matches Some(p) ==> p.within(s.len() as int)
        &&& self.command.within(s.len() as int)
        &&& self.command.start < self.command.end
        &&& self.arguments matches Some(a) ==> forall|k: int| 0 <= k < a@.len() ==> (#[trigger] a@[k]).within(s.len() as int)
    }
}

/// Splits the tag section `1..hi` into its tags, or fails on an empty key.
fn tag_section(s: &Vec<char>, hi: usize) -> (r: Result<Vec<TagSpan>, ParseError>)
    requires
        has_tags(s@),
        hi == tags_end(s@),
        1 <= hi <= s@.len(),
    ensures
        r is Err <==> tags_malformed(s@),
        r matches Err(e) ==> e == ParseError::MalformedTags,
        r matches Ok(v) ==> v@ == tag_list(s@, 1, hi as int) && forall|k: int|
            0 <= k < v@.len() ==> (#[trigger] v@[k]).within(s@.len() as int),
{
    let mut v: Vec<TagSpan> = Vec::new();
    let mut lo: usize = 1;
    loop
        invariant_except_break
            v@ + tag_list(s@, lo as int, hi as int) == tag_list(s@, 1, hi as int),
        invariant
            1 <= lo <= hi <= s@.len(),
            hi == tags_end(s@),
            has_tags(s@),
            forall|k: int| 0 <= k < v@.len() ==> (#[trigger] v@[k]).key.start != v@[k].key.end,
            forall|k: int| 0 <= k < v@.len() ==> (#[trigger] v@[k]).within(s@.len() as int),
        ensures
            v@ == tag_list(s@, 1, hi as int),
            forall|k: int| 0 <= k < v@.len() ==> (#[trigger] v@[k]).key.start != v@[k].key.end,
            forall|k: int| 0 <= k < v@.len() ==> (#[trigger] v@[k]).within(s@.len() as int),
        decreases hi - lo,
    {
        let e = find_in(s, lo, hi, ';');
        let eq = find_in(s, lo, e, '=');
        let value = if eq < e {
            Some(Span::new(eq + 1, e))
        } else {
            None
        };
        let t = TagSpan { key: Span::new(lo, eq), value };
        assert(t == tag_at(s@, lo as int, e as int));
        assert(tag_list(s@, 1, hi as int)[v@.len() as int] == t);
        if lo == eq {
            assert(tags_malformed(s@)) by {
                let k = v@.len() as int;
                assert(tag_list(s@, 1, tags_end(s@))[k].key.start == tag_list(
                    s@,
                    1,
                    tags_end(s@),
                )[k].key.end);
            }
            return Err(ParseError::MalformedTags);
        }
        let ghost old_v = v@;
        v.push(t);
        if e < hi {
            assert(v@ + tag_list(s@, e + 1, hi as int) =~= old_v + tag_list(s@, lo as int, hi as int));
            lo = e + 1;
        } else {
            assert(v@ =~= old_v + tag_list(s@, lo as int, hi as int));
            break;
        }
    }
    assert(!tags_malformed(s@));
    Ok(v)
}

/// Finds the sections of the line `s`, or the first malformed one.
pub fn parse_parts(s: &Vec<char>) -> (r: Result<Parts, ParseError>)
    ensures
        r matches Ok(p) ==> p.of_line(s@),
        r matches Err(e) ==> parse_error(s@) == Some(e),
        r is Ok <==> parse_error(s@) is None,
{
    let len = s.len();
    let mut tags: Option<Vec<TagSpan>> = None;
    let mut pos: usize = 0;
    if len > 0 && s[0] == '@' {
        let hi = find_in(s, 1, len, ' ');
        match tag_section(s, hi) {
            Ok(v) => {
                tags = Some(v);
                pos = hi;
            },
            Err(e) => {
                return Err(e);
            },
        }
    }
    assert(!tags_malformed(s@));
    let p0 = skip_in(s, pos);
    let mut prefix: Option<PrefixSpan> = None;
    let mut pend: usize = p0;
    if p0 < len && s[p0] == ':' {
        let p = p0 + 1;
        let e = find_in(s, p, len, ' ');
        let bang = find_in(s, p, e, '!');
        let at = if bang < e {
            find_in(s, bang + 1, e, '@')
        } else {
            find_in(s, p, e, '@')
        };
        let name_end = if bang < e {
            bang
        } else {
            at
        };
        let user = if bang < e {
            Some(Span::new(bang + 1, at))
        } else {
            None
        };
        let host = if at < e {
            Some(Span::new(at + 1, e))
        } else {
            None
        };
        let pr = PrefixSpan { raw: Span::new(p, e), name: Span::new(p, name_end), user, host };
        assert(pr == prefix_at(s@, p as int, e as int));
        if name_end == p {
            return Err(ParseError::MalformedPrefix);
        }
        prefix = Some(pr);
        pend = e;
    }
    let cs = skip_in(s, pend);
    if cs >= len {
        return Err(ParseError::MissingCommand);
    }
    let ce = find_in(s, cs, len, ' ');
    let command = Span::new(cs, ce);
    let mut args: Vec<Span> = Vec::new();
    let mut i: usize = ce;
    loop
        invariant_except_break
            args@ + args_from(s@, i as int) == args_from(s@, ce as int),
        invariant
            ce <= i <= len,
            len == s@.len(),
            forall|k: int| 0 <= k < args@.len() ==> (#[trigger] args@[k]).within(len as int),
        ensures
            args@ == args_from(s@, ce as int),
            forall|k: int| 0 <= k < args@.len() ==> (#[trigger] args@[k]).within(len as int),
        decreases len - i,
    {
        let j = skip_in(s, i);
        let ghost old_args = args@;
        if j >= len {
            assert(args@ + args_from(s@, i as int) =~= args@);
            break;
        }
        if s[j] == ':' {
            args.push(Span::new(j + 1, len));
            assert(args@ =~= old_args + args_from(s@, i as int));
            break;
        }
        let e = find_in(s, j, len, ' ');
        args.push(Span::new(j, e));
        assert(args@ + args_from(s@, e as int) =~= old_args + args_from(s@, i as int));
        i = e;
    }
    let arguments = if args.len() == 0 {
        None
    } else {
        Some(args)
    };
    Ok(Parts { tags, prefix, command, arguments })
}

} // verus!

verus! {

/// Whether `a` and `b` hold the same characters.
pub fn same_text(a: &str, b: &str) -> (r: bool)
    ensures
        r == (a@ == b@),
{
    let x = chars_of(a);
    let y = chars_of(b);
    if x.len() != y.len() {
        return false;
    }
    let mut i: usize = 0;
    while i < x.len()
        invariant
            x@ == a@,
            y@ == b@,
            x@.len() == y@.len(),
            i <= x@.len(),
            forall|k: int| 0 <= k < i ==> x@[k] == y@[k],
        decreases x@.len() - i,
    {
        if x[i] != y[i] {
            assert(a@[i as int] != b@[i as int]);
            return false;
        }
        i = i + 1;
    }
    assert(x@ =~= y@);
    true
}

} // verus!
