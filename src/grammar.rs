//! The line grammar as spec functions over the characters of a line: where
//! each section starts and ends, and which error a malformed line gives.
use vstd::prelude::*;
use crate::error::ParseError;
use crate::span::{PrefixSpan, Span, TagSpan};

verus! {

/// The span `a..b`.
pub open spec fn span(a: int, b: int) -> Span {
    Span { start: a as usize, end: b as usize }
}

/// The first position in `i..hi` that holds `c`, or `hi` if there is none.
pub open spec fn find(s: Seq<char>, i: int, hi: int, c: char) -> int
    decreases hi - i,
{
    if i >= hi {
        hi
    } else if s[i] == c {
        i
    } else {
        find(s, i + 1, hi, c)
    }
}

/// The first position at or after `i` that holds no space, or the end.
pub open spec fn skip_spaces(s: Seq<char>, i: int) -> int
    decreases s.len() - i,
{
    if i >= s.len() {
        s.len() as int
    } else if s[i] != ' ' {
        i
    } else {
        skip_spaces(s, i + 1)
    }
}

pub proof fn lemma_find_bounds(s: Seq<char>, i: int, hi: int, c: char)
    requires
        i <= hi,
    ensures
        i <= find(s, i, hi, c) <= hi,
        find(s, i, hi, c) < hi ==> s[find(s, i, hi, c)] == c,
        forall|k: int| i <= k < find(s, i, hi, c) ==> s[k] != c,
    decreases hi - i,
{
    if i < hi && s[i] != c {
        lemma_find_bounds(s, i + 1, hi, c);
    }
}

pub proof fn lemma_skip_bounds(s: Seq<char>, i: int)
    requires
        i <= s.len(),
    ensures
        i <= skip_spaces(s, i) <= s.len(),
        skip_spaces(s, i) < s.len() ==> s[skip_spaces(s, i)] != ' ',
        forall|k: int| i <= k < skip_spaces(s, i) ==> s[k] == ' ',
    decreases s.len() - i,
{
    if i < s.len() && s[i] == ' ' {
        lemma_skip_bounds(s, i + 1);
    }
}

/// The tag `a..b`: a key, then, after the first `=`, a value.
pub open spec fn tag_at(s: Seq<char>, a: int, b: int) -> TagSpan {
    let eq = find(s, a, b, '=');
    TagSpan {
        key: span(a, eq),
        value: if eq < b { Some(span(eq + 1, b)) } else { None },
    }
}

/// The tags of `lo..hi`, which are separated by `;`.
pub open spec fn tag_list(s: Seq<char>, lo: int, hi: int) -> Seq<TagSpan>
    decreases hi - lo,
    via tag_list_decreases
{
    let e = find(s, lo, hi, ';');
    if lo <= hi && e < hi {
        seq![tag_at(s, lo, e)] + tag_list(s, e + 1, hi)
    } else {
        seq![tag_at(s, lo, hi)]
    }
}

#[via_fn]
proof fn tag_list_decreases(s: Seq<char>, lo: int, hi: int) {
    if lo <= hi {
        lemma_find_bounds(s, lo, hi, ';');
    }
}

/// Whether the line opens with a tag section.
pub open spec fn has_tags(s: Seq<char>) -> bool {
    s.len() > 0 && s[0] == '@'
}

/// Where the tag section ends: at the first space, or at 0 if there is none.
pub open spec fn tags_end(s: Seq<char>) -> int {
    if has_tags(s) {
        find(s, 1, s.len() as int, ' ')
    } else {
        0
    }
}

/// The tags of the line, if it has a tag section.
pub open spec fn tags_of(s: Seq<char>) -> Option<Seq<TagSpan>> {
    if has_tags(s) {
        Some(tag_list(s, 1, tags_end(s)))
    } else {
        None
    }
}

/// Whether some tag of the line has an empty key.
pub open spec fn tags_malformed(s: Seq<char>) -> bool {
    has_tags(s) && exists|k: int|
        0 <= k < tag_list(s, 1, tags_end(s)).len() && #[trigger] tag_list(
            s,
            1,
            tags_end(s),
        )[k].key.start == tag_list(s, 1, tags_end(s))[k].key.end
}

/// Where the section after the tags begins.
pub open spec fn prefix_start(s: Seq<char>) -> int {
    skip_spaces(s, tags_end(s))
}

/// Whether a `:` prefix section precedes the command.
pub open spec fn has_prefix(s: Seq<char>) -> bool {
    let p = prefix_start(s);
    p < s.len() && s[p] == ':'
}

/// Where the prefix section ends (at `prefix_start` when there is none).
pub open spec fn prefix_end(s: Seq<char>) -> int {
    if has_prefix(s) {
        find(s, prefix_start(s) + 1, s.len() as int, ' ')
    } else {
        prefix_start(s)
    }
}

/// The prefix `p..e`: a name, then a user after the first `!`, then a host
/// after the next `@`.
pub open spec fn prefix_at(s: Seq<char>, p: int, e: int) -> PrefixSpan {
    let bang = find(s, p, e, '!');
    let at = find(s, if bang < e { bang + 1 } else { p }, e, '@');
    PrefixSpan {
        raw: span(p, e),
        name: span(p, if bang < e { bang } else { at }),
        user: if bang < e { Some(span(bang + 1, at)) } else { None },
        host: if at < e { Some(span(at + 1, e)) } else { None },
    }
}

/// The prefix of the line, if it has a prefix section.
pub open spec fn prefix_of(s: Seq<char>) -> Option<PrefixSpan> {
    if has_prefix(s) {
        Some(prefix_at(s, prefix_start(s) + 1, prefix_end(s)))
    } else {
        None
    }
}

/// Whether the prefix section has an empty name.
pub open spec fn prefix_malformed(s: Seq<char>) -> bool {
    match prefix_of(s) {
        Some(p) => p.name.start == p.name.end,
        None => false,
    }
}

/// Where the command token begins.
pub open spec fn command_start(s: Seq<char>) -> int {
    skip_spaces(s, prefix_end(s))
}

/// The command token: the run of non-space characters at `command_start`.
pub open spec fn command_of(s: Seq<char>) -> Span {
    span(command_start(s), find(s, command_start(s), s.len() as int, ' '))
}

/// The arguments from `i` on: space-separated tokens, the last of which,
/// after a `:`, runs to the end of the line.
pub open spec fn args_from(s: Seq<char>, i: int) -> Seq<Span>
    decreases s.len() - i,
    via args_from_decreases
{
    let j = skip_spaces(s, i);
    if i > s.len() || j >= s.len() {
        seq![]
    } else if s[j] == ':' {
        seq![span(j + 1, s.len() as int)]
    } else {
        let e = find(s, j, s.len() as int, ' ');
        seq![span(j, e)] + args_from(s, e)
    }
}

#[via_fn]
proof fn args_from_decreases(s: Seq<char>, i: int) {
    if i <= s.len() {
        lemma_skip_bounds(s, i);
        let j = skip_spaces(s, i);
        if j < s.len() {
            lemma_find_bounds(s, j + 1, s.len() as int, ' ');
        }
    }
}

/// The arguments of the line; `None` when there are none.
pub open spec fn args_of(s: Seq<char>) -> Option<Seq<Span>> {
    let a = args_from(s, command_of(s).end as int);
    if a.len() == 0 {
        None
    } else {
        Some(a)
    }
}

/// The error that parsing the line gives, if any: the first malformed
/// section from left to right.
pub open spec fn parse_error(s: Seq<char>) -> Option<ParseError> {
    if tags_malformed(s) {
        Some(ParseError::MalformedTags)
    } else if prefix_malformed(s) {
        Some(ParseError::MalformedPrefix)
    } else if command_start(s) >= s.len() {
        Some(ParseError::MissingCommand)
    } else {
        None
    }
}

/// The texts of `spans` in `s`.
pub open spec fn texts(s: Seq<char>, spans: Seq<Span>) -> Seq<Seq<char>> {
    spans.map_values(|sp: Span| sp.of(s))
}

/// An argument that can stand before the last one: non-empty, without
/// spaces, and not opening with `:`.
pub open spec fn plain_arg(a: Seq<char>) -> bool {
    &&& a.len() > 0
    &&& a[0] != ':'
    &&& forall|k: int| 0 <= k < a.len() ==> a[k] != ' '
}

/// Arguments written out as the grammar has them: each after a space, the
/// last after ` :`.
pub open spec fn join_args(args: Seq<Seq<char>>) -> Seq<char>
    decreases args.len(),
{
    if args.len() == 0 {
        seq![]
    } else if args.len() == 1 {
        seq![' ', ':'] + args[0]
    } else {
        seq![' '] + args[0] + join_args(args.drop_first())
    }
}

pub proof fn lemma_find_at(s: Seq<char>, i: int, hi: int, c: char, n: int)
    requires
        i <= n <= hi,
        forall|k: int| i <= k < n ==> s[k] != c,
        n < hi ==> s[n] == c,
    ensures
        find(s, i, hi, c) == n,
    decreases n - i,
{
    if i < n {
        lemma_find_at(s, i + 1, hi, c, n);
    }
}

pub proof fn lemma_skip_at(s: Seq<char>, i: int, n: int)
    requires
        i <= n <= s.len(),
        forall|k: int| i <= k < n ==> s[k] == ' ',
        n < s.len() ==> s[n] != ' ',
    ensures
        skip_spaces(s, i) == n,
    decreases n - i,
{
    if i < n {
        lemma_skip_at(s, i + 1, n);
    }
}

/// `find` over a stretch that reappears `d` positions earlier in `r` gives
/// the same position, `d` earlier.
pub proof fn lemma_find_shift(s: Seq<char>, r: Seq<char>, i: int, hi: int, d: int, c: char)
    requires
        0 <= i <= hi <= s.len(),
        0 <= i - d,
        hi - d <= r.len(),
        forall|k: int| i <= k < hi ==> s[k] == r[k - d],
    ensures
        find(r, i - d, hi - d, c) == find(s, i, hi, c) - d,
    decreases hi - i,
{
    if i < hi {
        lemma_find_shift(s, r, i + 1, hi, d, c);
    }
}

/// `find` over `i..hi` reads nothing outside `i..hi`.
proof fn lemma_find_agree(s: Seq<char>, t: Seq<char>, i: int, hi: int, c: char)
    requires
        0 <= i <= hi <= s.len(),
        hi <= t.len(),
        forall|k: int| i <= k < hi ==> s[k] == t[k],
    ensures
        find(s, i, hi, c) == find(t, i, hi, c),
    decreases hi - i,
{
    if i < hi {
        lemma_find_agree(s, t, i + 1, hi, c);
    }
}

/// The tags of `lo..hi` depend on nothing outside `lo..hi`.
pub proof fn lemma_tag_list_agree(s: Seq<char>, t: Seq<char>, lo: int, hi: int)
    requires
        0 <= lo <= hi <= s.len(),
        hi <= t.len(),
        forall|k: int| lo <= k < hi ==> s[k] == t[k],
    ensures
        tag_list(s, lo, hi) == tag_list(t, lo, hi),
    decreases hi - lo,
{
    lemma_find_agree(s, t, lo, hi, ';');
    lemma_find_bounds(s, lo, hi, ';');
    let e = find(s, lo, hi, ';');
    lemma_find_agree(s, t, lo, e, '=');
    lemma_find_agree(s, t, lo, hi, '=');
    if e < hi {
        lemma_tag_list_agree(s, t, e + 1, hi);
    }
}

/// Every argument but the last that `args_from` finds is plain.
pub proof fn lemma_args_plain(s: Seq<char>, i: int)
    requires
        0 <= i <= s.len() <= usize::MAX,
    ensures
        forall|k: int|
            0 <= k < texts(s, args_from(s, i)).len() - 1 ==> plain_arg(
                #[trigger] texts(s, args_from(s, i))[k],
            ),
    decreases s.len() - i,
{
    lemma_skip_bounds(s, i);
    let j = skip_spaces(s, i);
    if j < s.len() && s[j] != ':' {
        let e = find(s, j, s.len() as int, ' ');
        lemma_find_bounds(s, j, s.len() as int, ' ');
        lemma_args_plain(s, e);
        let head = span(j, e).of(s);
        assert(plain_arg(head));
        let rest = texts(s, args_from(s, e));
        assert(texts(s, args_from(s, i)) =~= seq![head] + rest);
        assert forall|k: int|
            0 <= k < texts(s, args_from(s, i)).len() - 1 implies plain_arg(
                #[trigger] texts(s, args_from(s, i))[k],
            ) by {
            if k > 0 {
                assert(texts(s, args_from(s, i))[k] == rest[k - 1]);
            }
        }
    }
}

/// Arguments written out after any text `pre` are found again, as they were,
/// when the line is scanned for arguments from the end of `pre`.
pub proof fn lemma_join_args(pre: Seq<char>, args: Seq<Seq<char>>)
    requires
        forall|k: int| 0 <= k < args.len() - 1 ==> plain_arg(#[trigger] args[k]),
        (pre + join_args(args)).len() <= usize::MAX,
    ensures
        texts(pre + join_args(args), args_from(pre + join_args(args), pre.len() as int)) == args,
    decreases args.len(),
{
    let s = pre + join_args(args);
    let n = pre.len() as int;
    if args.len() == 0 {
        assert(s =~= pre);
        assert(texts(s, args_from(s, n)) =~= args);
    } else if args.len() == 1 {
        assert(s[n] == ' ');
        assert(s[n + 1] == ':');
        assert(skip_spaces(s, n + 1) == n + 1);
        assert(skip_spaces(s, n) == n + 1);
        assert(span(n + 2, s.len() as int).of(s) =~= args[0]);
        assert(texts(s, args_from(s, n)) =~= args);
    } else {
        let a = args[0];
        let rest = args.drop_first();
        let pre2 = pre + seq![' '] + a;
        assert(plain_arg(a));
        assert(join_args(rest)[0] == ' ') by {
            reveal_with_fuel(join_args, 2);
        }
        assert(s =~= pre2 + join_args(rest));
        assert(s[n] == ' ');
        assert(s[n + 1] == a[0]);
        assert(skip_spaces(s, n + 1) == n + 1);
        assert(skip_spaces(s, n) == n + 1);
        let e = n + 1 + a.len();
        assert(s[e] == ' ');
        assert forall|k: int| n + 1 <= k < e implies s[k] != ' ' by {
            assert(s[k] == a[k - n - 1]);
        }
        lemma_find_at(s, n + 1, s.len() as int, ' ', e);
        assert forall|k: int| 0 <= k < rest.len() - 1 implies plain_arg(#[trigger] rest[k]) by {
            assert(rest[k] == args[k + 1]);
        }
        lemma_join_args(pre2, rest);
        assert(span(n + 1, e).of(s) =~= a);
        assert(texts(s, args_from(s, n)) =~= seq![a] + texts(s, args_from(s, e)));
        assert(texts(s, args_from(s, n)) =~= args);
    }
}

} // verus!
