//! Lines rebuilt from a message's parts parse to the same parts.
use vstd::prelude::*;
use crate::grammar::{
    args_from, command_of, command_start, find, has_prefix, has_tags, join_args,
    lemma_args_plain, lemma_find_at, lemma_find_bounds, lemma_find_shift, lemma_join_args,
    lemma_skip_at, lemma_skip_bounds, lemma_tag_list_agree, parse_error, prefix_end,
    prefix_malformed, prefix_of, tags_malformed,
    prefix_start, tag_at, tag_list, tags_end, texts,
};
use crate::message::{arg_texts, opt_text, tag_text, tag_texts};
use crate::span::TagSpan;

verus! {

/// A tag written out: its key, then `=` and its value if it has one.
pub open spec fn tag_str(t: (Seq<char>, Option<Seq<char>>)) -> Seq<char> {
    match t.1 {
        Some(v) => t.0 + seq!['='] + v,
        None => t.0,
    }
}

/// Tags written out, separated by `;`.
pub open spec fn join_tags(tags: Seq<(Seq<char>, Option<Seq<char>>)>) -> Seq<char>
    decreases tags.len(),
{
    if tags.len() == 0 {
        seq![]
    } else if tags.len() == 1 {
        tag_str(tags[0])
    } else {
        tag_str(tags[0]) + seq![';'] + join_tags(tags.drop_first())
    }
}

/// Whether the spans of `t` lie inside `lo..hi`.
pub open spec fn tag_inside(t: TagSpan, lo: int, hi: int) -> bool {
    &&& lo <= t.key.start <= t.key.end <= hi
    &&& t.value matches Some(v) ==> lo <= v.start <= v.end <= hi
}

/// The tags of `lo..hi`, written out again, are the text of `lo..hi`, and
/// each lies inside it.
pub proof fn lemma_tag_list_text(s: Seq<char>, lo: int, hi: int)
    requires
        0 <= lo <= hi <= s.len() <= usize::MAX,
    ensures
        join_tags(tag_list(s, lo, hi).map_values(|t: TagSpan| tag_text(s, t))) == s.subrange(lo, hi),
        forall|k: int|
            0 <= k < tag_list(s, lo, hi).len() ==> tag_inside(#[trigger] tag_list(s, lo, hi)[k], lo, hi),
        tag_list(s, lo, hi).len() >= 1,
    decreases hi - lo,
{
    lemma_find_bounds(s, lo, hi, ';');
    let e = find(s, lo, hi, ';');
    lemma_find_bounds(s, lo, e, '=');
    let eq = find(s, lo, e, '=');
    let t = tag_at(s, lo, e);
    let x = tag_text(s, t);
    assert(tag_str(x) =~= s.subrange(lo, e));
    if e < hi {
        lemma_tag_list_text(s, e + 1, hi);
        let rest = tag_list(s, e + 1, hi);
        let m = rest.map_values(|t: TagSpan| tag_text(s, t));
        assert(tag_list(s, lo, hi) == seq![t] + rest);
        let all = tag_list(s, lo, hi).map_values(|t: TagSpan| tag_text(s, t));
        assert(all =~= seq![x] + m);
        assert(all.drop_first() =~= m);
        assert(join_tags(all) == tag_str(x) + seq![';'] + join_tags(m));
        assert(s.subrange(lo, hi) =~= s.subrange(lo, e) + seq![';'] + s.subrange(e + 1, hi));
        assert forall|k: int| 0 <= k < tag_list(s, lo, hi).len() implies tag_inside(
            #[trigger] tag_list(s, lo, hi)[k],
            lo,
            hi,
        ) by {
            if k > 0 {
                assert(tag_list(s, lo, hi)[k] == rest[k - 1]);
            }
        }
    } else {
        let all = tag_list(s, lo, hi).map_values(|t: TagSpan| tag_text(s, t));
        assert(all =~= seq![x]);
    }
}

/// The prefix's whole text, name, user and host, if the line has a prefix.
pub open spec fn prefix_texts(s: Seq<char>) -> Option<
    (Seq<char>, Seq<char>, Option<Seq<char>>, Option<Seq<char>>),
> {
    match prefix_of(s) {
        Some(p) => Some((p.raw.of(s), p.name.of(s), opt_text(p.user, s), opt_text(p.host, s))),
        None => None,
    }
}

/// The sections before the command, written out again from their parts:
/// `@` and the tags then a space, `:` and the prefix then a space.
pub open spec fn head_of(s: Seq<char>) -> Seq<char> {
    (if has_tags(s) {
        seq!['@'] + join_tags(tag_texts(s)) + seq![' ']
    } else {
        seq![]
    }) + match prefix_of(s) {
        Some(p) => seq![':'] + p.raw.of(s) + seq![' '],
        None => seq![],
    }
}

/// The line written out again from its tags, prefix, command and arguments,
/// with one space between sections and the last argument after ` :`.
pub open spec fn rebuilt(s: Seq<char>) -> Seq<char> {
    head_of(s) + command_of(s).of(s) + join_args(arg_texts(s))
}

proof fn lemma_sub_shift(s: Seq<char>, r: Seq<char>, i: int, j: int, d: int)
    requires
        0 <= i <= j <= s.len(),
        0 <= i - d,
        j - d <= r.len(),
        forall|k: int| i <= k < j ==> s[k] == r[k - d],
    ensures
        r.subrange(i - d, j - d) == s.subrange(i, j),
{
    assert(r.subrange(i - d, j - d) =~= s.subrange(i, j));
}

/// A line that agrees with `s` up to the end of its tag section, and has a
/// space there, has the same tags.
proof fn lemma_same_tags(s: Seq<char>, r: Seq<char>)
    requires
        has_tags(s),
        !tags_malformed(s),
        tags_end(s) < s.len() <= usize::MAX,
        tags_end(s) < r.len(),
        forall|k: int| 0 <= k < tags_end(s) ==> r[k] == s[k],
        r[tags_end(s)] == ' ',
    ensures
        has_tags(r),
        tags_end(r) == tags_end(s),
        !tags_malformed(r),
        tag_texts(r) == tag_texts(s),
{
    let te = tags_end(s);
    lemma_find_bounds(s, 1, s.len() as int, ' ');
    lemma_find_at(r, 1, r.len() as int, ' ', te);
    lemma_tag_list_agree(s, r, 1, te);
    lemma_tag_list_text(s, 1, te);
    assert forall|k: int|
        0 <= k < tag_texts(r).len() implies #[trigger] tag_texts(r)[k] == tag_texts(s)[k] by {
        let t = tag_list(s, 1, te)[k];
        assert(tag_inside(t, 1, te));
        assert(t.key.of(r) =~= t.key.of(s));
        if let Some(v) = t.value {
            assert(v.of(r) =~= v.of(s));
        }
    }
    assert(tag_texts(r) =~= tag_texts(s));
}

/// A line whose prefix section starts at `q` and holds the prefix of `s`,
/// followed by a space, has the same prefix.
proof fn lemma_same_prefix(s: Seq<char>, r: Seq<char>, q: int)
    requires
        has_prefix(s),
        !prefix_malformed(s),
        prefix_end(s) < s.len() <= usize::MAX,
        r.len() <= usize::MAX,
        0 <= q <= prefix_start(s),
        prefix_start(r) == q,
        r[q] == ':',
        prefix_end(s) - (prefix_start(s) - q) < r.len(),
        forall|k: int|
            prefix_start(s) + 1 <= k < prefix_end(s) ==> s[k] == r[k - (prefix_start(s) - q)],
        r[prefix_end(s) - (prefix_start(s) - q)] == ' ',
    ensures
        has_prefix(r),
        prefix_end(r) == prefix_end(s) - (prefix_start(s) - q),
        !prefix_malformed(r),
        prefix_texts(r) == prefix_texts(s),
{
    let ps = prefix_start(s);
    let pe = prefix_end(s);
    let d = ps - q;
    lemma_find_bounds(s, ps + 1, s.len() as int, ' ');
    assert forall|k: int| q + 1 <= k < pe - d implies r[k] != ' ' by {
        assert(s[k + d] == r[k + d - d]);
    }
    lemma_find_at(r, q + 1, r.len() as int, ' ', pe - d);
    lemma_find_shift(s, r, ps + 1, pe, d, '!');
    lemma_find_bounds(s, ps + 1, pe, '!');
    let bang = find(s, ps + 1, pe, '!');
    if bang < pe {
        lemma_find_shift(s, r, bang + 1, pe, d, '@');
        lemma_find_bounds(s, bang + 1, pe, '@');
    } else {
        lemma_find_shift(s, r, ps + 1, pe, d, '@');
        lemma_find_bounds(s, ps + 1, pe, '@');
    }
    let p = prefix_of(s)->0;
    lemma_sub_shift(s, r, p.raw.start as int, p.raw.end as int, d);
    lemma_sub_shift(s, r, p.name.start as int, p.name.end as int, d);
    if let Some(u) = p.user {
        lemma_sub_shift(s, r, u.start as int, u.end as int, d);
    }
    if let Some(h) = p.host {
        lemma_sub_shift(s, r, h.start as int, h.end as int, d);
    }
}

/// A line that parses, written out again from its parts, parses to the same
/// tags, prefix, command and arguments. The one line that does not is one
/// with neither tags nor prefix whose command opens with `@` (after leading
/// spaces): written out, it would open a tag section.
#[verifier::rlimit(100)]
pub proof fn lemma_rebuilt(s: Seq<char>)
    requires
        parse_error(s) is None,
        s.len() <= usize::MAX,
        rebuilt(s).len() <= usize::MAX,
        has_tags(s) || has_prefix(s) || s[command_start(s)] != '@',
    ensures
        ({
            let r = rebuilt(s);
            &&& parse_error(r) is None
            &&& has_tags(r) == has_tags(s)
            &&& tag_texts(r) == tag_texts(s)
            &&& prefix_texts(r) == prefix_texts(s)
            &&& command_of(r).of(r) == command_of(s).of(s)
            &&& arg_texts(r) == arg_texts(s)
        }),
{
    let len = s.len() as int;
    let te = tags_end(s);
    if has_tags(s) {
        lemma_find_bounds(s, 1, len, ' ');
    }
    lemma_skip_bounds(s, te);
    let ps = prefix_start(s);
    if has_prefix(s) {
        lemma_find_bounds(s, ps + 1, len, ' ');
    }
    let pe = prefix_end(s);
    lemma_skip_bounds(s, pe);
    let cs = command_start(s);
    lemma_find_bounds(s, cs, len, ' ');
    let ce = find(s, cs, len, ' ');
    let c = s.subrange(cs, ce);
    let a = arg_texts(s);
    let j = join_args(a);
    assert(j.len() > 0 ==> j[0] == ' ') by {
        reveal_with_fuel(join_args, 2);
    }
    let tp = if has_tags(s) {
        seq!['@'] + join_tags(tag_texts(s)) + seq![' ']
    } else {
        seq![]
    };
    if has_tags(s) {
        lemma_tag_list_text(s, 1, te);
        assert(tp =~= s.subrange(0, te) + seq![' ']);
    }
    let q = tp.len() as int;
    let pp = match prefix_of(s) {
        Some(p) => seq![':'] + p.raw.of(s) + seq![' '],
        None => seq![],
    };
    let r = rebuilt(s);
    let rlen = r.len() as int;
    assert(r =~= tp + pp + c + j);
    let cs_r = q + pp.len();
    let ce_r = cs_r + c.len();
    assert forall|k: int| 0 <= k < c.len() implies r[cs_r + k] == #[trigger] c[k] by {
        assert(r[cs_r + k] == (tp + pp + c + j)[cs_r + k]);
    }
    assert(ce_r < rlen ==> r[ce_r] == ' ') by {
        if ce_r < rlen {
            assert(r[ce_r] == j[0]);
        }
    }
    // the tag section
    if has_tags(s) {
        assert(te < cs);
        assert forall|k: int| 0 <= k < te implies r[k] == s[k] by {
            assert(r[k] == tp[k]);
        }
        assert(r[te] == ' ') by {
            assert(r[te] == tp[te]);
        }
        lemma_same_tags(s, r);
    } else {
        assert(q == 0);
        if has_prefix(s) {
            assert(r[0] == pp[0]);
        } else {
            assert(r[0] == c[0]);
        }
        assert(tag_texts(r) =~= tag_texts(s));
    }
    // the prefix section
    let d = ps - q;
    if has_tags(s) {
        assert(s[te] == ' ');
    }
    assert(q <= ps);
    if !has_prefix(s) {
        lemma_skip_at(s, ps, ps);
        assert(cs == ps);
    }
    assert(r[q] != ' ' && (r[q] == ':' <==> has_prefix(s))) by {
        if has_prefix(s) {
            assert(r[q] == pp[0]);
        } else {
            assert(r[q] == c[0]);
        }
    }
    if has_tags(s) {
        lemma_skip_at(r, te, q);
    } else {
        lemma_skip_at(r, 0, 0);
    }
    assert(prefix_start(r) == q);
    if has_prefix(s) {
        let l = pe - ps - 1;
        assert forall|k: int| ps + 1 <= k < pe implies s[k] == r[k - d] by {
            assert(r[k - d] == pp[k - ps]);
        }
        assert(r[q + 1 + l] == ' ') by {
            assert(r[q + 1 + l] == pp[l + 1]);
        }
        lemma_same_prefix(s, r, q);
        lemma_skip_at(r, q + 1 + l, cs_r);
    } else {
        lemma_skip_at(r, q, cs_r);
    }
    assert(prefix_texts(r) == prefix_texts(s));
    assert(command_start(r) == cs_r);
    // the command and the arguments
    assert forall|k: int| cs_r <= k < ce_r implies r[k] != ' ' by {
        assert(r[cs_r + (k - cs_r)] == c[k - cs_r]);
    }
    lemma_find_at(r, cs_r, rlen, ' ', ce_r);
    assert(command_of(r).of(r) =~= c);
    assert(arg_texts(r) == a) by {
        let pre = r.subrange(0, ce_r);
        assert(r =~= pre + j);
        lemma_args_plain(s, ce);
        assert(a =~= texts(s, args_from(s, ce)));
        lemma_join_args(pre, a);
        assert(arg_texts(r) =~= texts(r, args_from(r, ce_r)));
    }
}

/// A rebuilt line is in normal form: rebuilding it again gives the same
/// line, character for character.
pub proof fn lemma_rebuilt_is_normal(s: Seq<char>)
    requires
        parse_error(s) is None,
        s.len() <= usize::MAX,
        rebuilt(s).len() <= usize::MAX,
        has_tags(s) || has_prefix(s) || s[command_start(s)] != '@',
    ensures
        rebuilt(rebuilt(s)) == rebuilt(s),
{
    lemma_rebuilt(s);
    let r = rebuilt(s);
    assert(head_of(r) =~= head_of(s));
}

} // verus!
