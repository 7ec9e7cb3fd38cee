//! What a result row shows: the path as it is displayed, and the
//! positions in it that a query matches.

use vstd::prelude::*;
use regex::RegexBuilder;
use crate::paths::{file_name, file_name_of, is_normal, normal, relative_to, strip_root};
use crate::query::regex_valid;
use crate::search::utf8_len;
use crate::text::{
    append_chars, blank, chars_of, contains, copy_range, find_first, is_blank, lower, occurs_at,
    pieces, split, string_of, subsequence, to_lower, views, Delim,
};

verus! {

/// The prefix that marks a verbatim Windows path: `\\?\`.
pub open spec fn verbatim_prefix() -> Seq<char> {
    seq!['\\', '\\', '?', '\\']
}

/// The prefix of a verbatim UNC path: `\\?\UNC\`.
pub open spec fn verbatim_unc_prefix() -> Seq<char> {
    seq!['\\', '\\', '?', '\\', 'U', 'N', 'C', '\\']
}

/// A path as it is shown: a verbatim UNC prefix becomes `\\`, a verbatim
/// prefix is dropped, anything else is kept.
pub open spec fn display_form(text: Seq<char>) -> Seq<char> {
    if occurs_at(text, verbatim_unc_prefix(), 0) {
        seq!['\\', '\\'] + text.skip(8)
    } else if occurs_at(text, verbatim_prefix(), 0) {
        text.skip(4)
    } else {
        text
    }
}

/// Drops the verbatim prefix of a Windows path.
pub fn normalize_windows_display(text: &Vec<char>) -> (r: Vec<char>)
    ensures
        r@ == display_form(text@),
{
    let n = text.len();
    if n >= 4 && text[0] == '\\' && text[1] == '\\' && text[2] == '?' && text[3] == '\\' {
        assert(text@.subrange(0, 4) =~= verbatim_prefix());
        if n >= 8 && text[4] == 'U' && text[5] == 'N' && text[6] == 'C' && text[7] == '\\' {
            assert(text@.subrange(0, 8) =~= verbatim_unc_prefix());
            let mut out: Vec<char> = Vec::new();
            out.push('\\');
            out.push('\\');
            let rest = copy_range(text, 8, n);
            assert(text@.skip(8) =~= text@.subrange(8, n as int));
            append_chars(&mut out, &rest);
            assert(out@ =~= seq!['\\', '\\'] + text@.skip(8));
            return out;
        }
        assert(!occurs_at(text@, verbatim_unc_prefix(), 0)) by {
            if occurs_at(text@, verbatim_unc_prefix(), 0) {
                let p = text@.subrange(0, 8);
                assert(p[4] == 'U' && p[5] == 'N' && p[6] == 'C' && p[7] == '\\');
            }
        }
        let out = copy_range(text, 4, n);
        assert(text@.skip(4) =~= text@.subrange(4, n as int));
        return out;
    }
    assert(!occurs_at(text@, verbatim_prefix(), 0)) by {
        if occurs_at(text@, verbatim_prefix(), 0) {
            let p = text@.subrange(0, 4);
            assert(p[0] == '\\' && p[1] == '\\' && p[2] == '?' && p[3] == '\\');
        }
    }
    assert(!occurs_at(text@, verbatim_unc_prefix(), 0)) by {
        if occurs_at(text@, verbatim_unc_prefix(), 0) {
            let p = text@.subrange(0, 8);
            assert(p[0] == '\\' && p[1] == '\\' && p[2] == '?' && p[3] == '\\');
        }
    }
    let out = copy_range(text, 0, n);
    assert(text@.subrange(0, n as int) =~= text@);
    out
}

/// The text of a path for display.
pub fn normalize_path_for_display(path: &str) -> (r: String)
    ensures
        r@ == display_form(display_form(path@)),
{
    let normalized = normalize_windows_display(&chars_of(path));
    string_of(&normalize_windows_display(&normalized))
}

/// How a path is shown in a result row: from the root where that is
/// preferred and the path lies under it, else in full.
pub open spec fn display_text(path: Seq<char>, root: Seq<char>, prefer_relative: bool) -> Seq<
    char,
> {
    display_form(
        if prefer_relative {
            relative_to(display_form(path), display_form(root))
        } else {
            display_form(path)
        },
    )
}

/// A path can be shown from a root: where that is preferred, the display
/// forms of both are in normal form.
pub open spec fn showable(path: Seq<char>, root: Seq<char>, prefer_relative: bool) -> bool {
    prefer_relative ==> normal(display_form(path)) && normal(display_form(root))
}

/// Whether the display form of a path is in normal form.
pub fn is_normal_for_display(path: &str) -> (r: bool)
    ensures
        r == normal(display_form(path@)),
{
    is_normal(&normalize_windows_display(&chars_of(path)))
}

fn display_chars(path: &Vec<char>, root: &Vec<char>, prefer_relative: bool) -> (r: Vec<char>)
    requires
        showable(path@, root@, prefer_relative),
    ensures
        r@ == display_text(path@, root@, prefer_relative),
{
    let normalized_path = normalize_windows_display(path);
    let raw = if prefer_relative {
        let normalized_root = normalize_windows_display(root);
        strip_root(&normalized_path, &normalized_root)
    } else {
        normalized_path
    };
    normalize_windows_display(&raw)
}

/// The text of a path in a result row. Where it is shown from the root,
/// path and root are in normal form.
pub fn display_path_with_mode(path: &str, root: &str, prefer_relative: bool) -> (r: String)
    requires
        showable(path@, root@, prefer_relative),
    ensures
        r@ == display_text(path@, root@, prefer_relative),
{
    string_of(&display_chars(&chars_of(path), &chars_of(root), prefer_relative))
}

/// The text of a path in a result row, from the root where it lies under it.
pub fn display_path(path: &str, root: &str) -> (r: String)
    requires
        showable(path@, root@, true),
    ensures
        r@ == display_text(path@, root@, true),
{
    display_path_with_mode(path, root, true)
}

/// The positions at which `t` takes up the characters of `q` when both
/// are read from the left, each character of `q` at the first chance;
/// `at` is the position of the first character of `t`.
pub open spec fn greedy_positions(q: Seq<char>, t: Seq<char>, at: int) -> Seq<int>
    decreases t.len(),
{
    if q.len() == 0 || t.len() == 0 {
        Seq::empty()
    } else if q[0] == t[0] {
        seq![at] + greedy_positions(q.drop_first(), t.drop_first(), at + 1)
    } else {
        greedy_positions(q, t.drop_first(), at + 1)
    }
}

/// `at` is where `pat` first occurs in `text`.
pub open spec fn first_occurrence(text: Seq<char>, pat: Seq<char>, at: int) -> bool {
    occurs_at(text, pat, at) && forall|j: int| 0 <= j < at ==> !occurs_at(text, pat, j)
}

/// The positions of `from`, `from + 1`, .. up to `to`, that excluded.
pub open spec fn span(from: int, to: int) -> Seq<int> {
    Seq::new(
        if to > from {
            (to - from) as nat
        } else {
            0
        },
        |i: int| from + i,
    )
}

/// `hits` are the character positions of `text` that a term marks, ASCII
/// case apart: those of its first occurrence as a substring; without one,
/// those at which its characters are found in order; none where neither
/// exists, or the term is empty.
pub open spec fn literal_hits(text: Seq<char>, term: Seq<char>, hits: Seq<int>) -> bool {
    let t = lower(text);
    let q = lower(term);
    if q.len() == 0 {
        hits.len() == 0
    } else if contains(t, q) {
        exists|at: int| first_occurrence(t, q, at) && hits == span(at, at + q.len())
    } else if subsequence(q, t) {
        hits == greedy_positions(q, t, 0)
    } else {
        hits.len() == 0
    }
}

/// The numbers of a position list.
pub open spec fn ints(v: Seq<usize>) -> Seq<int> {
    Seq::new(v.len(), |i: int| v[i] as int)
}

/// The character positions of `text` that `query` marks.
pub fn find_match_positions(text: &Vec<char>, query: &Vec<char>) -> (r: Vec<usize>)
    ensures
        literal_hits(text@, query@, ints(r@)),
        forall|k: int| 0 <= k < r@.len() ==> r@[k] < text.len(),
{
    let mut out: Vec<usize> = Vec::new();
    assert(ints(out@) =~= Seq::<int>::empty());
    if query.len() == 0 {
        return out;
    }
    let t = to_lower(text);
    let q = to_lower(query);
    match find_first(&t, &q) {
        Some(at) => {
            let mut i: usize = 0;
            while i < q.len()
                invariant
                    i <= q.len(),
                    at + q.len() <= t.len(),
                    out@.len() == i,
                    forall|k: int| 0 <= k < i ==> out@[k] == at + k,
                decreases q.len() - i,
            {
                out.push(at + i);
                i += 1;
            }
            assert(ints(out@) =~= span(at as int, at + q.len()));
            assert(first_occurrence(t@, q@, at as int));
            return out;
        },
        None => {},
    }
    let mut qi: usize = 0;
    let mut ti: usize = 0;
    assert(q@.skip(0) =~= q@ && t@.skip(0) =~= t@);
    assert(ints(out@) + greedy_positions(q@, t@, 0) =~= greedy_positions(q@, t@, 0));
    while ti < t.len() && qi < q.len()
        invariant
            qi <= q.len(),
            ti <= t.len(),
            t.len() == text.len(),
            subsequence(q@, t@) == subsequence(q@.skip(qi as int), t@.skip(ti as int)),
            greedy_positions(q@, t@, 0) == ints(out@) + greedy_positions(
                q@.skip(qi as int),
                t@.skip(ti as int),
                ti as int,
            ),
            forall|k: int| 0 <= k < out@.len() ==> out@[k] < text.len(),
        decreases t.len() - ti,
    {
        assert(t@.skip(ti as int).drop_first() =~= t@.skip(ti + 1));
        assert(q@.skip(qi as int).drop_first() =~= q@.skip(qi + 1));
        if t[ti] == q[qi] {
            let ghost before = ints(out@);
            let ghost rest = greedy_positions(q@.skip(qi + 1), t@.skip(ti + 1), ti + 1);
            out.push(ti);
            assert(ints(out@) =~= before.push(ti as int));
            assert(before + (seq![ti as int] + rest) =~= before.push(ti as int) + rest);
            qi += 1;
        }
        ti += 1;
    }
    if qi == q.len() {
        assert(ints(out@) + Seq::<int>::empty() =~= ints(out@));
        out
    } else {
        let none: Vec<usize> = Vec::new();
        assert(ints(none@) =~= Seq::<int>::empty());
        none
    }
}

/// Which term of a query token is highlighted: none for an exclusion;
/// an exact term without its marker and anchors; an include term without
/// its anchors, or as it stands in regex mode. Empty terms are dropped.
pub open spec fn highlight_of(token: Seq<char>, use_regex: bool) -> Option<Seq<char>> {
    if token.len() > 0 && token[0] == '!' {
        None
    } else {
        let is_exact = token.len() > 0 && token[0] == '\'';
        let body = if is_exact {
            token.drop_first()
        } else {
            token
        };
        let core = if use_regex && !is_exact {
            body
        } else {
            let head = if body.len() > 0 && body[0] == '^' {
                body.drop_first()
            } else {
                body
            };
            if head.len() > 0 && head.last() == '$' {
                head.drop_last()
            } else {
                head
            }
        };
        if core.len() > 0 {
            Some(core)
        } else {
            None
        }
    }
}

/// The highlighted terms of the given tokens, in order.
pub open spec fn highlights(tokens: Seq<Seq<char>>, use_regex: bool) -> Seq<Seq<char>>
    decreases tokens.len(),
{
    if tokens.len() == 0 {
        Seq::empty()
    } else {
        let before = highlights(tokens.drop_last(), use_regex);
        match highlight_of(tokens.last(), use_regex) {
            Some(t) => before.push(t),
            None => before,
        }
    }
}

fn highlight_term(token: &Vec<char>, use_regex: bool) -> (r: Option<Vec<char>>)
    ensures
        match r {
            Some(t) => highlight_of(token@, use_regex) == Some(t@),
            None => highlight_of(token@, use_regex) is None,
        },
{
    if token.len() > 0 && token[0] == '!' {
        return None;
    }
    let is_exact = token.len() > 0 && token[0] == '\'';
    let mut from: usize = if is_exact {
        1
    } else {
        0
    };
    let mut to: usize = token.len();
    let ghost body = if is_exact {
        token@.drop_first()
    } else {
        token@
    };
    assert(body =~= token@.subrange(from as int, to as int));
    if !(use_regex && !is_exact) {
        if from < to && token[from] == '^' {
            from += 1;
        }
        let ghost head = if body.len() > 0 && body[0] == '^' {
            body.drop_first()
        } else {
            body
        };
        assert(head =~= token@.subrange(from as int, to as int));
        if from < to && token[to - 1] == '$' {
            to -= 1;
        }
        assert((if head.len() > 0 && head.last() == '$' {
            head.drop_last()
        } else {
            head
        }) =~= token@.subrange(from as int, to as int));
    }
    if from < to {
        Some(copy_range(token, from, to))
    } else {
        None
    }
}

/// The terms of a query that are highlighted.
pub fn highlight_terms(query: &str, use_regex: bool) -> (r: Vec<Vec<char>>)
    ensures
        views(r@) == highlights(pieces(query@, Delim::Space), use_regex),
{
    let tokens = split(&chars_of(query), Delim::Space);
    let ghost all = views(tokens@);
    let mut out: Vec<Vec<char>> = Vec::new();
    let mut i: usize = 0;
    assert(views(out@) =~= Seq::<Seq<char>>::empty());
    while i < tokens.len()
        invariant
            i <= tokens.len(),
            all == views(tokens@),
            views(out@) == highlights(all.take(i as int), use_regex),
        decreases tokens.len() - i,
    {
        assert(all.take(i + 1).drop_last() =~= all.take(i as int));
        assert(all.take(i + 1).last() == tokens@[i as int]@);
        match highlight_term(&tokens[i], use_regex) {
            Some(t) => {
                let ghost before = views(out@);
                let ghost term = t@;
                out.push(t);
                assert(views(out@) =~= before.push(term));
            },
            None => {},
        }
        i += 1;
    }
    assert(all.take(tokens.len() as int) =~= all);
    out
}

/// The byte offsets, start and end, of the matches of a valid pattern in
/// a text, from left to right.
pub uninterp spec fn regex_spans(pattern: Seq<char>, text: Seq<char>) -> Seq<(usize, usize)>;

/// Builds the pattern with `regex::RegexBuilder`, case-insensitively, and
/// walks `regex::Regex::find_iter` over the text. The result holds the
/// start and end of each match as byte offsets; a pattern that does not
/// compile has no match.
#[verifier::external_body]
pub(crate) fn pattern_spans(pattern: &str, text: &str) -> (r: Vec<(usize, usize)>)
    ensures
        r@ == (if regex_valid(pattern@) {
            regex_spans(pattern@, text@)
        } else {
            Seq::empty()
        }),
{
    match RegexBuilder::new(pattern).case_insensitive(true).build() {
        Ok(re) => re.find_iter(text).map(|m| (m.start(), m.end())).collect(),
        Err(_) => Vec::new(),
    }
}

/// How many characters of `text` begin before the byte offset `byte`.
pub open spec fn chars_before(text: Seq<char>, byte: int) -> int
    decreases text.len(),
{
    if text.len() == 0 {
        0
    } else {
        chars_before(text.drop_last(), byte) + if utf8_len(text.drop_last()) < byte {
            1int
        } else {
            0int
        }
    }
}

/// Turns a byte offset into a character position.
pub fn char_index_of_byte(text: &Vec<char>, byte: usize) -> (r: usize)
    ensures
        r == chars_before(text@, byte as int),
        r <= text.len(),
{
    let mut count: usize = 0;
    let mut offset: u128 = 0;
    let mut i: usize = 0;
    while i < text.len()
        invariant
            i <= text.len(),
            count <= i,
            count == chars_before(text@.take(i as int), byte as int),
            offset == utf8_len(text@.take(i as int)),
            0 <= offset <= 4 * i,
        decreases text.len() - i,
    {
        assert(text@.take(i + 1).drop_last() =~= text@.take(i as int));
        if offset < byte as u128 {
            count += 1;
        }
        let c: u32 = text[i] as u32;
        let w: u128 = if c < 0x80 {
            1
        } else if c < 0x800 {
            2
        } else if c < 0x10000 {
            3
        } else {
            4
        };
        offset = offset + w;
        i += 1;
    }
    assert(text@.take(text.len() as int) =~= text@);
    count
}

/// Position `p` of `text` lies in one of the spans that is not empty.
pub open spec fn in_spans(text: Seq<char>, spans: Seq<(usize, usize)>, p: int) -> bool {
    exists|k: int|
        0 <= k < spans.len() && (#[trigger] spans[k]).0 < spans[k].1 && chars_before(
            text,
            spans[k].0 as int,
        ) <= p < chars_before(text, spans[k].1 as int)
}

/// Marks in `mask`, shifted by `shift`, the characters of `text` that lie
/// in a span that is not empty.
pub fn mark_spans(mask: &mut Vec<bool>, shift: usize, text: &Vec<char>, spans: &Vec<(usize, usize)>)
    requires
        shift + text.len() <= old(mask).len(),
    ensures
        final(mask).len() == old(mask).len(),
        forall|p: int|
            0 <= p < old(mask).len() ==> final(mask)@[p] == (old(mask)@[p] || in_spans(
                text@,
                spans@,
                p - shift,
            )),
{
    let mut k: usize = 0;
    while k < spans.len()
        invariant
            k <= spans.len(),
            mask.len() == old(mask).len(),
            shift + text.len() <= mask.len(),
            forall|p: int|
                0 <= p < mask.len() ==> mask@[p] == (old(mask)@[p] || in_spans(
                    text@,
                    spans@.take(k as int),
                    p - shift,
                )),
        decreases spans.len() - k,
    {
        let (s, e) = spans[k];
        let ghost before = mask@;
        let ghost done = spans@.take(k as int);
        let ghost next = spans@.take(k + 1);
        assert(forall|j: int| 0 <= j < k ==> next[j] == done[j]);
        assert(next[k as int] == spans@[k as int]);
        let cs = char_index_of_byte(text, s);
        let ce = char_index_of_byte(text, e);
        if s < e && cs < ce {
            let mut p: usize = cs;
            while p < ce
                invariant
                    cs <= p <= ce,
                    ce <= text.len(),
                    before.len() == mask.len(),
                    mask.len() == old(mask).len(),
                    shift + text.len() <= mask.len(),
                    forall|x: int|
                        0 <= x < mask.len() ==> mask@[x] == (before[x] || (cs <= x - shift < p)),
                decreases ce - p,
            {
                mask.set(shift + p, true);
                p += 1;
            }
            assert(forall|x: int|
                0 <= x < mask.len() ==> #[trigger] mask@[x] == (before[x] || (cs <= x - shift
                    < ce)));
        } else {
            assert(forall|x: int|
                0 <= x < mask.len() ==> #[trigger] mask@[x] == (before[x] || (s < e && cs <= x
                    - shift < ce)));
        }
        proof {
            assert forall|x: int| 0 <= x < mask.len() implies mask@[x] == (old(mask)@[x]
                || in_spans(text@, next, x - shift)) by {
                let y = x - shift;
                let here = s < e && cs <= y < ce;
                assert(mask@[x] == (before[x] || here));
                assert(before[x] == (old(mask)@[x] || in_spans(text@, done, y)));
                if in_spans(text@, done, y) {
                    let j = choose|j: int|
                        0 <= j < done.len() && (#[trigger] done[j]).0 < done[j].1 && chars_before(
                            text@,
                            done[j].0 as int,
                        ) <= y < chars_before(text@, done[j].1 as int);
                    assert(next[j] == done[j]);
                    assert(in_spans(text@, next, y));
                }
                if here {
                    assert(next[k as int].0 < next[k as int].1);
                    assert(in_spans(text@, next, y));
                }
                if in_spans(text@, next, y) {
                    let j = choose|j: int|
                        0 <= j < next.len() && (#[trigger] next[j]).0 < next[j].1 && chars_before(
                            text@,
                            next[j].0 as int,
                        ) <= y < chars_before(text@, next[j].1 as int);
                    if j < k {
                        assert(done[j] == next[j]);
                        assert(in_spans(text@, done, y));
                    } else {
                        assert(here);
                    }
                }
            }
        }
        k += 1;
    }
    assert(spans@.take(spans.len() as int) =~= spans@);
}

/// Position `p` is one of `hits`.
pub open spec fn in_hits(hits: Seq<int>, p: int) -> bool {
    exists|k: int| 0 <= k < hits.len() && #[trigger] hits[k] == p
}

/// Marks in `mask`, shifted by `shift`, the given positions.
pub fn mark_hits(mask: &mut Vec<bool>, shift: usize, hits: &Vec<usize>)
    requires
        forall|k: int| 0 <= k < hits@.len() ==> shift + hits@[k] < old(mask).len(),
    ensures
        final(mask).len() == old(mask).len(),
        forall|p: int|
            0 <= p < old(mask).len() ==> final(mask)@[p] == (old(mask)@[p] || in_hits(
                ints(hits@),
                p - shift,
            )),
{
    let mut k: usize = 0;
    while k < hits.len()
        invariant
            k <= hits.len(),
            mask.len() == old(mask).len(),
            forall|j: int| 0 <= j < hits@.len() ==> shift + hits@[j] < mask.len(),
            forall|p: int|
                0 <= p < mask.len() ==> mask@[p] == (old(mask)@[p] || in_hits(
                    ints(hits@).take(k as int),
                    p - shift,
                )),
        decreases hits.len() - k,
    {
        let ghost before = mask@;
        let ghost done = ints(hits@).take(k as int);
        let ghost next = ints(hits@).take(k + 1);
        mask.set(shift + hits[k], true);
        proof {
            assert(forall|j: int| 0 <= j < k ==> next[j] == done[j]);
            assert(next[k as int] == hits@[k as int]);
            assert forall|x: int| 0 <= x < mask.len() implies mask@[x] == (old(mask)@[x]
                || in_hits(next, x - shift)) by {
                if in_hits(done, x - shift) {
                    let j = choose|j: int| 0 <= j < done.len() && #[trigger] done[j] == x - shift;
                    assert(next[j] == x - shift);
                }
                if in_hits(next, x - shift) {
                    let j = choose|j: int| 0 <= j < next.len() && #[trigger] next[j] == x - shift;
                    if j < k {
                        assert(done[j] == x - shift);
                    }
                }
            }
        }
        k += 1;
    }
    assert(ints(hits@).take(hits.len() as int) =~= ints(hits@));
}

/// The positions of a mask that are set, in increasing order.
pub fn marked_positions(mask: &Vec<bool>) -> (r: Vec<usize>)
    ensures
        forall|i: int, j: int| 0 <= i < j < r@.len() ==> r@[i] < r@[j],
        forall|k: int| 0 <= k < r@.len() ==> r@[k] < mask.len() && mask@[r@[k] as int],
        forall|p: int| 0 <= p < mask.len() && mask@[p] ==> r@.contains(p as usize),
{
    let mut out: Vec<usize> = Vec::new();
    let mut p: usize = 0;
    while p < mask.len()
        invariant
            p <= mask.len(),
            forall|i: int, j: int| 0 <= i < j < out@.len() ==> out@[i] < out@[j],
            forall|k: int| 0 <= k < out@.len() ==> out@[k] < p && mask@[out@[k] as int],
            forall|x: int| 0 <= x < p && mask@[x] ==> out@.contains(x as usize),
        decreases mask.len() - p,
    {
        if mask[p] {
            let ghost before = out@;
            out.push(p);
            proof {
                assert(out@[before.len() as int] == p);
                assert forall|x: int| 0 <= x < p + 1 && mask@[x] implies out@.contains(
                    x as usize,
                ) by {
                    if x < p {
                        let k = choose|k: int| 0 <= k < before.len() && before[k] == x as usize;
                        assert(out@[k] == x as usize);
                    }
                }
            }
        }
        p += 1;
    }
    out
}

/// The positions that `literal_hits` describes.
pub open spec fn literal_positions(text: Seq<char>, term: Seq<char>) -> Seq<int> {
    choose|hits: Seq<int>| literal_hits(text, term, hits)
}

/// `literal_hits` describes one list of positions only.
pub proof fn lemma_literal_hits_unique(text: Seq<char>, term: Seq<char>, hits: Seq<int>)
    requires
        literal_hits(text, term, hits),
    ensures
        literal_positions(text, term) == hits,
{
    let other = literal_positions(text, term);
    assert(literal_hits(text, term, other));
    let t = lower(text);
    let q = lower(term);
    if q.len() == 0 {
        assert(other =~= hits);
    } else if contains(t, q) {
        let a = choose|at: int| first_occurrence(t, q, at) && hits == span(at, at + q.len());
        let b = choose|at: int| first_occurrence(t, q, at) && other == span(at, at + q.len());
        assert(a == b) by {
            if a < b {
                assert(!occurs_at(t, q, a));
            }
            if b < a {
                assert(!occurs_at(t, q, b));
            }
        }
    } else if subsequence(q, t) {
    } else {
        assert(other =~= hits);
    }
}

/// The spans of a pattern in a text; none for a pattern that does not
/// compile.
pub open spec fn valid_spans(pattern: Seq<char>, text: Seq<char>) -> Seq<(usize, usize)> {
    if regex_valid(pattern) {
        regex_spans(pattern, text)
    } else {
        Seq::empty()
    }
}

/// The term marks position `p` of `text`.
pub open spec fn term_hit(term: Seq<char>, text: Seq<char>, use_regex: bool, p: int) -> bool {
    0 <= p < text.len() && if use_regex {
        in_spans(text, valid_spans(term, text), p)
    } else {
        in_hits(literal_positions(text, term), p)
    }
}

/// For each character of `text`, whether the term marks it.
pub fn term_mask(term: &Vec<char>, text: &Vec<char>, use_regex: bool) -> (mask: Vec<bool>)
    ensures
        mask.len() == text.len(),
        forall|p: int| 0 <= p < text.len() ==> mask@[p] == term_hit(term@, text@, use_regex, p),
{
    let mut mask: Vec<bool> = Vec::new();
    let mut i: usize = 0;
    while i < text.len()
        invariant
            i <= text.len(),
            mask.len() == i,
            forall|p: int| 0 <= p < i ==> !mask@[p],
        decreases text.len() - i,
    {
        mask.push(false);
        i += 1;
    }
    if use_regex {
        let pattern = string_of(term);
        let subject = string_of(text);
        let spans = pattern_spans(pattern.as_str(), subject.as_str());
        mark_spans(&mut mask, 0, text, &spans);
    } else {
        let hits = find_match_positions(text, term);
        proof {
            lemma_literal_hits_unique(text@, term@, ints(hits@));
        }
        mark_hits(&mut mask, 0, &hits);
    }
    mask
}

/// Where the file name begins in the displayed text.
pub open spec fn name_start(name: Seq<char>, display: Seq<char>) -> int {
    if display.len() >= name.len() {
        display.len() - name.len()
    } else {
        0
    }
}

/// The term marks position `p` of the displayed text: through its hits in
/// the file name, shifted to where the name begins, where it has any;
/// else through its hits in the displayed text itself.
pub open spec fn term_marks(
    term: Seq<char>,
    name: Seq<char>,
    display: Seq<char>,
    use_regex: bool,
    p: int,
) -> bool {
    if exists|x: int| term_hit(term, name, use_regex, x) {
        term_hit(term, name, use_regex, p - name_start(name, display))
    } else {
        term_hit(term, display, use_regex, p)
    }
}

/// One of the terms marks position `p`.
pub open spec fn marked(
    terms: Seq<Seq<char>>,
    name: Seq<char>,
    display: Seq<char>,
    use_regex: bool,
    p: int,
) -> bool {
    exists|i: int|
        0 <= i < terms.len() && term_marks(#[trigger] terms[i], name, display, use_regex, p)
}

/// The positions of the displayed path that the query highlights.
pub open spec fn highlighted(
    path: Seq<char>,
    root: Seq<char>,
    query: Seq<char>,
    prefer_relative: bool,
    use_regex: bool,
    p: int,
) -> bool {
    marked(
        highlights(pieces(query, Delim::Space), use_regex),
        file_name(path),
        display_text(path, root, prefer_relative),
        use_regex,
        p,
    )
}

fn marks_of(terms: &Vec<Vec<char>>, name: &Vec<char>, display: &Vec<char>, use_regex: bool) -> (r:
    Vec<usize>)
    ensures
        forall|i: int, j: int| 0 <= i < j < r@.len() ==> r@[i] < r@[j],
        forall|k: int|
            0 <= k < r@.len() ==> marked(views(terms@), name@, display@, use_regex, r@[k] as int),
        forall|p: int|
            marked(views(terms@), name@, display@, use_regex, p) ==> 0 <= p && r@.contains(
                p as usize,
            ),
{
    let size: usize = if display.len() >= name.len() {
        display.len()
    } else {
        name.len()
    };
    let start: usize = if display.len() >= name.len() {
        display.len() - name.len()
    } else {
        0
    };
    let ghost all = views(terms@);
    let mut mask: Vec<bool> = Vec::new();
    let mut i: usize = 0;
    while i < size
        invariant
            i <= size,
            mask.len() == i,
            forall|p: int| 0 <= p < i ==> !mask@[p],
        decreases size - i,
    {
        mask.push(false);
        i += 1;
    }
    let mut i: usize = 0;
    while i < terms.len()
        invariant
            i <= terms.len(),
            all == views(terms@),
            mask.len() == size,
            start == name_start(name@, display@),
            size >= display.len(),
            size == start + name.len(),
            forall|p: int|
                0 <= p < size ==> mask@[p] == marked(
                    all.take(i as int),
                    name@,
                    display@,
                    use_regex,
                    p,
                ),
        decreases terms.len() - i,
    {
        let term = &terms[i];
        let ghost before = mask@;
        let ghost done = all.take(i as int);
        let ghost next = all.take(i + 1);
        let name_mask = term_mask(term, name, use_regex);
        let in_name = marked_positions(&name_mask);
        if in_name.len() > 0 {
            assert(term_hit(term@, name@, use_regex, in_name@[0] as int));
            mark_hits(&mut mask, start, &in_name);
            proof {
                assert forall|p: int| 0 <= p < size implies mask@[p] == (before[p] || term_marks(
                    term@,
                    name@,
                    display@,
                    use_regex,
                    p,
                )) by {
                    let y = p - start;
                    if in_hits(ints(in_name@), y) {
                        let k = choose|k: int|
                            0 <= k < ints(in_name@).len() && #[trigger] ints(in_name@)[k] == y;
                        assert(in_name@[k] == y);
                    }
                    if term_hit(term@, name@, use_regex, y) {
                        assert(name_mask@[y]);
                        assert(in_name@.contains(y as usize));
                        let k = choose|k: int| 0 <= k < in_name@.len() && in_name@[k] == y as usize;
                        assert(ints(in_name@)[k] == y);
                    }
                }
            }
        } else {
            assert forall|x: int| !term_hit(term@, name@, use_regex, x) by {
                if term_hit(term@, name@, use_regex, x) {
                    assert(name_mask@[x]);
                    assert(in_name@.contains(x as usize));
                }
            }
            let text_mask = term_mask(term, display, use_regex);
            let in_text = marked_positions(&text_mask);
            mark_hits(&mut mask, 0, &in_text);
            proof {
                assert forall|p: int| 0 <= p < size implies mask@[p] == (before[p] || term_marks(
                    term@,
                    name@,
                    display@,
                    use_regex,
                    p,
                )) by {
                    if in_hits(ints(in_text@), p - 0) {
                        let k = choose|k: int|
                            0 <= k < ints(in_text@).len() && #[trigger] ints(in_text@)[k] == p - 0;
                        assert(in_text@[k] == p);
                    }
                    if term_hit(term@, display@, use_regex, p) {
                        assert(text_mask@[p]);
                        assert(in_text@.contains(p as usize));
                        let k = choose|k: int| 0 <= k < in_text@.len() && in_text@[k] == p as usize;
                        assert(ints(in_text@)[k] == p - 0);
                    }
                }
            }
        }
        proof {
            assert(forall|j: int| 0 <= j < i ==> next[j] == done[j]);
            assert(next[i as int] == term@);
            assert forall|p: int| 0 <= p < size implies mask@[p] == marked(
                next,
                name@,
                display@,
                use_regex,
                p,
            ) by {
                if marked(done, name@, display@, use_regex, p) {
                    let j = choose|j: int|
                        0 <= j < done.len() && term_marks(
                            #[trigger] done[j],
                            name@,
                            display@,
                            use_regex,
                            p,
                        );
                    assert(next[j] == done[j]);
                }
                if marked(next, name@, display@, use_regex, p) {
                    let j = choose|j: int|
                        0 <= j < next.len() && term_marks(
                            #[trigger] next[j],
                            name@,
                            display@,
                            use_regex,
                            p,
                        );
                    if j < i {
                        assert(done[j] == next[j]);
                    }
                }
            }
        }
        i += 1;
    }
    assert(all.take(terms.len() as int) =~= all);
    let out = marked_positions(&mask);
    proof {
        assert forall|p: int| marked(all, name@, display@, use_regex, p) implies 0 <= p
            && out@.contains(p as usize) by {
            let j = choose|j: int|
                0 <= j < all.len() && term_marks(#[trigger] all[j], name@, display@, use_regex, p);
            assert(0 <= p < size);
            assert(mask@[p]);
        }
    }
    out
}

/// The character positions of the displayed path that the query
/// highlights, in increasing order.
pub fn match_positions_for_path(
    path: &str,
    root: &str,
    query: &str,
    prefer_relative: bool,
    use_regex: bool,
) -> (r: Vec<usize>)
    requires
        showable(path@, root@, prefer_relative),
    ensures
        forall|i: int, j: int| 0 <= i < j < r@.len() ==> r@[i] < r@[j],
        forall|k: int|
            0 <= k < r@.len() ==> highlighted(
                path@,
                root@,
                query@,
                prefer_relative,
                use_regex,
                r@[k] as int,
            ),
        forall|p: int|
            highlighted(path@, root@, query@, prefer_relative, use_regex, p) ==> 0 <= p
                && r@.contains(p as usize),
{
    let chars = chars_of(path);
    let display = display_chars(&chars, &chars_of(root), prefer_relative);
    let name = file_name_of(&chars);
    let terms = highlight_terms(query, use_regex);
    marks_of(&terms, &name, &display, use_regex)
}

/// A result row shows why it matched: always for a blank query or one
/// without highlighted terms; else where the query highlights some
/// position of the displayed path.
pub open spec fn visible_match(
    path: Seq<char>,
    root: Seq<char>,
    query: Seq<char>,
    prefer_relative: bool,
) -> bool {
    blank(query) || highlights(pieces(query, Delim::Space), false).len() == 0 || exists|p: int|
        highlighted(path, root, query, prefer_relative, false, p)
}

/// Whether a result row shows why it matched.
pub fn has_visible_match(path: &str, root: &str, query: &str, prefer_relative: bool) -> (r: bool)
    requires
        showable(path@, root@, prefer_relative),
    ensures
        r == visible_match(path@, root@, query@, prefer_relative),
{
    if is_blank(&chars_of(query)) {
        return true;
    }
    if highlight_terms(query, false).len() == 0 {
        return true;
    }
    let positions = match_positions_for_path(path, root, query, prefer_relative, false);
    if positions.len() > 0 {
        assert(highlighted(path@, root@, query@, prefer_relative, false, positions@[0] as int));
        true
    } else {
        assert forall|p: int| !highlighted(path@, root@, query@, prefer_relative, false, p) by {
            if highlighted(path@, root@, query@, prefer_relative, false, p) {
                assert(positions@.contains(p as usize));
            }
        }
        false
    }
}

/// A text cut to `max_chars` characters: one that is longer keeps its
/// first `max_chars - 3` characters, followed by three dots.
pub open spec fn truncated(text: Seq<char>, max_chars: nat) -> Seq<char> {
    if text.len() <= max_chars {
        text
    } else {
        text.take(
            if max_chars >= 3 {
                max_chars - 3
            } else {
                0
            },
        ) + seq!['.', '.', '.']
    }
}

/// Cuts a text to at most `max_chars` characters.
pub fn truncate_chars(text: &Vec<char>, max_chars: usize) -> (r: Vec<char>)
    ensures
        r@ == truncated(text@, max_chars as nat),
{
    if text.len() <= max_chars {
        let out = copy_range(text, 0, text.len());
        assert(text@.subrange(0, text.len() as int) =~= text@);
        return out;
    }
    let keep: usize = if max_chars >= 3 {
        max_chars - 3
    } else {
        0
    };
    let mut out = copy_range(text, 0, keep);
    out.push('.');
    out.push('.');
    out.push('.');
    assert(out@ =~= text@.take(keep as int) + seq!['.', '.', '.']);
    out
}

} // verus!
