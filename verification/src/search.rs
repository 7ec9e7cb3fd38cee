//! Ranked search: the candidates that pass a query, each with a score, the
//! best first.

use vstd::prelude::*;
use fuzzy_matcher::skim::SkimMatcherV2;
use fuzzy_matcher::FuzzyMatcher;
use crate::paths::{file_name, file_name_of};
use crate::query::{
    literal_term_matches, matches_candidate, matches_exact_term, parse_query, parsed,
    path_passes, pattern_compiles, regex_valid, split_anchor, term_core, QueryModel,
    QuerySpec,
};
use crate::text::{
    append_chars, blank, chars_of, contains, has_infix, has_prefix, is_blank, lower, same_chars,
    starts_with, string_of, texts, to_lower,
};

verus! {

/// The score that the skim matcher gives a choice for a pattern, or `None`
/// where it finds no alignment.
pub uninterp spec fn skim_score(choice: Seq<char>, pattern: Seq<char>) -> Option<i64>;

/// Calls `FuzzyMatcher::fuzzy_match` on a `SkimMatcherV2` in its default
/// configuration. The score depends on the two texts alone.
#[verifier::external_body]
pub(crate) fn skim_fuzzy_score(choice: &str, pattern: &str) -> (score: Option<i64>)
    ensures
        score == skim_score(choice@, pattern@),
{
    SkimMatcherV2::default().fuzzy_match(choice, pattern)
}

/// The number of bytes that a character takes in UTF-8.
pub open spec fn utf8_width(c: char) -> int {
    let n = c as u32;
    if n < 0x80 {
        1
    } else if n < 0x800 {
        2
    } else if n < 0x10000 {
        3
    } else {
        4
    }
}

/// The number of bytes that a text takes in UTF-8.
pub open spec fn utf8_len(s: Seq<char>) -> int
    decreases s.len(),
{
    if s.len() == 0 {
        0
    } else {
        utf8_len(s.drop_last()) + utf8_width(s.last())
    }
}

/// The number of bytes that a text takes in UTF-8.
pub fn byte_len(s: &Vec<char>) -> (n: i128)
    ensures
        n == utf8_len(s@),
        0 <= n <= 4 * s.len(),
{
    let mut n: i128 = 0;
    let mut i: usize = 0;
    while i < s.len()
        invariant
            i <= s.len(),
            n == utf8_len(s@.take(i as int)),
            0 <= n <= 4 * i,
        decreases s.len() - i,
    {
        assert(s@.take(i + 1).drop_last() =~= s@.take(i as int));
        let c: u32 = s[i] as u32;
        let w: i128 = if c < 0x80 {
            1
        } else if c < 0x800 {
            2
        } else if c < 0x10000 {
            3
        } else {
            4
        };
        n = n + w;
        i += 1;
    }
    assert(s@.take(s.len() as int) =~= s@);
    n
}

/// The score of a candidate for which the matcher finds no alignment: 25
/// for a substring, 30 more for a prefix, and the shorter of the two byte
/// lengths; 0 for an empty query.
pub open spec fn fallback_value(query: Seq<char>, text: Seq<char>) -> int {
    if query.len() == 0 {
        0
    } else {
        let q = lower(query);
        let t = lower(text);
        (if contains(t, q) { 25int } else { 0int }) + (if starts_with(t, q) { 30int } else { 0int })
            + vstd::math::min(utf8_len(q), utf8_len(t))
    }
}

/// Scores a candidate for which the matcher finds no alignment.
pub fn fallback_score(query: &Vec<char>, text: &Vec<char>) -> (score: i128)
    ensures
        score == fallback_value(query@, text@),
        0 <= score <= 55 + 4 * query.len(),
{
    if query.len() == 0 {
        return 0;
    }
    let q = to_lower(query);
    let t = to_lower(text);
    let mut score: i128 = 0;
    if has_infix(&t, &q) {
        score = score + 25;
    }
    if has_prefix(&t, &q) {
        score = score + 30;
    }
    let ql = byte_len(&q);
    let tl = byte_len(&t);
    score + (if ql <= tl { ql } else { tl })
}

/// How many of the exact terms match the candidate.
pub open spec fn exact_hits(exacts: Seq<Seq<char>>, name: Seq<char>, full: Seq<char>) -> nat
    decreases exacts.len(),
{
    if exacts.len() == 0 {
        0
    } else {
        exact_hits(exacts.drop_last(), name, full) + if literal_term_matches(
            exacts.last(),
            name,
            full,
        ) {
            1nat
        } else {
            0nat
        }
    }
}

/// The score of one candidate. `fuzzy` is what the matcher said of the
/// lower-cased full path and the scoring query `q`; without an alignment
/// the fallback value stands in. A name equal to `q` adds 1000, else a full
/// path equal to `q` adds 900; each exact term that matches adds 800.
pub open spec fn score_value(
    fuzzy: Option<i64>,
    q: Seq<char>,
    exacts: Seq<Seq<char>>,
    name: Seq<char>,
    full: Seq<char>,
) -> int {
    let base = if q.len() == 0 {
        0
    } else {
        match fuzzy {
            Some(s) => s as int,
            None => fallback_value(q, full),
        }
    };
    let bonus = if q.len() > 0 && name == q {
        1000int
    } else if q.len() > 0 && full == q {
        900int
    } else {
        0int
    };
    base + bonus + 800 * exact_hits(exacts, name, full)
}

/// Scores one candidate from what the matcher said of it.
pub fn entry_score(
    fuzzy: Option<i64>,
    q: &Vec<char>,
    spec: &QuerySpec,
    name: &Vec<char>,
    full: &Vec<char>,
) -> (score: i128)
    ensures
        score == score_value(fuzzy, q@, spec@.exacts, name@, full@),
{
    let base: i128 = if q.len() == 0 {
        0
    } else {
        match fuzzy {
            Some(s) => s as i128,
            None => fallback_score(q, full),
        }
    };
    let bonus: i128 = if q.len() > 0 && same_chars(name, q) {
        1000
    } else if q.len() > 0 && same_chars(full, q) {
        900
    } else {
        0
    };
    let mut hits: usize = 0;
    let mut i: usize = 0;
    while i < spec.exact_terms.len()
        invariant
            i <= spec.exact_terms.len(),
            hits <= i,
            hits == exact_hits(spec@.exacts.take(i as int), name@, full@),
        decreases spec.exact_terms.len() - i,
    {
        let term = chars_of(spec.exact_terms[i].as_str());
        assert(spec@.exacts.take(i + 1).drop_last() =~= spec@.exacts.take(i as int));
        assert(spec@.exacts.take(i + 1).last() == term@);
        if matches_exact_term(&term, name, full) {
            hits += 1;
        }
        i += 1;
    }
    assert(spec@.exacts.take(spec.exact_terms.len() as int) =~= spec@.exacts);
    base + bonus + 800 * (hits as i128)
}

/// The cores of the include terms that have one, joined by single spaces.
pub open spec fn join_cores(terms: Seq<Seq<char>>) -> Seq<char>
    decreases terms.len(),
{
    if terms.len() == 0 {
        Seq::empty()
    } else {
        let before = join_cores(terms.drop_last());
        let core = term_core(terms.last());
        if core.len() == 0 {
            before
        } else if before.len() == 0 {
            core
        } else {
            before.push(' ') + core
        }
    }
}

/// The text that candidates are scored against: the joined include cores,
/// lower-cased; where there is none, the first exact term, lower-cased.
pub open spec fn scoring_text(m: QueryModel) -> Seq<char> {
    let joined = lower(join_cores(m.includes));
    if joined.len() == 0 && m.exacts.len() > 0 {
        lower(m.exacts[0])
    } else {
        joined
    }
}

/// The text that candidates are scored against.
pub fn scoring_query(spec: &QuerySpec) -> (q: Vec<char>)
    ensures
        q@ == scoring_text(spec@),
{
    let mut out: Vec<char> = Vec::new();
    let mut i: usize = 0;
    while i < spec.include_terms.len()
        invariant
            i <= spec.include_terms.len(),
            out@ == join_cores(spec@.includes.take(i as int)),
        decreases spec.include_terms.len() - i,
    {
        let term = chars_of(spec.include_terms[i].as_str());
        assert(spec@.includes.take(i + 1).drop_last() =~= spec@.includes.take(i as int));
        assert(spec@.includes.take(i + 1).last() == term@);
        let (_, _, core) = split_anchor(&term);
        if core.len() > 0 {
            if out.len() > 0 {
                out.push(' ');
            }
            append_chars(&mut out, &core);
            assert(Seq::<char>::empty() + core@ =~= core@);
        }
        i += 1;
    }
    assert(spec@.includes.take(spec.include_terms.len() as int) =~= spec@.includes);
    let joined = to_lower(&out);
    if joined.len() == 0 && spec.exact_terms.len() > 0 {
        let first = chars_of(spec.exact_terms[0].as_str());
        to_lower(&first)
    } else {
        joined
    }
}

/// The score of a path under a query.
pub open spec fn path_score(m: QueryModel, path: Seq<char>) -> int {
    score_value(
        skim_score(lower(path), scoring_text(m)),
        scoring_text(m),
        m.exacts,
        lower(file_name(path)),
        lower(path),
    )
}

/// Where a new score goes in a list that is in descending order: behind
/// every item that is at least as good.
pub open spec fn rank_pos(sorted: Seq<(Seq<char>, int)>, score: int) -> int
    decreases sorted.len(),
{
    if sorted.len() == 0 || sorted[0].1 < score {
        0
    } else {
        1 + rank_pos(sorted.drop_first(), score)
    }
}

pub open spec fn rank_insert(sorted: Seq<(Seq<char>, int)>, item: (Seq<char>, int)) -> Seq<
    (Seq<char>, int),
> {
    sorted.insert(rank_pos(sorted, item.1), item)
}

/// The candidates among `entries` that pass the query, each with its
/// score, in descending order of score; equal scores keep the order of
/// `entries`.
pub open spec fn ranking(m: QueryModel, entries: Seq<Seq<char>>, use_regex: bool) -> Seq<
    (Seq<char>, int),
>
    decreases entries.len(),
{
    if entries.len() == 0 {
        Seq::empty()
    } else {
        let before = ranking(m, entries.drop_last(), use_regex);
        let e = entries.last();
        if path_passes(m, e, use_regex) {
            rank_insert(before, (e, path_score(m, e)))
        } else {
            before
        }
    }
}

/// The list is in descending order of score.
pub open spec fn descending(list: Seq<(Seq<char>, int)>) -> bool {
    forall|i: int, j: int| 0 <= i < j < list.len() ==> list[i].1 >= list[j].1
}

/// The candidates that pass, each with its score, in the order of
/// `entries`.
pub open spec fn scored_survivors(m: QueryModel, entries: Seq<Seq<char>>, use_regex: bool) -> Seq<
    (Seq<char>, int),
>
    decreases entries.len(),
{
    if entries.len() == 0 {
        Seq::empty()
    } else {
        let before = scored_survivors(m, entries.drop_last(), use_regex);
        let e = entries.last();
        if path_passes(m, e, use_regex) {
            before.push((e, path_score(m, e)))
        } else {
            before
        }
    }
}

/// The place of a new score lies within the list, behind scores that are
/// at least as good and before a score that is worse.
pub proof fn lemma_rank_pos(sorted: Seq<(Seq<char>, int)>, score: int)
    ensures
        0 <= rank_pos(sorted, score) <= sorted.len(),
        forall|k: int| 0 <= k < rank_pos(sorted, score) ==> sorted[k].1 >= score,
        rank_pos(sorted, score) < sorted.len() ==> sorted[rank_pos(sorted, score)].1 < score,
    decreases sorted.len(),
{
    if sorted.len() > 0 && sorted[0].1 >= score {
        lemma_rank_pos(sorted.drop_first(), score);
        assert(forall|k: int|
            1 <= k <= sorted.drop_first().len() ==> sorted[k] == sorted.drop_first()[k - 1]);
    }
}

/// Inserting by rank keeps a list in descending order.
pub proof fn lemma_rank_insert_descending(sorted: Seq<(Seq<char>, int)>, item: (Seq<char>, int))
    requires
        descending(sorted),
    ensures
        descending(rank_insert(sorted, item)),
{
    lemma_rank_pos(sorted, item.1);
    let p = rank_pos(sorted, item.1);
    let out = rank_insert(sorted, item);
    assert forall|i: int, j: int| 0 <= i < j < out.len() implies out[i].1 >= out[j].1 by {
        if j < p {
            assert(out[i] == sorted[i] && out[j] == sorted[j]);
        } else if j == p {
            assert(out[i] == sorted[i]);
        } else if i < p {
            assert(out[i] == sorted[i] && out[j] == sorted[j - 1]);
        } else if i == p {
            assert(out[j] == sorted[j - 1]);
            assert(sorted[p].1 >= sorted[j - 1].1 || p == j - 1);
        } else {
            assert(out[i] == sorted[i - 1] && out[j] == sorted[j - 1]);
        }
    }
}

/// The ranking is in descending order of score.
pub proof fn law_ranking_is_descending(m: QueryModel, entries: Seq<Seq<char>>, use_regex: bool)
    ensures
        descending(ranking(m, entries, use_regex)),
    decreases entries.len(),
{
    if entries.len() > 0 {
        law_ranking_is_descending(m, entries.drop_last(), use_regex);
        if path_passes(m, entries.last(), use_regex) {
            lemma_rank_insert_descending(
                ranking(m, entries.drop_last(), use_regex),
                (entries.last(), path_score(m, entries.last())),
            );
        }
    }
}

/// The ranking holds the candidates that pass, each with its score and as
/// often as it occurs among the entries, and nothing else.
pub proof fn law_ranking_holds_the_survivors(
    m: QueryModel,
    entries: Seq<Seq<char>>,
    use_regex: bool,
)
    ensures
        ranking(m, entries, use_regex).to_multiset() == scored_survivors(
            m,
            entries,
            use_regex,
        ).to_multiset(),
        ranking(m, entries, use_regex).len() == scored_survivors(m, entries, use_regex).len(),
        ranking(m, entries, use_regex).len() <= entries.len(),
    decreases entries.len(),
{
    if entries.len() > 0 {
        let before = ranking(m, entries.drop_last(), use_regex);
        law_ranking_holds_the_survivors(m, entries.drop_last(), use_regex);
        if path_passes(m, entries.last(), use_regex) {
            let item = (entries.last(), path_score(m, entries.last()));
            lemma_rank_pos(before, item.1);
            vstd::seq_lib::to_multiset_insert(before, rank_pos(before, item.1), item);
            vstd::seq_lib::to_multiset_build(
                scored_survivors(m, entries.drop_last(), use_regex),
                item,
            );
        }
    }
}

/// What the scored survivors hold: for each entry that passes, the entry
/// with its score.
pub proof fn lemma_scored_survivors_members(
    m: QueryModel,
    entries: Seq<Seq<char>>,
    use_regex: bool,
    item: (Seq<char>, int),
)
    ensures
        scored_survivors(m, entries, use_regex).contains(item) <==> entries.contains(item.0)
            && path_passes(m, item.0, use_regex) && item.1 == path_score(m, item.0),
    decreases entries.len(),
{
    let all = scored_survivors(m, entries, use_regex);
    if entries.len() == 0 {
        assert(!all.contains(item));
        assert(!entries.contains(item.0));
    } else {
        let rest = entries.drop_last();
        let before = scored_survivors(m, rest, use_regex);
        let e = entries.last();
        lemma_scored_survivors_members(m, rest, use_regex, item);
        if entries.contains(item.0) {
            let k = choose|k: int| 0 <= k < entries.len() && entries[k] == item.0;
            if k < rest.len() {
                assert(rest[k] == item.0);
            }
        }
        if rest.contains(item.0) {
            let k = choose|k: int| 0 <= k < rest.len() && rest[k] == item.0;
            assert(entries[k] == item.0);
        }
        assert(entries[entries.len() - 1] == e);
        if all.contains(item) {
            let k = choose|k: int| 0 <= k < all.len() && all[k] == item;
            if path_passes(m, e, use_regex) {
                if k < before.len() {
                    assert(before[k] == item);
                }
            }
        }
        if before.contains(item) {
            let k = choose|k: int| 0 <= k < before.len() && before[k] == item;
            assert(all[k] == item);
        }
        if path_passes(m, e, use_regex) {
            assert(all[before.len() as int] == (e, path_score(m, e)));
        }
    }
}

/// The ranking holds an item exactly where its path is an entry that
/// passes the query and its score is that of the path.
pub proof fn law_ranking_members(
    m: QueryModel,
    entries: Seq<Seq<char>>,
    use_regex: bool,
    item: (Seq<char>, int),
)
    ensures
        ranking(m, entries, use_regex).contains(item) <==> entries.contains(item.0) && path_passes(
            m,
            item.0,
            use_regex,
        ) && item.1 == path_score(m, item.0),
{
    law_ranking_holds_the_survivors(m, entries, use_regex);
    lemma_scored_survivors_members(m, entries, use_regex, item);
    vstd::seq_lib::to_multiset_contains(ranking(m, entries, use_regex), item);
    vstd::seq_lib::to_multiset_contains(scored_survivors(m, entries, use_regex), item);
}

/// Searching a growing index: where `early` is a part of the entries of
/// `late`, and the limit cuts nothing off, the results over `early` are
/// the results over `late` whose paths are in `early`; and they are not
/// empty as soon as `early` holds one entry that passes the query.
pub proof fn law_search_grows_with_the_index(
    query: Seq<char>,
    early: Seq<Seq<char>>,
    late: Seq<Seq<char>>,
    limit: nat,
    use_regex: bool,
)
    requires
        forall|x: Seq<char>| early.contains(x) ==> late.contains(x),
        limit >= late.len(),
        limit >= early.len(),
        !blank(query),
        limit > 0,
        !(use_regex && first_invalid(parsed(query).includes) is Some),
    ensures
        search_outcome(query, early, limit, use_regex) is Ok,
        search_outcome(query, late, limit, use_regex) is Ok,
        forall|item: (Seq<char>, int)|
            search_outcome(query, early, limit, use_regex)->Ok_0.contains(item) <==> early.contains(
                item.0,
            ) && search_outcome(query, late, limit, use_regex)->Ok_0.contains(item),
        forall|x: Seq<char>|
            early.contains(x) && path_passes(parsed(query), x, use_regex) ==> search_outcome(
                query,
                early,
                limit,
                use_regex,
            )->Ok_0.len() > 0,
{
    let m = parsed(query);
    let a = ranking(m, early, use_regex);
    let b = ranking(m, late, use_regex);
    law_ranking_holds_the_survivors(m, early, use_regex);
    law_ranking_holds_the_survivors(m, late, use_regex);
    assert(a.take(vstd::math::min(limit as int, a.len() as int)) =~= a);
    assert(b.take(vstd::math::min(limit as int, b.len() as int)) =~= b);
    assert forall|item: (Seq<char>, int)| a.contains(item) <==> early.contains(item.0)
        && b.contains(item) by {
        law_ranking_members(m, early, use_regex, item);
        law_ranking_members(m, late, use_regex, item);
    }
    assert forall|x: Seq<char>| early.contains(x) && path_passes(m, x, use_regex) implies a.len()
        > 0 by {
        law_ranking_members(m, early, use_regex, (x, path_score(m, x)));
    }
}

/// A search never returns more than `limit` results, nor more than there
/// are entries, and what it returns is in descending order of score.
pub proof fn law_search_is_bounded_and_descending(
    query: Seq<char>,
    entries: Seq<Seq<char>>,
    limit: nat,
    use_regex: bool,
)
    ensures
        search_outcome(query, entries, limit, use_regex) matches Ok(list) ==> list.len() <= limit
            && list.len() <= entries.len() && descending(list),
{
    law_ranking_is_descending(parsed(query), entries, use_regex);
    law_ranking_holds_the_survivors(parsed(query), entries, use_regex);
}

/// A result list as texts and mathematical scores.
pub open spec fn ranked_view(v: Seq<(String, i128)>) -> Seq<(Seq<char>, int)> {
    Seq::new(v.len(), |i: int| (v[i].0@, v[i].1 as int))
}

/// Puts a candidate into a result list at the place of its score.
pub fn insert_ranked(out: &mut Vec<(String, i128)>, path: String, score: i128)
    ensures
        ranked_view(final(out)@) == rank_insert(ranked_view(old(out)@), (path@, score as int)),
{
    let ghost list = ranked_view(out@);
    let mut p: usize = 0;
    assert(list.skip(0) =~= list);
    while p < out.len() && out[p].1 >= score
        invariant
            p <= out.len(),
            out@ == old(out)@,
            list == ranked_view(out@),
            rank_pos(list, score as int) == p + rank_pos(list.skip(p as int), score as int),
        decreases out.len() - p,
    {
        assert(list.skip(p as int).drop_first() =~= list.skip(p + 1));
        assert(list.skip(p as int)[0] == list[p as int]);
        p += 1;
    }
    assert(p < out.len() ==> list.skip(p as int)[0] == list[p as int]);
    out.insert(p, (path, score));
    assert(ranked_view(out@) =~= list.insert(p as int, (path@, score as int)));
}

/// The first term that is no valid pattern, by position.
pub open spec fn first_invalid(terms: Seq<Seq<char>>) -> Option<int>
    decreases terms.len(),
{
    if terms.len() == 0 {
        None
    } else {
        match first_invalid(terms.drop_last()) {
            Some(i) => Some(i),
            None => if regex_valid(terms.last()) {
                None
            } else {
                Some(terms.len() - 1)
            },
        }
    }
}

/// A query that cannot be run: in regex mode, an include term that is no
/// valid regular expression.
#[derive(Debug, Clone)]
pub struct SearchError {
    pub term: String,
}

impl SearchError {
    /// A one-line description that names the offending term.
    pub fn message(&self) -> (text: String)
        ensures
            text@ == "invalid regex: "@ + self.term@,
    {
        String::from_str("invalid regex: ").concat(self.term.as_str())
    }
}

/// What a search returns. A blank query or a limit of zero gives the empty
/// list. In regex mode the first include term that does not compile fails
/// the whole query. Otherwise: the ranking, cut to `limit`.
pub open spec fn search_outcome(
    query: Seq<char>,
    entries: Seq<Seq<char>>,
    limit: nat,
    use_regex: bool,
) -> Result<Seq<(Seq<char>, int)>, Seq<char>> {
    let m = parsed(query);
    if blank(query) || limit == 0 {
        Ok(Seq::empty())
    } else if use_regex && first_invalid(m.includes) is Some {
        Err(m.includes[first_invalid(m.includes).unwrap()])
    } else {
        let all = ranking(m, entries, use_regex);
        Ok(all.take(vstd::math::min(limit as int, all.len() as int)))
    }
}

/// The first include term of `spec` that does not compile, if any.
pub fn find_invalid_term(spec: &QuerySpec) -> (r: Option<usize>)
    ensures
        match r {
            Some(i) => first_invalid(spec@.includes) == Some(i as int) && i
                < spec.include_terms.len(),
            None => first_invalid(spec@.includes) is None,
        },
{
    let mut i: usize = 0;
    while i < spec.include_terms.len()
        invariant
            i <= spec.include_terms.len(),
            first_invalid(spec@.includes.take(i as int)) is None,
        decreases spec.include_terms.len() - i,
    {
        assert(spec@.includes.take(i + 1).drop_last() =~= spec@.includes.take(i as int));
        assert(spec@.includes.take(i + 1).last() == spec.include_terms@[i as int]@);
        if !pattern_compiles(spec.include_terms[i].as_str()) {
            proof {
                lemma_first_invalid_prefix(spec@.includes, i + 1);
            }
            return Some(i);
        }
        i += 1;
    }
    assert(spec@.includes.take(spec.include_terms.len() as int) =~= spec@.includes);
    None
}

/// An invalid term found in a prefix of the list is the first one of the
/// whole list.
pub proof fn lemma_first_invalid_prefix(terms: Seq<Seq<char>>, n: int)
    requires
        0 <= n <= terms.len(),
        first_invalid(terms.take(n)) is Some,
    ensures
        first_invalid(terms) == first_invalid(terms.take(n)),
    decreases terms.len() - n,
{
    if n < terms.len() {
        assert(terms.take(n + 1).drop_last() =~= terms.take(n));
        lemma_first_invalid_prefix(terms, n + 1);
    } else {
        assert(terms.take(n) =~= terms);
    }
}

/// Runs a query over `entries` and returns at most `limit` candidates with
/// their scores, the best first. A blank query or a limit of zero gives
/// the empty list. In regex mode an include term that is no valid regular
/// expression fails the whole query with one error that names the term: no
/// list is returned then, not even one filtered by the other terms.
pub fn search_entries(query: &str, entries: &Vec<String>, limit: usize, use_regex: bool) -> (r:
    Result<Vec<(String, i128)>, SearchError>)
    ensures
        match search_outcome(query@, texts(entries@), limit as nat, use_regex) {
            Ok(list) => r is Ok && ranked_view(r->Ok_0@) == list && r->Ok_0@.len() == list.len(),
            Err(term) => r is Err && r->Err_0.term@ == term,
        },
        r is Ok ==> r->Ok_0.len() <= limit,
        r matches Ok(list) ==> forall|k: int|
            0 <= k < list@.len() ==> texts(entries@).contains(#[trigger] list@[k].0@),
{
    let chars = chars_of(query);
    if is_blank(&chars) || limit == 0 {
        let out: Vec<(String, i128)> = Vec::new();
        assert(ranked_view(out@) =~= Seq::empty());
        return Ok(out);
    }
    let spec = parse_query(query);
    if use_regex {
        match find_invalid_term(&spec) {
            Some(i) => {
                return Err(SearchError { term: spec.include_terms[i].clone() });
            },
            None => {},
        }
    }
    let q = scoring_query(&spec);
    let q_text = string_of(&q);
    let mut out: Vec<(String, i128)> = Vec::new();
    let ghost all = texts(entries@);
    let mut i: usize = 0;
    assert(ranked_view(out@) =~= Seq::empty());
    while i < entries.len()
        invariant
            i <= entries.len(),
            all == texts(entries@),
            spec@ == parsed(query@),
            q@ == scoring_text(spec@),
            q_text@ == q@,
            ranked_view(out@) == ranking(spec@, all.take(i as int), use_regex),
        decreases entries.len() - i,
    {
        assert(all.take(i + 1).drop_last() =~= all.take(i as int));
        assert(all.take(i + 1).last() == entries@[i as int]@);
        let path = chars_of(entries[i].as_str());
        let name = to_lower(&file_name_of(&path));
        let full = to_lower(&path);
        if matches_candidate(&spec, &name, &full, use_regex) {
            let fuzzy = if q.len() > 0 {
                let full_text = string_of(&full);
                skim_fuzzy_score(full_text.as_str(), q_text.as_str())
            } else {
                None
            };
            let score = entry_score(fuzzy, &q, &spec, &name, &full);
            insert_ranked(&mut out, entries[i].clone(), score);
        }
        i += 1;
    }
    assert(all.take(entries.len() as int) =~= all);
    let ghost full_list = ranked_view(out@);
    out.truncate(limit);
    assert(ranked_view(out@) =~= full_list.take(
        vstd::math::min(limit as int, full_list.len() as int),
    ));
    proof {
        assert forall|k: int| 0 <= k < out@.len() implies all.contains(#[trigger] out@[k].0@) by {
            let item = ranked_view(out@)[k];
            assert(full_list[k] == item);
            law_ranking_members(spec@, all, use_regex, item);
        }
    }
    Ok(out)
}

} // verus!
