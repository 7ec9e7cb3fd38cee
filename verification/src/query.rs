//! The query language: white-space separated tokens, `'term` for a literal
//! term, `!term` for an exclusion, `^` and `$` as anchors, and the test of
//! one candidate path against a compiled query.

use vstd::prelude::*;
use regex::RegexBuilder;
use crate::paths::{file_name, file_name_of};
use crate::text::{
    chars_of, contains, copy_range, ends_with, has_infix, has_prefix, has_suffix,
    is_subsequence, lower, pieces, same_chars, split, starts_with, string_of, subsequence,
    texts, to_lower, views, Delim,
};

verus! {

/// The terms of one query, by role.
#[derive(Debug, Clone)]
pub struct QuerySpec {
    pub include_terms: Vec<String>,
    pub exact_terms: Vec<String>,
    pub exclude_terms: Vec<String>,
}

/// What a `QuerySpec` holds, as plain texts.
pub struct QueryModel {
    pub includes: Seq<Seq<char>>,
    pub exacts: Seq<Seq<char>>,
    pub excludes: Seq<Seq<char>>,
}

impl View for QuerySpec {
    type V = QueryModel;

    open spec fn view(&self) -> QueryModel {
        QueryModel {
            includes: texts(self.include_terms@),
            exacts: texts(self.exact_terms@),
            excludes: texts(self.exclude_terms@),
        }
    }
}

/// The role a token plays in a query.
#[derive(Clone, Copy, PartialEq, Eq, Structural, Debug)]
pub enum TermKind {
    Include,
    Exact,
    Exclude,
}

/// The role of a token, or `None` for a marker that stands alone.
pub open spec fn token_kind(t: Seq<char>) -> Option<TermKind> {
    if t.len() > 1 && t[0] == '\'' {
        Some(TermKind::Exact)
    } else if t.len() > 1 && t[0] == '!' {
        Some(TermKind::Exclude)
    } else if t.len() == 1 && (t[0] == '!' || t[0] == '\'') {
        None
    } else {
        Some(TermKind::Include)
    }
}

/// The term a token stands for: the token without its marker.
pub open spec fn token_term(t: Seq<char>) -> Seq<char> {
    match token_kind(t) {
        Some(TermKind::Exact) | Some(TermKind::Exclude) => t.drop_first(),
        _ => t,
    }
}

/// The terms of the given role among `tokens`, in order.
pub open spec fn terms_of(tokens: Seq<Seq<char>>, kind: TermKind) -> Seq<Seq<char>>
    decreases tokens.len(),
{
    if tokens.len() == 0 {
        Seq::empty()
    } else {
        let before = terms_of(tokens.drop_last(), kind);
        if token_kind(tokens.last()) == Some(kind) {
            before.push(token_term(tokens.last()))
        } else {
            before
        }
    }
}

/// The role of one token.
pub fn classify_token(t: &Vec<char>) -> (k: Option<TermKind>)
    ensures
        k == token_kind(t@),
{
    if t.len() > 1 && t[0] == '\'' {
        Some(TermKind::Exact)
    } else if t.len() > 1 && t[0] == '!' {
        Some(TermKind::Exclude)
    } else if t.len() == 1 && (t[0] == '!' || t[0] == '\'') {
        None
    } else {
        Some(TermKind::Include)
    }
}

/// The query that a text spells.
pub open spec fn parsed(query: Seq<char>) -> QueryModel {
    QueryModel {
        includes: terms_of(pieces(query, Delim::Space), TermKind::Include),
        exacts: terms_of(pieces(query, Delim::Space), TermKind::Exact),
        excludes: terms_of(pieces(query, Delim::Space), TermKind::Exclude),
    }
}

/// Splits a query at white space and sorts its tokens into include, exact
/// and exclude terms; a lone `!` or `'` is dropped.
pub fn parse_query(query: &str) -> (spec: QuerySpec)
    ensures
        spec@ == parsed(query@),
{
    let chars = chars_of(query);
    let tokens = split(&chars, Delim::Space);
    let mut include_terms: Vec<String> = Vec::new();
    let mut exact_terms: Vec<String> = Vec::new();
    let mut exclude_terms: Vec<String> = Vec::new();
    let ghost all = pieces(query@, Delim::Space);
    let mut i: usize = 0;
    assert(texts(include_terms@) =~= Seq::<Seq<char>>::empty());
    assert(texts(exact_terms@) =~= Seq::<Seq<char>>::empty());
    assert(texts(exclude_terms@) =~= Seq::<Seq<char>>::empty());
    while i < tokens.len()
        invariant
            i <= tokens.len(),
            views(tokens@) == all,
            texts(include_terms@) == terms_of(all.take(i as int), TermKind::Include),
            texts(exact_terms@) == terms_of(all.take(i as int), TermKind::Exact),
            texts(exclude_terms@) == terms_of(all.take(i as int), TermKind::Exclude),
        decreases tokens.len() - i,
    {
        let token = &tokens[i];
        assert(all.take(i + 1).drop_last() =~= all.take(i as int));
        assert(all.take(i + 1).last() == token@);
        match classify_token(token) {
            Some(TermKind::Exact) => {
                let ghost before = texts(exact_terms@);
                let term = copy_range(token, 1, token.len());
                assert(term@ =~= token@.drop_first());
                exact_terms.push(string_of(&term));
                assert(texts(exact_terms@) =~= before.push(term@));
            },
            Some(TermKind::Exclude) => {
                let ghost before = texts(exclude_terms@);
                let term = copy_range(token, 1, token.len());
                assert(term@ =~= token@.drop_first());
                exclude_terms.push(string_of(&term));
                assert(texts(exclude_terms@) =~= before.push(term@));
            },
            Some(TermKind::Include) => {
                let ghost before = texts(include_terms@);
                include_terms.push(string_of(token));
                assert(texts(include_terms@) =~= before.push(token@));
            },
            None => {},
        }
        i += 1;
    }
    assert(all.take(tokens.len() as int) =~= all);
    QuerySpec { include_terms, exact_terms, exclude_terms }
}

/// The term asks for a match at the start of the candidate.
pub open spec fn anchored_start(term: Seq<char>) -> bool {
    term.len() > 0 && term[0] == '^'
}

/// The term asks for a match at the end of the candidate.
pub open spec fn anchored_end(term: Seq<char>) -> bool {
    term.len() > 0 && term.last() == '$'
}

/// The term without its anchors.
pub open spec fn term_core(term: Seq<char>) -> Seq<char> {
    term.subrange(
        if anchored_start(term) { 1int } else { 0int },
        if anchored_end(term) { term.len() - 1 } else { term.len() as int },
    )
}

/// Splits a term into its two anchors and its core.
pub fn split_anchor(term: &Vec<char>) -> (r: (bool, bool, Vec<char>))
    ensures
        r.0 == anchored_start(term@),
        r.1 == anchored_end(term@),
        r.2@ == term_core(term@),
{
    let at_start = term.len() > 0 && term[0] == '^';
    let at_end = term.len() > 0 && term[term.len() - 1] == '$';
    let from: usize = if at_start { 1 } else { 0 };
    let to: usize = if at_end { term.len() - 1 } else { term.len() };
    (at_start, at_end, copy_range(term, from, to))
}

/// A literal term against one text: equality when anchored at both ends, a
/// prefix or suffix when anchored at one, a substring otherwise. A term
/// with an empty core matches nothing.
pub open spec fn literal_match(term: Seq<char>, text: Seq<char>) -> bool {
    let core = term_core(term);
    core.len() > 0 && if anchored_start(term) && anchored_end(term) {
        text == core
    } else if anchored_start(term) {
        starts_with(text, core)
    } else if anchored_end(term) {
        ends_with(text, core)
    } else {
        contains(text, core)
    }
}

/// Tests a literal term against one text.
pub fn matches_anchored_literal(term: &Vec<char>, text: &Vec<char>) -> (r: bool)
    ensures
        r == literal_match(term@, text@),
{
    let (at_start, at_end, core) = split_anchor(term);
    if core.len() == 0 {
        return false;
    }
    if at_start && at_end {
        same_chars(text, &core)
    } else if at_start {
        has_prefix(text, &core)
    } else if at_end {
        has_suffix(text, &core)
    } else {
        has_infix(text, &core)
    }
}

/// A literal term, lower-cased, against the name or the full path.
pub open spec fn literal_term_matches(term: Seq<char>, name: Seq<char>, full: Seq<char>) -> bool {
    literal_match(lower(term), name) || literal_match(lower(term), full)
}

/// Tests an exact term against the name and the full path of a candidate.
pub fn matches_exact_term(term: &Vec<char>, name: &Vec<char>, full: &Vec<char>) -> (r: bool)
    ensures
        r == literal_term_matches(term@, name@, full@),
{
    let t = to_lower(term);
    matches_anchored_literal(&t, name) || matches_anchored_literal(&t, full)
}

/// Tests an exclude term against the name and the full path of a candidate.
pub fn matches_exclusion_term(term: &Vec<char>, name: &Vec<char>, full: &Vec<char>) -> (r: bool)
    ensures
        r == literal_term_matches(term@, name@, full@),
{
    let t = to_lower(term);
    matches_anchored_literal(&t, name) || matches_anchored_literal(&t, full)
}

/// Fuzzy match without regard to ASCII case: a substring, or the
/// characters of the query in order with gaps.
pub open spec fn fuzzy_match(query: Seq<char>, text: Seq<char>) -> bool {
    contains(lower(text), lower(query)) || subsequence(lower(query), lower(text))
}

/// Tests a query against a text fuzzily, ASCII case apart.
pub fn is_fuzzy_match(query: &Vec<char>, text: &Vec<char>) -> (r: bool)
    ensures
        r == fuzzy_match(query@, text@),
{
    let q = to_lower(query);
    let t = to_lower(text);
    has_infix(&t, &q) || is_subsequence(&q, &t)
}

/// An include term in fuzzy mode. An anchor first asks that the name or
/// the full path begin (or end) with the first (or last) character of the
/// core; then the core must match one of the two fuzzily.
pub open spec fn fuzzy_term_matches(term: Seq<char>, name: Seq<char>, full: Seq<char>) -> bool {
    let t = lower(term);
    let core = term_core(t);
    &&& core.len() > 0
    &&& anchored_start(t) ==> (name.len() > 0 && name[0] == core[0]) || (full.len() > 0 && full[0]
        == core[0])
    &&& anchored_end(t) ==> (name.len() > 0 && name.last() == core.last()) || (full.len() > 0
        && full.last() == core.last())
    &&& fuzzy_match(core, name) || fuzzy_match(core, full)
}

/// Tests an include term in fuzzy mode.
pub fn matches_fuzzy_term(term: &Vec<char>, name: &Vec<char>, full: &Vec<char>) -> (r: bool)
    ensures
        r == fuzzy_term_matches(term@, name@, full@),
{
    let t = to_lower(term);
    let (at_start, at_end, core) = split_anchor(&t);
    if core.len() == 0 {
        return false;
    }
    if at_start {
        let c = core[0];
        if !((name.len() > 0 && name[0] == c) || (full.len() > 0 && full[0] == c)) {
            return false;
        }
    }
    if at_end {
        let c = core[core.len() - 1];
        if !((name.len() > 0 && name[name.len() - 1] == c) || (full.len() > 0 && full[full.len()
            - 1] == c)) {
            return false;
        }
    }
    is_fuzzy_match(&core, name) || is_fuzzy_match(&core, full)
}

/// Whether the pattern compiles as a case-insensitive regular expression.
pub uninterp spec fn regex_valid(pattern: Seq<char>) -> bool;

/// Whether the compiled case-insensitive pattern matches somewhere in the
/// text.
pub uninterp spec fn regex_matches(pattern: Seq<char>, text: Seq<char>) -> bool;

/// Calls `regex::RegexBuilder::build` on the pattern with case
/// insensitivity switched on. The result says whether the build succeeded,
/// which depends on the pattern alone.
#[verifier::external_body]
pub(crate) fn pattern_compiles(pattern: &str) -> (ok: bool)
    ensures
        ok == regex_valid(pattern@),
{
    RegexBuilder::new(pattern).case_insensitive(true).build().is_ok()
}

/// Builds the pattern as `pattern_compiles` does and calls
/// `regex::Regex::is_match` on the text. A pattern that does not compile
/// matches nothing; otherwise the answer is that of the regular expression,
/// which depends on pattern and text alone.
#[verifier::external_body]
pub(crate) fn pattern_found(pattern: &str, text: &str) -> (hit: bool)
    ensures
        hit == (regex_valid(pattern@) && regex_matches(pattern@, text@)),
{
    match RegexBuilder::new(pattern).case_insensitive(true).build() {
        Ok(re) => re.is_match(text),
        Err(_) => false,
    }
}

/// An include term in regex mode: the whole term is the pattern, and it
/// must be valid and match the name or the full path.
pub open spec fn regex_term_matches(term: Seq<char>, name: Seq<char>, full: Seq<char>) -> bool {
    regex_valid(term) && (regex_matches(term, name) || regex_matches(term, full))
}

/// An include term against the name and the full path of a candidate.
pub open spec fn include_term_matches(
    term: Seq<char>,
    name: Seq<char>,
    full: Seq<char>,
    use_regex: bool,
) -> bool {
    if use_regex {
        regex_term_matches(term, name, full)
    } else {
        fuzzy_term_matches(term, name, full)
    }
}

/// Tests an include term, as a regular expression or fuzzily.
pub fn matches_include_term(term: &str, name: &Vec<char>, full: &Vec<char>, use_regex: bool) -> (r:
    bool)
    ensures
        r == include_term_matches(term@, name@, full@, use_regex),
{
    if use_regex {
        let name_text = string_of(name);
        if pattern_found(term, name_text.as_str()) {
            return true;
        }
        let full_text = string_of(full);
        pattern_found(term, full_text.as_str())
    } else {
        let t = chars_of(term);
        matches_fuzzy_term(&t, name, full)
    }
}

/// A candidate, given by its lower-cased name and full path, passes the
/// query: no exclude term matches, every exact term matches, every include
/// term matches.
pub open spec fn candidate_passes(
    spec: QueryModel,
    name: Seq<char>,
    full: Seq<char>,
    use_regex: bool,
) -> bool {
    &&& forall|i: int|
        0 <= i < spec.excludes.len() ==> !literal_term_matches(
            #[trigger] spec.excludes[i],
            name,
            full,
        )
    &&& forall|i: int|
        0 <= i < spec.exacts.len() ==> literal_term_matches(
            #[trigger] spec.exacts[i],
            name,
            full,
        )
    &&& forall|i: int|
        0 <= i < spec.includes.len() ==> include_term_matches(
            #[trigger] spec.includes[i],
            name,
            full,
            use_regex,
        )
}

/// A path passes the query: its file name and its full text, both
/// lower-cased, are the candidate.
pub open spec fn path_passes(spec: QueryModel, path: Seq<char>, use_regex: bool) -> bool {
    candidate_passes(spec, lower(file_name(path)), lower(path), use_regex)
}

/// Tests a candidate, given by its lower-cased name and full path, against a query.
pub fn matches_candidate(
    spec: &QuerySpec,
    name: &Vec<char>,
    full: &Vec<char>,
    use_regex: bool,
) -> (r: bool)
    ensures
        r == candidate_passes(spec@, name@, full@, use_regex),
{
    let mut i: usize = 0;
    while i < spec.exclude_terms.len()
        invariant
            i <= spec.exclude_terms.len(),
            forall|k: int|
                0 <= k < i ==> !literal_term_matches(#[trigger] spec@.excludes[k], name@, full@),
        decreases spec.exclude_terms.len() - i,
    {
        let term = chars_of(spec.exclude_terms[i].as_str());
        assert(spec@.excludes[i as int] == term@);
        if matches_exclusion_term(&term, name, full) {
            return false;
        }
        i += 1;
    }
    let mut i: usize = 0;
    while i < spec.exact_terms.len()
        invariant
            i <= spec.exact_terms.len(),
            forall|k: int|
                0 <= k < i ==> literal_term_matches(#[trigger] spec@.exacts[k], name@, full@),
        decreases spec.exact_terms.len() - i,
    {
        let term = chars_of(spec.exact_terms[i].as_str());
        assert(spec@.exacts[i as int] == term@);
        if !matches_exact_term(&term, name, full) {
            return false;
        }
        i += 1;
    }
    let mut i: usize = 0;
    while i < spec.include_terms.len()
        invariant
            i <= spec.include_terms.len(),
            forall|k: int|
                0 <= k < i ==> include_term_matches(
                    #[trigger] spec@.includes[k],
                    name@,
                    full@,
                    use_regex,
                ),
        decreases spec.include_terms.len() - i,
    {
        assert(spec@.includes[i as int] == spec.include_terms@[i as int]@);
        if !matches_include_term(spec.include_terms[i].as_str(), name, full, use_regex) {
            return false;
        }
        i += 1;
    }
    true
}

/// Tests one path against a compiled query.
pub fn matches_spec(spec: &QuerySpec, path: &str, use_regex: bool) -> (r: bool)
    ensures
        r == path_passes(spec@, path@, use_regex),
{
    let chars = chars_of(path);
    let name = to_lower(&file_name_of(&chars));
    let full = to_lower(&chars);
    matches_candidate(spec, &name, &full, use_regex)
}

} // verus!
