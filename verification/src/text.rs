//! Character-sequence helpers shared by the query, manifest and display code.

use vstd::prelude::*;

verus! {

/// Unicode `White_Space` code points, the separators of query tokens.
pub open spec fn is_space(c: char) -> bool {
    let n = c as u32;
    (0x09 <= n && n <= 0x0d) || n == 0x20 || n == 0x85 || n == 0xa0 || n == 0x1680
        || (0x2000 <= n && n <= 0x200a) || n == 0x2028 || n == 0x2029 || n == 0x202f
        || n == 0x205f || n == 0x3000
}

/// Whether a character is white space.
pub fn char_is_space(c: char) -> (b: bool)
    ensures
        b == is_space(c),
{
    let n: u32 = c as u32;
    (0x09 <= n && n <= 0x0d) || n == 0x20 || n == 0x85 || n == 0xa0 || n == 0x1680
        || (0x2000 <= n && n <= 0x200a) || n == 0x2028 || n == 0x2029 || n == 0x202f
        || n == 0x205f || n == 0x3000
}

/// ASCII lower-casing of one character; everything but `A`..`Z` is kept.
pub open spec fn lower_char(c: char) -> char {
    if 'A' <= c && c <= 'Z' {
        ((c as u8) + 32) as u8 as char
    } else {
        c
    }
}

/// Lower-cases one character, ASCII only.
pub fn to_lower_char(c: char) -> (r: char)
    ensures
        r == lower_char(c),
{
    if 'A' <= c && c <= 'Z' {
        let b: u8 = c as u8;
        (b + 32) as char
    } else {
        c
    }
}

/// The characters of a text.
pub fn chars_of(s: &str) -> (v: Vec<char>)
    ensures
        v@ == s@,
{
    let mut v: Vec<char> = Vec::new();
    for c in it: s.chars()
        invariant
            v@ == it.seq().take(it.index() as int),
            it.seq() == s@,
    {
        v.push(c);
    }
    v
}

/// Builds a `String` with `String::from_iter`; the text of the result is
/// exactly the characters given, in order.
#[verifier::external_body]
pub(crate) fn string_of(v: &Vec<char>) -> (s: String)
    ensures
        s@ == v@,
{
    String::from_iter(v.iter())
}

/// ASCII lower-casing of a whole text, character by character.
pub open spec fn lower(s: Seq<char>) -> Seq<char> {
    Seq::new(s.len(), |i: int| lower_char(s[i]))
}

/// Lower-cases a text, ASCII only.
pub fn to_lower(s: &Vec<char>) -> (r: Vec<char>)
    ensures
        r@ == lower(s@),
{
    let mut r: Vec<char> = Vec::new();
    let mut i: usize = 0;
    while i < s.len()
        invariant
            i <= s.len(),
            r@.len() == i,
            forall|k: int| 0 <= k < i ==> r@[k] == lower_char(s@[k]),
        decreases s.len() - i,
    {
        r.push(to_lower_char(s[i]));
        i += 1;
    }
    assert(r@ =~= lower(s@));
    r
}

/// The characters of `s` from `from` up to `to`, that excluded.
pub fn copy_range(s: &Vec<char>, from: usize, to: usize) -> (r: Vec<char>)
    requires
        from <= to <= s.len(),
    ensures
        r@ == s@.subrange(from as int, to as int),
{
    let mut r: Vec<char> = Vec::new();
    let mut i: usize = from;
    while i < to
        invariant
            from <= i <= to,
            to <= s.len(),
            r@ == s@.subrange(from as int, i as int),
        decreases to - i,
    {
        r.push(s[i]);
        assert(r@ =~= s@.subrange(from as int, i + 1));
        i += 1;
    }
    r
}

/// Appends the characters of `s` to `out`.
pub fn append_chars(out: &mut Vec<char>, s: &Vec<char>)
    ensures
        final(out)@ == old(out)@ + s@,
{
    let mut i: usize = 0;
    while i < s.len()
        invariant
            i <= s.len(),
            out@ == old(out)@ + s@.take(i as int),
        decreases s.len() - i,
    {
        out.push(s[i]);
        assert(out@ =~= old(out)@ + s@.take(i + 1));
        i += 1;
    }
    assert(s@.take(s.len() as int) =~= s@);
}

/// Whether two texts are equal.
pub fn same_chars(a: &Vec<char>, b: &Vec<char>) -> (r: bool)
    ensures
        r == (a@ == b@),
{
    if a.len() != b.len() {
        return false;
    }
    let mut i: usize = 0;
    while i < a.len()
        invariant
            i <= a.len(),
            a.len() == b.len(),
            forall|k: int| 0 <= k < i ==> a@[k] == b@[k],
        decreases a.len() - i,
    {
        if a[i] != b[i] {
            return false;
        }
        i += 1;
    }
    assert(a@ =~= b@);
    true
}

/// `pat` stands in `text` at offset `at`.
pub open spec fn occurs_at(text: Seq<char>, pat: Seq<char>, at: int) -> bool {
    0 <= at && at + pat.len() <= text.len() && text.subrange(at, at + pat.len()) == pat
}

pub open spec fn starts_with(text: Seq<char>, pat: Seq<char>) -> bool {
    occurs_at(text, pat, 0)
}

pub open spec fn ends_with(text: Seq<char>, pat: Seq<char>) -> bool {
    occurs_at(text, pat, text.len() - pat.len())
}

pub open spec fn contains(text: Seq<char>, pat: Seq<char>) -> bool {
    exists|at: int| occurs_at(text, pat, at)
}

/// Whether `pat` stands in `text` at offset `at`.
pub fn matches_at(text: &Vec<char>, pat: &Vec<char>, at: usize) -> (r: bool)
    ensures
        r == occurs_at(text@, pat@, at as int),
{
    if at > text.len() || pat.len() > text.len() - at {
        return false;
    }
    let mut k: usize = 0;
    while k < pat.len()
        invariant
            k <= pat.len(),
            at + pat.len() <= text.len(),
            forall|j: int| 0 <= j < k ==> text@[at + j] == pat@[j],
        decreases pat.len() - k,
    {
        if text[at + k] != pat[k] {
            assert(text@.subrange(at as int, at + pat.len())[k as int] != pat@[k as int]);
            return false;
        }
        k += 1;
    }
    assert(text@.subrange(at as int, at + pat.len()) =~= pat@);
    true
}

/// Whether `text` begins with `pat`.
pub fn has_prefix(text: &Vec<char>, pat: &Vec<char>) -> (r: bool)
    ensures
        r == starts_with(text@, pat@),
{
    matches_at(text, pat, 0)
}

/// Whether `text` ends with `pat`.
pub fn has_suffix(text: &Vec<char>, pat: &Vec<char>) -> (r: bool)
    ensures
        r == ends_with(text@, pat@),
{
    if pat.len() > text.len() {
        return false;
    }
    matches_at(text, pat, text.len() - pat.len())
}

/// Offset of the first occurrence of `pat` in `text`.
pub fn find_first(text: &Vec<char>, pat: &Vec<char>) -> (r: Option<usize>)
    ensures
        r is Some <==> contains(text@, pat@),
        r matches Some(at) ==> occurs_at(text@, pat@, at as int) && forall|j: int|
            0 <= j < at ==> !occurs_at(text@, pat@, j),
{
    if pat.len() > text.len() {
        return None;
    }
    let last: usize = text.len() - pat.len();
    let mut at: usize = 0;
    while at <= last
        invariant
            at <= last + 1,
            last == text.len() - pat.len(),
            forall|j: int| 0 <= j < at ==> !occurs_at(text@, pat@, j),
        decreases last + 1 - at,
    {
        if matches_at(text, pat, at) {
            return Some(at);
        }
        if at == last {
            return None;
        }
        at += 1;
    }
    None
}

/// Whether `pat` occurs in `text`.
pub fn has_infix(text: &Vec<char>, pat: &Vec<char>) -> (r: bool)
    ensures
        r == contains(text@, pat@),
{
    find_first(text, pat).is_some()
}

/// `q` can be read off `t` from left to right, skipping characters of `t`.
pub open spec fn subsequence(q: Seq<char>, t: Seq<char>) -> bool
    decreases t.len(),
{
    if q.len() == 0 {
        true
    } else if t.len() == 0 {
        false
    } else if q[0] == t[0] {
        subsequence(q.drop_first(), t.drop_first())
    } else {
        subsequence(q, t.drop_first())
    }
}

/// The positions `at` show `q` inside `t`: one position of `t` for each
/// character of `q`, holding that character, in increasing order.
pub open spec fn embeds(q: Seq<char>, t: Seq<char>, at: Seq<int>) -> bool {
    &&& at.len() == q.len()
    &&& forall|k: int| 0 <= k < at.len() ==> 0 <= #[trigger] at[k] < t.len() && t[at[k]] == q[k]
    &&& forall|i: int, j: int| 0 <= i < j < at.len() ==> at[i] < at[j]
}

proof fn lemma_subsequence_embeds(q: Seq<char>, t: Seq<char>) -> (at: Seq<int>)
    requires
        subsequence(q, t),
    ensures
        embeds(q, t, at),
    decreases t.len(),
{
    if q.len() == 0 {
        Seq::empty()
    } else if q[0] == t[0] {
        let rest = lemma_subsequence_embeds(q.drop_first(), t.drop_first());
        let at = Seq::new(q.len(), |k: int| if k == 0 { 0 } else { rest[k - 1] + 1 });
        assert forall|i: int, j: int| 0 <= i < j < at.len() implies at[i] < at[j] by {
            if i > 0 {
                assert(rest[i - 1] < rest[j - 1]);
            } else {
                assert(0 <= rest[j - 1]);
            }
        }
        assert forall|k: int| 0 <= k < at.len() implies 0 <= #[trigger] at[k] < t.len() && t[at[k]]
            == q[k] by {
            if k > 0 {
                assert(0 <= rest[k - 1] < t.drop_first().len());
                assert(t.drop_first()[rest[k - 1]] == q.drop_first()[k - 1]);
            }
        }
        at
    } else {
        let rest = lemma_subsequence_embeds(q, t.drop_first());
        let at = Seq::new(q.len(), |k: int| rest[k] + 1);
        assert forall|i: int, j: int| 0 <= i < j < at.len() implies at[i] < at[j] by {
            assert(rest[i] < rest[j]);
        }
        assert forall|k: int| 0 <= k < at.len() implies 0 <= #[trigger] at[k] < t.len() && t[at[k]]
            == q[k] by {
            assert(0 <= rest[k] < t.drop_first().len());
            assert(t.drop_first()[rest[k]] == q[k]);
        }
        at
    }
}

proof fn lemma_embedding_is_subsequence(q: Seq<char>, t: Seq<char>, at: Seq<int>)
    requires
        embeds(q, t, at),
    ensures
        subsequence(q, t),
    decreases t.len(),
{
    if q.len() > 0 {
        assert(0 <= at[0] < t.len());
        if q[0] == t[0] {
            let rest = Seq::new((q.len() - 1) as nat, |k: int| at[k + 1] - 1);
            assert forall|k: int| 0 <= k < rest.len() implies 0 <= #[trigger] rest[k]
                < t.drop_first().len() && t.drop_first()[rest[k]] == q.drop_first()[k] by {
                assert(at[0] < at[k + 1]);
                assert(0 <= at[k + 1] < t.len() && t[at[k + 1]] == q[k + 1]);
            }
            assert forall|i: int, j: int| 0 <= i < j < rest.len() implies rest[i] < rest[j] by {
                assert(at[i + 1] < at[j + 1]);
            }
            lemma_embedding_is_subsequence(q.drop_first(), t.drop_first(), rest);
        } else {
            let rest = Seq::new(q.len(), |k: int| at[k] - 1);
            assert forall|k: int| 0 <= k < rest.len() implies 0 <= #[trigger] rest[k]
                < t.drop_first().len() && t.drop_first()[rest[k]] == q[k] by {
                assert(0 <= at[k] < t.len() && t[at[k]] == q[k]);
                if k > 0 {
                    assert(at[0] < at[k]);
                } else {
                    assert(t[at[0]] == q[0]);
                }
            }
            assert forall|i: int, j: int| 0 <= i < j < rest.len() implies rest[i] < rest[j] by {
                assert(at[i] < at[j]);
            }
            lemma_embedding_is_subsequence(q, t.drop_first(), rest);
        }
    }
}

/// `subsequence` holds exactly where the characters of `q` are found in
/// `t` in order, at positions that need not be contiguous.
pub proof fn law_subsequence_is_an_embedding(q: Seq<char>, t: Seq<char>)
    ensures
        subsequence(q, t) <==> exists|at: Seq<int>| embeds(q, t, at),
{
    if subsequence(q, t) {
        let at = lemma_subsequence_embeds(q, t);
        assert(embeds(q, t, at));
    }
    if exists|at: Seq<int>| embeds(q, t, at) {
        let at = choose|at: Seq<int>| embeds(q, t, at);
        lemma_embedding_is_subsequence(q, t, at);
    }
}

/// Whether the characters of `query` are found in `text` in order.
pub fn is_subsequence(query: &Vec<char>, text: &Vec<char>) -> (r: bool)
    ensures
        r == subsequence(query@, text@),
{
    let mut qi: usize = 0;
    let mut ti: usize = 0;
    assert(query@.skip(0) =~= query@ && text@.skip(0) =~= text@);
    while ti < text.len() && qi < query.len()
        invariant
            qi <= query.len(),
            ti <= text.len(),
            subsequence(query@, text@) == subsequence(query@.skip(qi as int), text@.skip(ti as int)),
        decreases text.len() - ti,
    {
        assert(text@.skip(ti as int).drop_first() =~= text@.skip(ti + 1));
        assert(query@.skip(qi as int).drop_first() =~= query@.skip(qi + 1));
        if text[ti] == query[qi] {
            qi += 1;
        }
        ti += 1;
    }
    qi == query.len()
}

/// Every character is white space (the empty text included).
pub open spec fn blank(s: Seq<char>) -> bool {
    forall|i: int| 0 <= i < s.len() ==> is_space(#[trigger] s[i])
}

/// Whether a text holds nothing but white space.
pub fn is_blank(s: &Vec<char>) -> (r: bool)
    ensures
        r == blank(s@),
{
    let mut i: usize = 0;
    while i < s.len()
        invariant
            i <= s.len(),
            forall|k: int| 0 <= k < i ==> is_space(#[trigger] s@[k]),
        decreases s.len() - i,
    {
        if !char_is_space(s[i]) {
            return false;
        }
        i += 1;
    }
    true
}

pub open spec fn trim_start(s: Seq<char>) -> Seq<char>
    decreases s.len(),
{
    if s.len() > 0 && is_space(s[0]) {
        trim_start(s.drop_first())
    } else {
        s
    }
}

pub open spec fn trim_end(s: Seq<char>) -> Seq<char>
    decreases s.len(),
{
    if s.len() > 0 && is_space(s.last()) {
        trim_end(s.drop_last())
    } else {
        s
    }
}

/// The text without its leading and trailing white space.
pub open spec fn trim(s: Seq<char>) -> Seq<char> {
    trim_end(trim_start(s))
}

/// A text without its leading and trailing white space.
pub fn trimmed(s: &Vec<char>) -> (r: Vec<char>)
    ensures
        r@ == trim(s@),
{
    let mut a: usize = 0;
    assert(s@.skip(0) =~= s@);
    while a < s.len() && char_is_space(s[a])
        invariant
            a <= s.len(),
            trim_start(s@) == trim_start(s@.skip(a as int)),
        decreases s.len() - a,
    {
        assert(s@.skip(a as int).drop_first() =~= s@.skip(a + 1));
        a += 1;
    }
    assert(trim_start(s@) == s@.skip(a as int));
    assert(s@.skip(a as int) =~= s@.subrange(a as int, s.len() as int));
    let mut b: usize = s.len();
    while b > a && char_is_space(s[b - 1])
        invariant
            a <= b <= s.len(),
            trim(s@) == trim_end(s@.subrange(a as int, b as int)),
        decreases b,
    {
        assert(s@.subrange(a as int, b as int).drop_last() =~= s@.subrange(a as int, b - 1));
        b -= 1;
    }
    copy_range(s, a, b)
}

/// What separates the pieces of a text: white space between the tokens of
/// a query, line feeds between the lines of a manifest, slashes between
/// the components of a path.
#[derive(Clone, Copy, PartialEq, Eq, Structural, Debug)]
pub enum Delim {
    Space,
    LineFeed,
    Slash,
}

impl Delim {
    pub open spec fn cuts(self, c: char) -> bool {
        match self {
            Delim::Space => is_space(c),
            Delim::LineFeed => c == '\n',
            Delim::Slash => c == '/',
        }
    }

    pub fn is_cut(self, c: char) -> (r: bool)
        ensures
            r == self.cuts(c),
    {
        match self {
            Delim::Space => char_is_space(c),
            Delim::LineFeed => c == '\n',
            Delim::Slash => c == '/',
        }
    }
}

/// Reading `s` from the left: the pieces already closed by a separator, and
/// the piece still open at the end.
pub open spec fn split_state(s: Seq<char>, d: Delim) -> (Seq<Seq<char>>, Seq<char>)
    decreases s.len(),
{
    if s.len() == 0 {
        (Seq::empty(), Seq::empty())
    } else {
        let before = split_state(s.drop_last(), d);
        if d.cuts(s.last()) {
            if before.1.len() > 0 {
                (before.0.push(before.1), Seq::empty())
            } else {
                before
            }
        } else {
            (before.0, before.1.push(s.last()))
        }
    }
}

/// The maximal non-empty runs of `s` that hold no separator, in order.
pub open spec fn pieces(s: Seq<char>, d: Delim) -> Seq<Seq<char>> {
    let st = split_state(s, d);
    if st.1.len() > 0 {
        st.0.push(st.1)
    } else {
        st.0
    }
}

/// A piece holds no separator.
pub open spec fn uncut(piece: Seq<char>, d: Delim) -> bool {
    forall|k: int| 0 <= k < piece.len() ==> !d.cuts(#[trigger] piece[k])
}

pub proof fn lemma_split_state(s: Seq<char>, d: Delim)
    ensures
        uncut(split_state(s, d).1, d),
        forall|i: int|
            0 <= i < split_state(s, d).0.len() ==> (#[trigger] split_state(s, d).0[i]).len() > 0
                && uncut(split_state(s, d).0[i], d),
    decreases s.len(),
{
    if s.len() > 0 {
        lemma_split_state(s.drop_last(), d);
    }
}

/// Every piece of a text is non-empty and holds no separator.
pub proof fn law_pieces_are_clean(s: Seq<char>, d: Delim)
    ensures
        forall|i: int|
            0 <= i < pieces(s, d).len() ==> (#[trigger] pieces(s, d)[i]).len() > 0 && uncut(
                pieces(s, d)[i],
                d,
            ),
{
    lemma_split_state(s, d);
}

/// The parts, one after the other.
pub open spec fn concat(parts: Seq<Seq<char>>) -> Seq<char>
    decreases parts.len(),
{
    if parts.len() == 0 {
        Seq::empty()
    } else {
        concat(parts.drop_last()) + parts.last()
    }
}

/// The text without its separators.
pub open spec fn without_cuts(s: Seq<char>, d: Delim) -> Seq<char>
    decreases s.len(),
{
    if s.len() == 0 {
        Seq::empty()
    } else if d.cuts(s.last()) {
        without_cuts(s.drop_last(), d)
    } else {
        without_cuts(s.drop_last(), d).push(s.last())
    }
}

proof fn lemma_split_state_keeps_text(s: Seq<char>, d: Delim)
    ensures
        concat(split_state(s, d).0) + split_state(s, d).1 == without_cuts(s, d),
    decreases s.len(),
{
    if s.len() == 0 {
        assert(concat(split_state(s, d).0) + split_state(s, d).1 =~= Seq::<char>::empty());
    } else {
        lemma_split_state_keeps_text(s.drop_last(), d);
        let before = split_state(s.drop_last(), d);
        if d.cuts(s.last()) {
            if before.1.len() > 0 {
                assert(before.0.push(before.1).drop_last() =~= before.0);
                assert(concat(before.0.push(before.1)) + Seq::<char>::empty() =~= concat(before.0)
                    + before.1);
            }
        } else {
            assert(concat(before.0) + before.1.push(s.last()) =~= (concat(before.0)
                + before.1).push(s.last()));
        }
    }
}

/// The pieces of a text, one after the other, are the text without its
/// separators: splitting loses no other character and changes no order.
pub proof fn law_pieces_keep_the_text(s: Seq<char>, d: Delim)
    ensures
        concat(pieces(s, d)) == without_cuts(s, d),
{
    lemma_split_state_keeps_text(s, d);
    let st = split_state(s, d);
    if st.1.len() > 0 {
        assert(st.0.push(st.1).drop_last() =~= st.0);
    } else {
        assert(concat(st.0) + st.1 =~= concat(st.0));
    }
}

/// The texts of a list of strings.
pub open spec fn texts(v: Seq<String>) -> Seq<Seq<char>> {
    Seq::new(v.len(), |i: int| v[i]@)
}

/// The texts of a list of character vectors.
pub open spec fn views(v: Seq<Vec<char>>) -> Seq<Seq<char>> {
    Seq::new(v.len(), |i: int| v[i]@)
}

/// Splits a text at its separators into non-empty pieces.
pub fn split(s: &Vec<char>, d: Delim) -> (r: Vec<Vec<char>>)
    ensures
        views(r@) == pieces(s@, d),
{
    let mut done: Vec<Vec<char>> = Vec::new();
    let mut cur: Vec<char> = Vec::new();
    let mut i: usize = 0;
    assert(views(done@) =~= Seq::<Seq<char>>::empty());
    while i < s.len()
        invariant
            i <= s.len(),
            (views(done@), cur@) == split_state(s@.take(i as int), d),
        decreases s.len() - i,
    {
        let c = s[i];
        assert(s@.take(i + 1).drop_last() =~= s@.take(i as int));
        assert(s@.take(i + 1).last() == c);
        if d.is_cut(c) {
            if cur.len() > 0 {
                let ghost before = views(done@);
                let ghost piece = cur@;
                done.push(cur);
                cur = Vec::new();
                assert(views(done@) =~= before.push(piece));
            }
        } else {
            cur.push(c);
        }
        i += 1;
    }
    assert(s@.take(s.len() as int) =~= s@);
    if cur.len() > 0 {
        let ghost before = views(done@);
        let ghost piece = cur@;
        done.push(cur);
        assert(views(done@) =~= before.push(piece));
    }
    done
}

} // verus!
