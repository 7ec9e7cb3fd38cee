//! The manifest: a text file that lists the paths to index, one per line.
//! Reading resolves each line against what exists on disk; writing lists
//! entries relative to the root where they lie under it.

use vstd::prelude::*;
use crate::paths::{
    join, joined, lies_under, normal, relative_to, strip_root, without_trailing_slash,
};
use crate::text::{
    append_chars, chars_of, copy_range, lower, lower_char, pieces, same_chars, split,
    split_state, string_of, texts, to_lower, to_lower_char, trim, trimmed, uncut, views, Delim,
};

verus! {

/// A line without the pair of quotes that wraps it, if one does.
pub open spec fn unquoted(line: Seq<char>) -> Seq<char> {
    if line.len() >= 2 && ((line[0] == '"' && line.last() == '"') || (line[0] == '\''
        && line.last() == '\'')) {
        line.subrange(1, line.len() - 1)
    } else {
        line
    }
}

/// Drops the pair of quotes that wraps a line.
pub fn strip_wrapping_quotes(line: &Vec<char>) -> (r: Vec<char>)
    ensures
        r@ == unquoted(line@),
{
    let n = line.len();
    if n >= 2 && ((line[0] == '"' && line[n - 1] == '"') || (line[0] == '\'' && line[n - 1]
        == '\'')) {
        copy_range(line, 1, n - 1)
    } else {
        let out = copy_range(line, 0, n);
        assert(line@.subrange(0, n as int) =~= line@);
        out
    }
}

pub open spec fn is_ascii_letter(c: char) -> bool {
    ('a' <= c && c <= 'z') || ('A' <= c && c <= 'Z')
}

/// A drive letter, a colon and a slash of either kind: `C:\` or `C:/`.
pub open spec fn has_drive_prefix(raw: Seq<char>) -> bool {
    raw.len() >= 3 && is_ascii_letter(raw[0]) && raw[1] == ':' && (raw[2] == '\\' || raw[2] == '/')
}

/// A Windows drive path, or a UNC path that begins with two backslashes.
pub open spec fn windows_absolute(raw: Seq<char>) -> bool {
    (raw.len() >= 2 && raw[0] == '\\' && raw[1] == '\\') || has_drive_prefix(raw)
}

fn starts_with_drive(raw: &Vec<char>) -> (r: bool)
    ensures
        r == has_drive_prefix(raw@),
{
    raw.len() >= 3 && (('a' <= raw[0] && raw[0] <= 'z') || ('A' <= raw[0] && raw[0] <= 'Z'))
        && raw[1] == ':' && (raw[2] == '\\' || raw[2] == '/')
}

/// Whether a text is a Windows drive path or a UNC path.
pub fn looks_like_windows_absolute_path(raw: &Vec<char>) -> (r: bool)
    ensures
        r == windows_absolute(raw@),
{
    if raw.len() >= 2 && raw[0] == '\\' && raw[1] == '\\' {
        return true;
    }
    starts_with_drive(raw)
}

/// The text with every backslash turned into a slash.
pub open spec fn slashed(s: Seq<char>) -> Seq<char> {
    Seq::new(s.len(), |i: int| if s[i] == '\\' { '/' } else { s[i] })
}

/// Turns every backslash into a slash.
pub fn to_slashed(s: &Vec<char>) -> (r: Vec<char>)
    ensures
        r@ == slashed(s@),
{
    let mut r: Vec<char> = Vec::new();
    let mut i: usize = 0;
    while i < s.len()
        invariant
            i <= s.len(),
            r@.len() == i,
            forall|k: int| 0 <= k < i ==> r@[k] == (if s@[k] == '\\' { '/' } else { s@[k] }),
        decreases s.len() - i,
    {
        r.push(if s[i] == '\\' { '/' } else { s[i] });
        i += 1;
    }
    assert(r@ =~= slashed(s@));
    r
}

/// Whether a text holds a backslash.
pub fn has_backslash(s: &Vec<char>) -> (r: bool)
    ensures
        r == s@.contains('\\'),
{
    let mut i: usize = 0;
    while i < s.len()
        invariant
            i <= s.len(),
            forall|k: int| 0 <= k < i ==> s@[k] != '\\',
        decreases s.len() - i,
    {
        if s[i] == '\\' {
            return true;
        }
        i += 1;
    }
    false
}

/// Where a Windows drive path is found on a POSIX host: below
/// `/mnt/<drive>/`, the drive letter in lower case, slashes throughout.
pub open spec fn wsl_form(raw: Seq<char>) -> Option<Seq<char>> {
    if has_drive_prefix(raw) {
        Some(seq!['/', 'm', 'n', 't', '/', lower_char(raw[0]), '/'] + slashed(raw.skip(3)))
    } else {
        None
    }
}

/// The `/mnt` form of a Windows drive path.
pub fn wsl_path(raw: &Vec<char>) -> (r: Option<Vec<char>>)
    ensures
        match r {
            Some(p) => wsl_form(raw@) == Some(p@),
            None => wsl_form(raw@) is None,
        },
{
    if !starts_with_drive(raw) {
        return None;
    }
    let mut out: Vec<char> = Vec::new();
    out.push('/');
    out.push('m');
    out.push('n');
    out.push('t');
    out.push('/');
    out.push(to_lower_char(raw[0]));
    out.push('/');
    assert(out@ =~= seq!['/', 'm', 'n', 't', '/', lower_char(raw@[0]), '/']);
    let rest = copy_range(raw, 3, raw.len());
    assert(raw@.skip(3) =~= raw@.subrange(3, raw.len() as int));
    let rest = to_slashed(&rest);
    append_chars(&mut out, &rest);
    Some(out)
}

/// Maps `C:\dir\file` to `/mnt/c/dir/file`; `None` for a text that
/// does not begin with a drive.
pub fn windows_path_to_wsl(raw: &str) -> (r: Option<String>)
    ensures
        match r {
            Some(p) => wsl_form(raw@) == Some(p@),
            None => wsl_form(raw@) is None,
        },
{
    let chars = chars_of(raw);
    match wsl_path(&chars) {
        Some(p) => Some(string_of(&p)),
        None => None,
    }
}

/// `list` with `item` at its end, unless it is there already.
pub open spec fn with_unique(list: Seq<Seq<char>>, item: Seq<char>) -> Seq<Seq<char>> {
    if list.contains(item) {
        list
    } else {
        list.push(item)
    }
}

/// The first occurrence of each item, in order.
pub open spec fn unique(list: Seq<Seq<char>>) -> Seq<Seq<char>>
    decreases list.len(),
{
    if list.len() == 0 {
        Seq::empty()
    } else {
        with_unique(unique(list.drop_last()), list.last())
    }
}

/// `first` followed by the items of `second` that are new, one by one.
pub open spec fn all_unique(first: Seq<Seq<char>>, second: Seq<Seq<char>>) -> Seq<Seq<char>>
    decreases second.len(),
{
    if second.len() == 0 {
        first
    } else {
        with_unique(all_unique(first, second.drop_last()), second.last())
    }
}

/// Whether `list` holds `item`.
pub fn holds_text(list: &Vec<Vec<char>>, item: &Vec<char>) -> (r: bool)
    ensures
        r == views(list@).contains(item@),
{
    let mut i: usize = 0;
    while i < list.len()
        invariant
            i <= list.len(),
            forall|k: int| 0 <= k < i ==> views(list@)[k] != item@,
        decreases list.len() - i,
    {
        if same_chars(&list[i], item) {
            assert(views(list@)[i as int] == item@);
            return true;
        }
        i += 1;
    }
    false
}

/// Adds a candidate unless it is listed already.
pub fn push_unique_candidate(candidates: &mut Vec<Vec<char>>, candidate: Vec<char>)
    ensures
        views(final(candidates)@) == with_unique(views(old(candidates)@), candidate@),
{
    if !holds_text(candidates, &candidate) {
        let ghost before = views(candidates@);
        let ghost item = candidate@;
        candidates.push(candidate);
        assert(views(candidates@) =~= before.push(item));
    }
}

/// The places where one spelling of a manifest line may be found, best
/// first: the path itself where it is absolute (a drive path in its
/// `/mnt` form); a path that is not of the Windows kind also below the
/// manifest's directory and, where that differs, below the root.
pub open spec fn places(raw: Seq<char>, base: Seq<char>, root: Seq<char>) -> Seq<Seq<char>> {
    if raw.len() == 0 {
        Seq::empty()
    } else {
        let direct = if raw[0] == '/' {
            seq![raw]
        } else if windows_absolute(raw) && wsl_form(raw) is Some {
            seq![wsl_form(raw).unwrap()]
        } else {
            Seq::empty()
        };
        let below = if windows_absolute(raw) {
            Seq::empty()
        } else if base != root {
            seq![joined(base, raw), joined(root, raw)]
        } else {
            seq![joined(base, raw)]
        };
        direct + below
    }
}

/// The candidate paths of a manifest line, each once, best first. A line
/// with a backslash is tried as written and then with slashes.
pub open spec fn candidates(line: Seq<char>, base: Seq<char>, root: Seq<char>) -> Seq<Seq<char>> {
    let raw = unquoted(line);
    let first = all_unique(Seq::empty(), places(raw, base, root));
    if raw.contains('\\') {
        all_unique(first, places(slashed(raw), base, root))
    } else {
        first
    }
}

fn push_places(out: &mut Vec<Vec<char>>, raw: &Vec<char>, base: &Vec<char>, root: &Vec<char>)
    ensures
        views(final(out)@) == all_unique(views(old(out)@), places(raw@, base@, root@)),
{
    let ghost start = views(out@);
    let ghost all = places(raw@, base@, root@);
    if raw.len() == 0 {
        return ;
    }
    let windows = looks_like_windows_absolute_path(raw);
    let ghost mut done: Seq<Seq<char>> = Seq::empty();
    if raw[0] == '/' {
        let own = copy_range(raw, 0, raw.len());
        assert(raw@.subrange(0, raw.len() as int) =~= raw@);
        push_unique_candidate(out, own);
        proof {
            done = seq![raw@];
            assert(done.drop_last() =~= Seq::<Seq<char>>::empty());
            assert(done.last() == raw@);
            assert(all_unique(start, done.drop_last()) == start);
        }
    } else if windows {
        match wsl_path(raw) {
            Some(p) => {
                push_unique_candidate(out, p);
                proof {
                    done = seq![wsl_form(raw@).unwrap()];
                    assert(done.drop_last() =~= Seq::<Seq<char>>::empty());
                    assert(done.last() == wsl_form(raw@).unwrap());
                    assert(all_unique(start, done.drop_last()) == start);
                }
            },
            None => {},
        }
    }
    assert(views(out@) == all_unique(start, done));
    if !windows {
        let ghost d0 = done;
        push_unique_candidate(out, join(base, raw));
        proof {
            done = d0.push(joined(base@, raw@));
            assert(done.drop_last() =~= d0);
            assert(views(out@) == all_unique(start, done));
        }
        if !same_chars(base, root) {
            let ghost d1 = done;
            push_unique_candidate(out, join(root, raw));
            proof {
                done = d1.push(joined(root@, raw@));
                assert(done.drop_last() =~= d1);
                assert(views(out@) == all_unique(start, done));
            }
        }
    }
    assert(done =~= all);
}

/// The candidate paths of one manifest line, best first.
pub fn candidate_paths(line: &Vec<char>, base: &Vec<char>, root: &Vec<char>) -> (r: Vec<Vec<char>>)
    ensures
        views(r@) == candidates(line@, base@, root@),
{
    let raw = strip_wrapping_quotes(line);
    let mut out: Vec<Vec<char>> = Vec::new();
    assert(views(out@) =~= Seq::<Seq<char>>::empty());
    push_places(&mut out, &raw, base, root);
    if has_backslash(&raw) {
        let other = to_slashed(&raw);
        push_places(&mut out, &other, base, root);
    }
    out
}

/// What the disk says of one path that exists: its canonical form and
/// its kind.
#[derive(Debug, Clone)]
pub struct PathProbe {
    pub path: String,
    pub canonical: String,
    pub is_file: bool,
    pub is_dir: bool,
}

/// The first probe of `path`, if the disk knows it.
pub open spec fn probe_of(disk: Seq<PathProbe>, path: Seq<char>) -> Option<int>
    decreases disk.len(),
{
    if disk.len() == 0 {
        None
    } else if disk[0].path@ == path {
        Some(0)
    } else {
        match probe_of(disk.drop_first(), path) {
            Some(k) => Some(k + 1),
            None => None,
        }
    }
}

pub proof fn lemma_probe_of(disk: Seq<PathProbe>, path: Seq<char>)
    ensures
        match probe_of(disk, path) {
            Some(k) => 0 <= k < disk.len() && disk[k].path@ == path,
            None => forall|j: int| 0 <= j < disk.len() ==> disk[j].path@ != path,
        },
    decreases disk.len(),
{
    if disk.len() > 0 && disk[0].path@ != path {
        lemma_probe_of(disk.drop_first(), path);
        assert(forall|j: int| 1 <= j < disk.len() ==> disk[j] == disk.drop_first()[j - 1]);
    }
}

/// Looks a path up among the probes.
pub fn find_probe(disk: &Vec<PathProbe>, path: &Vec<char>) -> (r: Option<usize>)
    ensures
        match r {
            Some(k) => probe_of(disk@, path@) == Some(k as int) && k < disk.len(),
            None => probe_of(disk@, path@) is None,
        },
{
    let mut i: usize = 0;
    assert(disk@.skip(0) =~= disk@);
    while i < disk.len()
        invariant
            i <= disk.len(),
            probe_of(disk@, path@) == match probe_of(disk@.skip(i as int), path@) {
                Some(k) => Some(k + i),
                None => None,
            },
        decreases disk.len() - i,
    {
        assert(disk@.skip(i as int).drop_first() =~= disk@.skip(i + 1));
        let p = chars_of(disk[i].path.as_str());
        if same_chars(&p, path) {
            return Some(i);
        }
        i += 1;
    }
    None
}

/// The first of the candidates that exists, as a position in `disk`.
pub open spec fn first_existing(cands: Seq<Seq<char>>, disk: Seq<PathProbe>) -> Option<int>
    decreases cands.len(),
{
    if cands.len() == 0 {
        None
    } else if probe_of(disk, cands[0]) is Some {
        probe_of(disk, cands[0])
    } else {
        first_existing(cands.drop_first(), disk)
    }
}

/// The probe that a manifest line resolves to.
pub open spec fn resolved(line: Seq<char>, base: Seq<char>, root: Seq<char>, disk: Seq<PathProbe>)
    -> Option<int> {
    first_existing(candidates(line, base, root), disk)
}

/// Resolves one manifest line: the position in `disk` of the first candidate that exists.
pub fn resolve_filelist_entry_path(
    line: &Vec<char>,
    filelist_base: &Vec<char>,
    root: &Vec<char>,
    disk: &Vec<PathProbe>,
) -> (r: Option<usize>)
    ensures
        match r {
            Some(k) => resolved(line@, filelist_base@, root@, disk@) == Some(k as int) && k
                < disk.len(),
            None => resolved(line@, filelist_base@, root@, disk@) is None,
        },
{
    let cands = candidate_paths(line, filelist_base, root);
    let ghost all = views(cands@);
    let mut i: usize = 0;
    assert(all.skip(0) =~= all);
    while i < cands.len()
        invariant
            i <= cands.len(),
            all == views(cands@),
            all == candidates(line@, filelist_base@, root@),
            first_existing(all, disk@) == first_existing(all.skip(i as int), disk@),
        decreases cands.len() - i,
    {
        assert(all.skip(i as int).drop_first() =~= all.skip(i + 1));
        assert(all.skip(i as int)[0] == cands@[i as int]@);
        match find_probe(disk, &cands[i]) {
            Some(k) => {
                return Some(k);
            },
            None => {},
        }
        i += 1;
    }
    None
}

/// The entry that a line of the manifest contributes: none for a blank
/// line, a comment, a line that resolves to nothing on disk, or one whose
/// kind is switched off; else the canonical path of what it resolves to.
pub open spec fn line_entry(
    raw_line: Seq<char>,
    base: Seq<char>,
    root: Seq<char>,
    include_files: bool,
    include_dirs: bool,
    disk: Seq<PathProbe>,
) -> Option<Seq<char>> {
    let line = trim(raw_line);
    if line.len() == 0 || line[0] == '#' {
        None
    } else {
        match resolved(line, base, root, disk) {
            Some(k) => if (disk[k].is_file && !include_files) || (disk[k].is_dir && !include_dirs) {
                None
            } else {
                Some(disk[k].canonical@)
            },
            None => None,
        }
    }
}

/// The entries of the given lines, each once, in the order in which they
/// are first listed.
pub open spec fn listed(
    lines: Seq<Seq<char>>,
    base: Seq<char>,
    root: Seq<char>,
    include_files: bool,
    include_dirs: bool,
    disk: Seq<PathProbe>,
) -> Seq<Seq<char>>
    decreases lines.len(),
{
    if lines.len() == 0 {
        Seq::empty()
    } else {
        let before = listed(lines.drop_last(), base, root, include_files, include_dirs, disk);
        match line_entry(lines.last(), base, root, include_files, include_dirs, disk) {
            Some(p) => with_unique(before, p),
            None => before,
        }
    }
}

/// The entries of a manifest text.
pub open spec fn manifest_entries(
    text: Seq<char>,
    base: Seq<char>,
    root: Seq<char>,
    include_files: bool,
    include_dirs: bool,
    disk: Seq<PathProbe>,
) -> Seq<Seq<char>> {
    listed(pieces(text, Delim::LineFeed), base, root, include_files, include_dirs, disk)
}

/// No item occurs twice.
pub open spec fn distinct(list: Seq<Seq<char>>) -> bool {
    forall|i: int, j: int| 0 <= i < j < list.len() ==> list[i] != list[j]
}

proof fn lemma_listed_is_distinct(
    lines: Seq<Seq<char>>,
    base: Seq<char>,
    root: Seq<char>,
    include_files: bool,
    include_dirs: bool,
    disk: Seq<PathProbe>,
)
    ensures
        distinct(listed(lines, base, root, include_files, include_dirs, disk)),
    decreases lines.len(),
{
    if lines.len() > 0 {
        lemma_listed_is_distinct(lines.drop_last(), base, root, include_files, include_dirs, disk);
    }
}

/// The entries of a manifest hold no path twice, whatever the text lists.
pub proof fn law_manifest_entries_are_distinct(
    text: Seq<char>,
    base: Seq<char>,
    root: Seq<char>,
    include_files: bool,
    include_dirs: bool,
    disk: Seq<PathProbe>,
)
    ensures
        distinct(manifest_entries(text, base, root, include_files, include_dirs, disk)),
{
    lemma_listed_is_distinct(
        pieces(text, Delim::LineFeed),
        base,
        root,
        include_files,
        include_dirs,
        disk,
    );
}

proof fn lemma_first_existing(cands: Seq<Seq<char>>, disk: Seq<PathProbe>)
    ensures
        first_existing(cands, disk) matches Some(k) ==> 0 <= k < disk.len() && cands.contains(
            disk[k].path@,
        ),
    decreases cands.len(),
{
    if cands.len() > 0 {
        lemma_probe_of(disk, cands[0]);
        if probe_of(disk, cands[0]) is None {
            lemma_first_existing(cands.drop_first(), disk);
            if first_existing(cands, disk) is Some {
                let k = first_existing(cands, disk)->Some_0;
                let c = choose|c: int|
                    0 <= c < cands.drop_first().len() && cands.drop_first()[c] == disk[k].path@;
                assert(cands[c + 1] == disk[k].path@);
            }
        } else {
            assert(cands[0] == disk[probe_of(disk, cands[0])->Some_0].path@);
        }
    }
}

/// What a line contributes is on disk and of a kind that is asked for:
/// it is the canonical path of a probe whose path is one of the line's
/// candidates, no file where files are switched off and no directory where
/// directories are.
pub proof fn law_line_entry_is_on_disk(
    raw_line: Seq<char>,
    base: Seq<char>,
    root: Seq<char>,
    include_files: bool,
    include_dirs: bool,
    disk: Seq<PathProbe>,
)
    ensures
        line_entry(raw_line, base, root, include_files, include_dirs, disk) matches Some(p)
            ==> exists|k: int|
            0 <= k < disk.len() && (#[trigger] disk[k]).canonical@ == p && candidates(
                trim(raw_line),
                base,
                root,
            ).contains(disk[k].path@) && (disk[k].is_file ==> include_files) && (disk[k].is_dir
                ==> include_dirs),
{
    let line = trim(raw_line);
    lemma_first_existing(candidates(line, base, root), disk);
    if line_entry(raw_line, base, root, include_files, include_dirs, disk) is Some {
        let k = resolved(line, base, root, disk)->Some_0;
        assert(disk[k].canonical@ == line_entry(
            raw_line,
            base,
            root,
            include_files,
            include_dirs,
            disk,
        )->Some_0);
    }
}

proof fn lemma_listed_members(
    lines: Seq<Seq<char>>,
    base: Seq<char>,
    root: Seq<char>,
    include_files: bool,
    include_dirs: bool,
    disk: Seq<PathProbe>,
    x: Seq<char>,
)
    ensures
        listed(lines, base, root, include_files, include_dirs, disk).contains(x) <==> exists|
            i: int,
        |
            0 <= i < lines.len() && line_entry(
                #[trigger] lines[i],
                base,
                root,
                include_files,
                include_dirs,
                disk,
            ) == Some(x),
    decreases lines.len(),
{
    let all = listed(lines, base, root, include_files, include_dirs, disk);
    if lines.len() == 0 {
        assert(!all.contains(x));
    } else {
        let rest = lines.drop_last();
        let before = listed(rest, base, root, include_files, include_dirs, disk);
        let last = line_entry(lines.last(), base, root, include_files, include_dirs, disk);
        lemma_listed_members(rest, base, root, include_files, include_dirs, disk, x);
        if all.contains(x) {
            if before.contains(x) {
                let i = choose|i: int|
                    0 <= i < rest.len() && line_entry(
                        #[trigger] rest[i],
                        base,
                        root,
                        include_files,
                        include_dirs,
                        disk,
                    ) == Some(x);
                assert(lines[i] == rest[i]);
            } else {
                let k = choose|k: int| 0 <= k < all.len() && all[k] == x;
                if k < before.len() {
                    assert(before[k] == x);
                }
                assert(last == Some(x));
                assert(lines[lines.len() - 1] == lines.last());
            }
        }
        if exists|i: int|
            0 <= i < lines.len() && line_entry(
                #[trigger] lines[i],
                base,
                root,
                include_files,
                include_dirs,
                disk,
            ) == Some(x) {
            let i = choose|i: int|
                0 <= i < lines.len() && line_entry(
                    #[trigger] lines[i],
                    base,
                    root,
                    include_files,
                    include_dirs,
                    disk,
                ) == Some(x);
            if i < rest.len() {
                assert(rest[i] == lines[i]);
                assert(before.contains(x));
                let k = choose|k: int| 0 <= k < before.len() && before[k] == x;
                assert(all[k] == x);
            } else {
                assert(last == Some(x));
                if !before.contains(x) {
                    assert(all[before.len() as int] == x);
                } else {
                    let k = choose|k: int| 0 <= k < before.len() && before[k] == x;
                    assert(all[k] == x);
                }
            }
        }
    }
}

/// A manifest gives exactly what its lines contribute: a path is among
/// its entries if and only if some line of the text contributes it. So
/// nothing that is on disk but not listed is among them, and of the listed
/// paths only those of a kind that is asked for.
pub proof fn law_manifest_entries_are_the_listed_paths(
    text: Seq<char>,
    base: Seq<char>,
    root: Seq<char>,
    include_files: bool,
    include_dirs: bool,
    disk: Seq<PathProbe>,
    x: Seq<char>,
)
    ensures
        manifest_entries(text, base, root, include_files, include_dirs, disk).contains(x)
            <==> exists|i: int|
            0 <= i < pieces(text, Delim::LineFeed).len() && line_entry(
                #[trigger] pieces(text, Delim::LineFeed)[i],
                base,
                root,
                include_files,
                include_dirs,
                disk,
            ) == Some(x),
{
    lemma_listed_members(
        pieces(text, Delim::LineFeed),
        base,
        root,
        include_files,
        include_dirs,
        disk,
        x,
    );
}

/// What each of the lines contributes, where every line contributes.
pub open spec fn contributions(
    lines: Seq<Seq<char>>,
    base: Seq<char>,
    root: Seq<char>,
    include_files: bool,
    include_dirs: bool,
    disk: Seq<PathProbe>,
) -> Seq<Seq<char>> {
    Seq::new(
        lines.len(),
        |i: int| line_entry(lines[i], base, root, include_files, include_dirs, disk).unwrap(),
    )
}

proof fn lemma_listed_each_once(
    lines: Seq<Seq<char>>,
    base: Seq<char>,
    root: Seq<char>,
    include_files: bool,
    include_dirs: bool,
    disk: Seq<PathProbe>,
)
    requires
        forall|i: int|
            0 <= i < lines.len() ==> line_entry(
                #[trigger] lines[i],
                base,
                root,
                include_files,
                include_dirs,
                disk,
            ) is Some,
        distinct(contributions(lines, base, root, include_files, include_dirs, disk)),
    ensures
        listed(lines, base, root, include_files, include_dirs, disk) == contributions(
            lines,
            base,
            root,
            include_files,
            include_dirs,
            disk,
        ),
    decreases lines.len(),
{
    let want = contributions(lines, base, root, include_files, include_dirs, disk);
    if lines.len() == 0 {
        assert(want =~= Seq::<Seq<char>>::empty());
    } else {
        let rest = lines.drop_last();
        let part = contributions(rest, base, root, include_files, include_dirs, disk);
        assert forall|i: int| 0 <= i < rest.len() implies line_entry(
            #[trigger] rest[i],
            base,
            root,
            include_files,
            include_dirs,
            disk,
        ) is Some by {
            assert(rest[i] == lines[i]);
        }
        assert forall|i: int| 0 <= i < part.len() implies part[i] == want[i] by {
            assert(rest[i] == lines[i]);
        }
        lemma_listed_each_once(rest, base, root, include_files, include_dirs, disk);
        let p = want[lines.len() - 1];
        assert(p == line_entry(lines.last(), base, root, include_files, include_dirs, disk)->Some_0);
        assert(!part.contains(p)) by {
            if part.contains(p) {
                let k = choose|k: int| 0 <= k < part.len() && part[k] == p;
                assert(want[k] == want[lines.len() - 1]);
            }
        }
        assert(part.push(p) =~= want);
    }
}

/// A manifest whose lines each contribute a path, no two of them the
/// same, gives exactly those paths, in the order of the lines and as many
/// as there are lines.
pub proof fn law_manifest_lists_each_line_once(
    text: Seq<char>,
    base: Seq<char>,
    root: Seq<char>,
    include_files: bool,
    include_dirs: bool,
    disk: Seq<PathProbe>,
)
    requires
        forall|i: int|
            0 <= i < pieces(text, Delim::LineFeed).len() ==> line_entry(
                #[trigger] pieces(text, Delim::LineFeed)[i],
                base,
                root,
                include_files,
                include_dirs,
                disk,
            ) is Some,
        distinct(
            contributions(
                pieces(text, Delim::LineFeed),
                base,
                root,
                include_files,
                include_dirs,
                disk,
            ),
        ),
    ensures
        manifest_entries(text, base, root, include_files, include_dirs, disk) == contributions(
            pieces(text, Delim::LineFeed),
            base,
            root,
            include_files,
            include_dirs,
            disk,
        ),
        manifest_entries(text, base, root, include_files, include_dirs, disk).len() == pieces(
            text,
            Delim::LineFeed,
        ).len(),
{
    lemma_listed_each_once(
        pieces(text, Delim::LineFeed),
        base,
        root,
        include_files,
        include_dirs,
        disk,
    );
}

/// Reads a manifest: resolves each line against `disk`, drops what does
/// not exist or is of a kind that is switched off, and keeps the first
/// occurrence of each canonical path.
pub fn parse_filelist(
    text: &str,
    filelist_base: &str,
    root: &str,
    include_files: bool,
    include_dirs: bool,
    disk: &Vec<PathProbe>,
) -> (r: Vec<String>)
    ensures
        texts(r@) == manifest_entries(
            text@,
            filelist_base@,
            root@,
            include_files,
            include_dirs,
            disk@,
        ),
{
    let chars = chars_of(text);
    let base = chars_of(filelist_base);
    let root = chars_of(root);
    let lines = split(&chars, Delim::LineFeed);
    let ghost all = views(lines@);
    let mut seen: Vec<Vec<char>> = Vec::new();
    let mut out: Vec<String> = Vec::new();
    let mut i: usize = 0;
    assert(views(seen@) =~= Seq::<Seq<char>>::empty());
    assert(texts(out@) =~= Seq::<Seq<char>>::empty());
    while i < lines.len()
        invariant
            i <= lines.len(),
            all == views(lines@),
            views(seen@) == listed(
                all.take(i as int),
                base@,
                root@,
                include_files,
                include_dirs,
                disk@,
            ),
            texts(out@) == views(seen@),
        decreases lines.len() - i,
    {
        assert(all.take(i + 1).drop_last() =~= all.take(i as int));
        assert(all.take(i + 1).last() == lines@[i as int]@);
        let line = trimmed(&lines[i]);
        if line.len() > 0 && line[0] != '#' {
            match resolve_filelist_entry_path(&line, &base, &root, disk) {
                Some(k) => {
                    let probe = &disk[k];
                    if !((probe.is_file && !include_files) || (probe.is_dir && !include_dirs)) {
                        let path = chars_of(probe.canonical.as_str());
                        if !holds_text(&seen, &path) {
                            let ghost before = views(seen@);
                            out.push(probe.canonical.clone());
                            seen.push(path);
                            assert(views(seen@) =~= before.push(probe.canonical@));
                            assert(texts(out@) =~= before.push(probe.canonical@));
                        }
                    }
                },
                None => {},
            }
        }
        i += 1;
    }
    assert(all.take(lines.len() as int) =~= all);
    out
}

/// The candidate paths of the given lines, line after line; blank lines
/// and comments have none.
pub open spec fn lines_candidates(lines: Seq<Seq<char>>, base: Seq<char>, root: Seq<char>) -> Seq<
    Seq<char>,
>
    decreases lines.len(),
{
    if lines.len() == 0 {
        Seq::empty()
    } else {
        let before = lines_candidates(lines.drop_last(), base, root);
        let line = trim(lines.last());
        if line.len() == 0 || line[0] == '#' {
            before
        } else {
            before + candidates(line, base, root)
        }
    }
}

/// Every candidate path of every line of a manifest text: what has to be
/// looked up on disk before the manifest can be read.
pub fn filelist_candidates(text: &str, filelist_base: &str, root: &str) -> (r: Vec<String>)
    ensures
        texts(r@) == lines_candidates(pieces(text@, Delim::LineFeed), filelist_base@, root@),
{
    let chars = chars_of(text);
    let base = chars_of(filelist_base);
    let root = chars_of(root);
    let lines = split(&chars, Delim::LineFeed);
    let ghost all = views(lines@);
    let mut out: Vec<String> = Vec::new();
    let mut i: usize = 0;
    assert(texts(out@) =~= Seq::<Seq<char>>::empty());
    while i < lines.len()
        invariant
            i <= lines.len(),
            all == views(lines@),
            texts(out@) == lines_candidates(all.take(i as int), base@, root@),
        decreases lines.len() - i,
    {
        assert(all.take(i + 1).drop_last() =~= all.take(i as int));
        assert(all.take(i + 1).last() == lines@[i as int]@);
        let line = trimmed(&lines[i]);
        if line.len() > 0 && line[0] != '#' {
            let cands = candidate_paths(&line, &base, &root);
            let ghost before = texts(out@);
            let ghost want = views(cands@);
            let mut j: usize = 0;
            assert(before + want.take(0) =~= before);
            while j < cands.len()
                invariant
                    j <= cands.len(),
                    want == views(cands@),
                    texts(out@) == before + want.take(j as int),
                decreases cands.len() - j,
            {
                let ghost so_far = texts(out@);
                out.push(string_of(&cands[j]));
                assert(texts(out@) =~= so_far.push(cands@[j as int]@));
                assert(want.take(j + 1) =~= want.take(j as int).push(want[j as int]));
                assert(texts(out@) =~= before + want.take(j + 1));
                j += 1;
            }
            assert(want.take(cands.len() as int) =~= want);
        }
        i += 1;
    }
    assert(all.take(lines.len() as int) =~= all);
    out
}

/// The name that a manifest usually has.
pub open spec fn manifest_name() -> Seq<char> {
    "FileList.txt"@
}

/// Its lower-case variant.
pub open spec fn manifest_name_lower() -> Seq<char> {
    "filelist.txt"@
}

/// The first position at which `names` holds `name`.
pub open spec fn first_named(names: Seq<Seq<char>>, name: Seq<char>) -> Option<int>
    decreases names.len(),
{
    if names.len() == 0 {
        None
    } else if names[0] == name {
        Some(0)
    } else {
        match first_named(names.drop_first(), name) {
            Some(k) => Some(k + 1),
            None => None,
        }
    }
}

/// The lower-cased names.
pub open spec fn folded(names: Seq<Seq<char>>) -> Seq<Seq<char>> {
    Seq::new(names.len(), |i: int| lower(names[i]))
}

/// Which of the files directly in the root is the manifest: the one with
/// the exact name, else the lower-case one, else the first whose name is
/// the same but for ASCII case.
pub open spec fn manifest_choice(names: Seq<Seq<char>>) -> Option<int> {
    if first_named(names, manifest_name()) is Some {
        first_named(names, manifest_name())
    } else if first_named(names, manifest_name_lower()) is Some {
        first_named(names, manifest_name_lower())
    } else {
        first_named(folded(names), lower(manifest_name_lower()))
    }
}

fn position_of(names: &Vec<Vec<char>>, name: &Vec<char>) -> (r: Option<usize>)
    ensures
        match r {
            Some(k) => first_named(views(names@), name@) == Some(k as int) && k < names.len(),
            None => first_named(views(names@), name@) is None,
        },
{
    let ghost all = views(names@);
    let mut i: usize = 0;
    assert(all.skip(0) =~= all);
    while i < names.len()
        invariant
            i <= names.len(),
            all == views(names@),
            first_named(all, name@) == match first_named(all.skip(i as int), name@) {
                Some(k) => Some(k + i),
                None => None,
            },
        decreases names.len() - i,
    {
        assert(all.skip(i as int).drop_first() =~= all.skip(i + 1));
        assert(all.skip(i as int)[0] == names@[i as int]@);
        if same_chars(&names[i], name) {
            return Some(i);
        }
        i += 1;
    }
    None
}

/// Picks the manifest among the names of the files that lie directly in
/// the root, and returns its position.
pub fn find_filelist(file_names: &Vec<String>) -> (r: Option<usize>)
    ensures
        match r {
            Some(k) => manifest_choice(texts(file_names@)) == Some(k as int) && k
                < file_names.len(),
            None => manifest_choice(texts(file_names@)) is None,
        },
{
    let mut names: Vec<Vec<char>> = Vec::new();
    let mut low: Vec<Vec<char>> = Vec::new();
    let ghost all = texts(file_names@);
    let mut i: usize = 0;
    while i < file_names.len()
        invariant
            i <= file_names.len(),
            all == texts(file_names@),
            names@.len() == i,
            low@.len() == i,
            forall|k: int| 0 <= k < i ==> names@[k]@ == all[k],
            forall|k: int| 0 <= k < i ==> low@[k]@ == lower(all[k]),
        decreases file_names.len() - i,
    {
        let n = chars_of(file_names[i].as_str());
        low.push(to_lower(&n));
        names.push(n);
        i += 1;
    }
    assert(views(names@) =~= all);
    assert(views(low@) =~= folded(all));
    let upper = chars_of("FileList.txt");
    let lower_name = chars_of("filelist.txt");
    match position_of(&names, &upper) {
        Some(k) => {
            return Some(k);
        },
        None => {},
    }
    match position_of(&names, &lower_name) {
        Some(k) => {
            return Some(k);
        },
        None => {},
    }
    let target = to_lower(&lower_name);
    position_of(&low, &target)
}

/// As `find_filelist`: only the root's own files are looked at.
pub fn find_filelist_in_first_level(file_names: &Vec<String>) -> (r: Option<usize>)
    ensures
        match r {
            Some(k) => manifest_choice(texts(file_names@)) == Some(k as int) && k
                < file_names.len(),
            None => manifest_choice(texts(file_names@)) is None,
        },
{
    find_filelist(file_names)
}

/// The lines that a manifest has for the given entries: each entry as it
/// is called from the root.
pub open spec fn manifest_lines(entries: Seq<Seq<char>>, root: Seq<char>) -> Seq<Seq<char>>
    decreases entries.len(),
{
    if entries.len() == 0 {
        Seq::empty()
    } else {
        with_unique(manifest_lines(entries.drop_last(), root), relative_to(entries.last(), root))
    }
}

/// The lines, each closed by a line feed.
pub open spec fn lines_text(lines: Seq<Seq<char>>) -> Seq<char>
    decreases lines.len(),
{
    if lines.len() == 0 {
        Seq::empty()
    } else {
        lines_text(lines.drop_last()) + lines.last().push('\n')
    }
}

/// The text of a manifest for `entries` under `root`: one line per entry,
/// relative to the root where the entry lies under it, each line once, in
/// first-seen order; empty for no entries.
pub fn build_filelist_text(entries: &Vec<String>, root: &str) -> (text: String)
    requires
        normal(root@),
        forall|i: int| 0 <= i < entries@.len() ==> normal(#[trigger] entries@[i]@),
    ensures
        text@ == lines_text(manifest_lines(texts(entries@), root@)),
{
    let root = chars_of(root);
    let ghost all = texts(entries@);
    let mut lines: Vec<Vec<char>> = Vec::new();
    let mut out: Vec<char> = Vec::new();
    let mut i: usize = 0;
    assert(views(lines@) =~= Seq::<Seq<char>>::empty());
    while i < entries.len()
        invariant
            i <= entries.len(),
            all == texts(entries@),
            normal(root@),
            forall|k: int| 0 <= k < entries@.len() ==> normal(#[trigger] entries@[k]@),
            views(lines@) == manifest_lines(all.take(i as int), root@),
            out@ == lines_text(views(lines@)),
        decreases entries.len() - i,
    {
        assert(all.take(i + 1).drop_last() =~= all.take(i as int));
        assert(all.take(i + 1).last() == entries@[i as int]@);
        let e = chars_of(entries[i].as_str());
        let line = strip_root(&e, &root);
        if !holds_text(&lines, &line) {
            let ghost before = views(lines@);
            let ghost old_out = out@;
            append_chars(&mut out, &line);
            out.push('\n');
            assert(out@ =~= old_out + line@.push('\n'));
            lines.push(line);
            assert(views(lines@) =~= before.push(lines@.last()@));
            assert(views(lines@).drop_last() =~= before);
        }
        i += 1;
    }
    assert(all.take(entries.len() as int) =~= all);
    string_of(&out)
}

/// An entry that a manifest can carry through writing and reading: an
/// absolute path in normal form other than the root, which exists on
/// `disk` in this very form, and whose line is not changed or dropped when
/// it is read (it holds no line feed, has no white space at its ends, is
/// no comment and is not wrapped in quotes; below the root, what is left
/// of the path is not of the Windows kind).
pub open spec fn carried(e: Seq<char>, root: Seq<char>, disk: Seq<PathProbe>) -> bool {
    let line = relative_to(e, root);
    &&& normal(e)
    &&& e.len() > 0 && e[0] == '/'
    &&& line.len() > 0
    &&& !line.contains('\n')
    &&& trim(line) == line
    &&& line[0] != '#'
    &&& unquoted(line) == line
    &&& lies_under(e, root) ==> !windows_absolute(line)
    &&& probe_of(disk, e) matches Some(k) && disk[k].canonical@ == e
}

proof fn lemma_all_unique_keeps_first(first: Seq<Seq<char>>, second: Seq<Seq<char>>)
    ensures
        all_unique(first, second).len() >= first.len(),
        forall|i: int| 0 <= i < first.len() ==> all_unique(first, second)[i] == first[i],
        first.len() == 0 && second.len() > 0 ==> all_unique(first, second).len() > 0
            && all_unique(first, second)[0] == second[0],
    decreases second.len(),
{
    if second.len() > 0 {
        lemma_all_unique_keeps_first(first, second.drop_last());
        if first.len() == 0 && second.len() == 1 {
            assert(second.drop_last().len() == 0);
            assert(!all_unique(first, second.drop_last()).contains(second.last()));
        }
    }
}

/// The line of a carried entry is read back as that entry.
proof fn lemma_line_entry(e: Seq<char>, root: Seq<char>, disk: Seq<PathProbe>)
    requires
        carried(e, root, disk),
        without_trailing_slash(root) == root,
    ensures
        line_entry(relative_to(e, root), root, root, true, true, disk) == Some(e),
{
    let line = relative_to(e, root);
    let r = without_trailing_slash(root);
    let spots = places(line, root, root);
    if lies_under(e, root) {
        assert(line[0] != '/') by {
            if r == seq!['/'] {
                assert(line[0] == e[1]);
                assert(!(e[0] == '/' && e[1] == '/'));
            } else {
                let n = r.len() as int;
                assert(line[0] == e[n + 1]);
                assert(!(e[n] == '/' && e[n + 1] == '/'));
            }
        }
    }
    assert(spots.len() > 0 && spots[0] == e) by {
        if lies_under(e, root) {
            assert(joined(root, line) =~= e) by {
                if r == seq!['/'] {
                    assert(seq!['/'].len() == 1 && seq!['/'][0] == '/');
                    assert(line == e.skip(1));
                } else {
                    assert(line == e.skip(r.len() + 1 as int));
                    assert(e.subrange(0, r.len() as int) == r);
                    assert(root.last() != '/') by {
                        if root.len() == 1 && root[0] == '/' {
                            assert(root =~= seq!['/']);
                        }
                    }
                }
            }
        } else {
            assert(line == e);
        }
    }
    let first = all_unique(Seq::empty(), spots);
    lemma_all_unique_keeps_first(Seq::empty(), spots);
    let all = candidates(line, root, root);
    assert(all.len() > 0 && all[0] == e) by {
        if line.contains('\\') {
            lemma_all_unique_keeps_first(first, places(slashed(line), root, root));
        }
    }
    lemma_probe_of(disk, e);
}

proof fn lemma_split_word(a: Seq<char>, w: Seq<char>, d: Delim)
    requires
        uncut(w, d),
    ensures
        split_state(a + w, d) == (
            split_state(a, d).0,
            split_state(a, d).1 + w,
        ),
    decreases w.len(),
{
    if w.len() == 0 {
        assert(a + w =~= a);
        assert(split_state(a, d).1 + w =~= split_state(a, d).1);
    } else {
        lemma_split_word(a, w.drop_last(), d);
        assert((a + w).drop_last() =~= a + w.drop_last());
        assert((a + w).last() == w.last());
        assert(!d.cuts(w[w.len() - 1]));
        assert(split_state(a, d).1 + w =~= (split_state(a, d).1
            + w.drop_last()).push(w.last()));
    }
}

/// A text made of lines reads back as those lines.
proof fn lemma_pieces_of_lines(lines: Seq<Seq<char>>)
    requires
        forall|i: int|
            0 <= i < lines.len() ==> (#[trigger] lines[i]).len() > 0 && !lines[i].contains('\n'),
    ensures
        split_state(lines_text(lines), Delim::LineFeed) == (lines, Seq::<char>::empty()),
        pieces(lines_text(lines), Delim::LineFeed) == lines,
    decreases lines.len(),
{
    if lines.len() > 0 {
        let before = lines.drop_last();
        let l = lines.last();
        assert forall|i: int| 0 <= i < before.len() implies (#[trigger] before[i]).len() > 0
            && !before[i].contains('\n') by {
            assert(before[i] == lines[i]);
        }
        lemma_pieces_of_lines(before);
        let a = lines_text(before);
        assert(uncut(l, Delim::LineFeed)) by {
            assert forall|k: int| 0 <= k < l.len() implies !Delim::LineFeed.cuts(
                #[trigger] l[k],
            ) by {
                if l[k] == '\n' {
                    assert(l.contains('\n'));
                }
            }
        }
        lemma_split_word(a, l, Delim::LineFeed);
        let t = lines_text(lines);
        assert(t =~= (a + l).push('\n'));
        assert(t.drop_last() =~= a + l);
        assert(Seq::<char>::empty() + l =~= l);
        assert(before.push(l) =~= lines);
    }
}

proof fn lemma_manifest_lines_come_from_entries(
    entries: Seq<Seq<char>>,
    root: Seq<char>,
    x: Seq<char>,
)
    requires
        manifest_lines(entries, root).contains(x),
    ensures
        exists|i: int| 0 <= i < entries.len() && relative_to(#[trigger] entries[i], root) == x,
    decreases entries.len(),
{
    if entries.len() > 0 {
        let before = manifest_lines(entries.drop_last(), root);
        let line = relative_to(entries.last(), root);
        if before.contains(x) {
            lemma_manifest_lines_come_from_entries(entries.drop_last(), root, x);
            let i = choose|i: int|
                0 <= i < entries.drop_last().len() && relative_to(
                    #[trigger] entries.drop_last()[i],
                    root,
                ) == x;
            assert(entries[i] == entries.drop_last()[i]);
        } else {
            let k = choose|k: int|
                0 <= k < manifest_lines(entries, root).len() && manifest_lines(entries, root)[k]
                    == x;
            if k < before.len() {
                assert(before[k] == x);
            }
            assert(line == x);
            assert(relative_to(entries[entries.len() - 1], root) == x);
        }
    }
}

proof fn lemma_unique_holds_all(list: Seq<Seq<char>>, x: Seq<char>)
    requires
        list.contains(x),
    ensures
        unique(list).contains(x),
    decreases list.len(),
{
    if list.len() > 0 {
        let before = unique(list.drop_last());
        if list.last() == x {
            if !before.contains(x) {
                assert(before.push(x)[before.len() as int] == x);
            }
        } else {
            let k = choose|k: int| 0 <= k < list.len() && list[k] == x;
            assert(list.drop_last()[k] == x);
            lemma_unique_holds_all(list.drop_last(), x);
            let j = choose|j: int| 0 <= j < before.len() && before[j] == x;
            assert(with_unique(before, list.last())[j] == x);
        }
    }
}

/// Two carried entries with the same line are the same entry.
proof fn lemma_lines_tell_entries_apart(
    a: Seq<char>,
    b: Seq<char>,
    root: Seq<char>,
    disk: Seq<PathProbe>,
)
    requires
        carried(a, root, disk),
        carried(b, root, disk),
        relative_to(a, root) == relative_to(b, root),
    ensures
        a == b,
{
    let r = without_trailing_slash(root);
    if lies_under(a, root) && lies_under(b, root) {
        if r == seq!['/'] {
            assert(a.skip(1) == b.skip(1));
            assert(a =~= seq!['/'] + a.skip(1));
            assert(b =~= seq!['/'] + b.skip(1));
        } else {
            let n = r.len() + 1 as int;
            assert(a.skip(n) == b.skip(n));
            assert(a =~= r.push('/') + a.skip(n)) by {
                assert(a.subrange(0, r.len() as int) == r);
            }
            assert(b =~= r.push('/') + b.skip(n)) by {
                assert(b.subrange(0, r.len() as int) == r);
            }
        }
    }
}

/// Round trip: where root and entries are in normal form and every entry
/// can be carried, reading the manifest written for `entries` under
/// `root`, with the manifest in the root, gives back the entries, each
/// once, in the order in which they first occur, whether their lines are
/// relative or absolute.
pub proof fn law_manifest_round_trip(entries: Seq<Seq<char>>, root: Seq<char>, disk: Seq<PathProbe>)
    requires
        normal(root),
        forall|i: int| 0 <= i < entries.len() ==> carried(#[trigger] entries[i], root, disk),
    ensures
        manifest_entries(
            lines_text(manifest_lines(entries, root)),
            root,
            root,
            true,
            true,
            disk,
        ) == unique(entries),
{
    let lines = manifest_lines(entries, root);
    assert forall|i: int| 0 <= i < lines.len() implies (#[trigger] lines[i]).len() > 0
        && !lines[i].contains('\n') by {
        assert(lines.contains(lines[i]));
        lemma_manifest_lines_come_from_entries(entries, root, lines[i]);
    }
    lemma_pieces_of_lines(lines);
    assert(without_trailing_slash(root) == root);
    lemma_listed_lines(entries, root, disk);
}

proof fn lemma_listed_lines(entries: Seq<Seq<char>>, root: Seq<char>, disk: Seq<PathProbe>)
    requires
        without_trailing_slash(root) == root,
        forall|i: int| 0 <= i < entries.len() ==> carried(#[trigger] entries[i], root, disk),
    ensures
        listed(manifest_lines(entries, root), root, root, true, true, disk) == unique(entries),
    decreases entries.len(),
{
    if entries.len() > 0 {
        let rest = entries.drop_last();
        let e = entries.last();
        let before = manifest_lines(rest, root);
        let line = relative_to(e, root);
        assert forall|i: int| 0 <= i < rest.len() implies carried(
            #[trigger] rest[i],
            root,
            disk,
        ) by {
            assert(rest[i] == entries[i]);
        }
        lemma_listed_lines(rest, root, disk);
        assert(carried(e, root, disk));
        if before.contains(line) {
            lemma_manifest_lines_come_from_entries(rest, root, line);
            let i = choose|i: int|
                0 <= i < rest.len() && relative_to(#[trigger] rest[i], root) == line;
            lemma_lines_tell_entries_apart(rest[i], e, root, disk);
            assert(rest.contains(e));
            lemma_unique_holds_all(rest, e);
        } else {
            lemma_line_entry(e, root, disk);
            assert(before.push(line).drop_last() =~= before);
        }
    }
}

/// Where a manifest is written and what is written there.
pub fn write_filelist(root: &str, entries: &Vec<String>, filename: &str) -> (r: (String, String))
    requires
        normal(root@),
        forall|i: int| 0 <= i < entries@.len() ==> normal(#[trigger] entries@[i]@),
    ensures
        r.0@ == joined(root@, filename@),
        r.1@ == lines_text(manifest_lines(texts(entries@), root@)),
{
    let target = join(&chars_of(root), &chars_of(filename));
    (string_of(&target), build_filelist_text(entries, root))
}

} // verus!
