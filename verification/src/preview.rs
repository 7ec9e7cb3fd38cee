//! The text of a preview, put together from what was read of the entry.

use vstd::prelude::*;
use crate::actions::Action;
use crate::indexer::Entry;
use crate::text::{append_chars, chars_of, lower, string_of, texts, to_lower};
use crate::ui_model::{display_form, truncate_chars, truncated};

verus! {

/// How many lines of a file a preview shows.
pub const PREVIEW_MAX_LINES: usize = 20;

/// How many bytes of a file are read for a preview.
pub const PREVIEW_MAX_BYTES: usize = 65536;

/// A file is left alone where it is kept elsewhere and would have to be
/// fetched to be read; a directory never is.
pub fn should_skip_preview(is_dir: bool, on_demand: bool) -> (skip: bool)
    ensures
        skip == (!is_dir && on_demand),
{
    !is_dir && on_demand
}

/// Whether another line of a file is read for its preview.
pub fn preview_wants_more(lines_read: usize, bytes_read: usize) -> (more: bool)
    ensures
        more == (lines_read < PREVIEW_MAX_LINES && bytes_read < PREVIEW_MAX_BYTES),
{
    lines_read < PREVIEW_MAX_LINES && bytes_read < PREVIEW_MAX_BYTES
}

/// The lines, a line feed between each two.
pub open spec fn joined_lines(lines: Seq<Seq<char>>) -> Seq<char>
    decreases lines.len(),
{
    if lines.len() == 0 {
        Seq::empty()
    } else if lines.len() == 1 {
        lines[0]
    } else {
        joined_lines(lines.drop_last()) + seq!['\n'] + lines.last()
    }
}

/// The display forms of the given paths.
pub open spec fn display_forms(paths: Seq<Seq<char>>) -> Seq<Seq<char>> {
    Seq::new(paths.len(), |i: int| display_form(display_form(paths[i])))
}

/// The text that goes to the clipboard for the given paths: their display
/// forms, one per line.
pub fn clipboard_paths_text(paths: &Vec<String>) -> (text: String)
    ensures
        text@ == joined_lines(display_forms(texts(paths@))),
{
    let mut shown: Vec<String> = Vec::new();
    let mut i: usize = 0;
    while i < paths.len()
        invariant
            i <= paths.len(),
            shown@.len() == i,
            forall|k: int|
                0 <= k < i ==> shown@[k]@ == display_form(display_form(paths@[k]@)),
        decreases paths.len() - i,
    {
        shown.push(crate::ui_model::normalize_path_for_display(paths[i].as_str()));
        i += 1;
    }
    assert(texts(shown@) =~= display_forms(texts(paths@)));
    string_of(&join_lines(&shown))
}

/// What a file's preview holds below its head.
pub enum FileContent {
    /// The file is kept elsewhere and was not read.
    Skipped,
    /// The file could not be read as text.
    Unreadable,
    /// The first lines of the file.
    Lines(Vec<String>),
}

/// The head of a file's preview: its path and what selecting it does.
pub open spec fn file_head(path: Seq<char>, action: Action) -> Seq<char> {
    "File: "@ + path + "\nAction: "@ + action.label_text() + "\n"@
}

/// The preview of a file: the head, an empty line, and the lines read or
/// a note in their place.
pub open spec fn file_preview(path: Seq<char>, action: Action, content: FileContent) -> Seq<char> {
    file_head(path, action) + "\n"@ + match content {
        FileContent::Skipped => "<on-demand file: preview skipped>"@,
        FileContent::Unreadable => "<binary or unreadable file>"@,
        FileContent::Lines(lines) => if lines@.len() == 0 {
            "<empty file>"@
        } else {
            joined_lines(texts(lines@))
        },
    }
}

fn join_lines(lines: &Vec<String>) -> (r: Vec<char>)
    ensures
        r@ == joined_lines(texts(lines@)),
{
    let ghost all = texts(lines@);
    let mut out: Vec<char> = Vec::new();
    let mut i: usize = 0;
    while i < lines.len()
        invariant
            i <= lines.len(),
            all == texts(lines@),
            out@ == joined_lines(all.take(i as int)),
        decreases lines.len() - i,
    {
        assert(all.take(i + 1).drop_last() =~= all.take(i as int));
        assert(all.take(i + 1).last() == lines@[i as int]@);
        if i > 0 {
            out.push('\n');
        }
        append_chars(&mut out, &chars_of(lines[i].as_str()));
        proof {
            if i == 0 {
                assert(all.take(1)[0] == lines@[0]@);
                assert(out@ =~= lines@[0]@);
            } else {
                assert(out@ =~= joined_lines(all.take(i as int)) + seq!['\n'] + lines@[i as int]@);
            }
        }
        i += 1;
    }
    assert(all.take(lines.len() as int) =~= all);
    out
}

/// The preview text of a file. `path` is shown in its display form.
pub fn build_preview_text_with_kind(path: &str, action: Action, content: &FileContent) -> (text:
    String)
    ensures
        text@ == file_preview(display_form(display_form(path@)), action, *content),
{
    let shown = crate::ui_model::normalize_path_for_display(path);
    let head = String::from_str("File: ").concat(shown.as_str()).concat("\nAction: ").concat(
        action.label().as_str(),
    ).concat("\n").concat("\n");
    match content {
        FileContent::Skipped => head.concat("<on-demand file: preview skipped>"),
        FileContent::Unreadable => head.concat("<binary or unreadable file>"),
        FileContent::Lines(lines) => {
            if lines.len() == 0 {
                head.concat("<empty file>")
            } else {
                let body = string_of(&join_lines(lines));
                head.concat(body.as_str())
            }
        },
    }
}

/// How many children a directory's preview lists.
pub const DIRECTORY_MAX_LINES: usize = 24;

/// How many characters of a child's name are shown.
pub const DIRECTORY_MAX_NAME_CHARS: usize = 80;

/// The decimal digit of a number below ten.
pub open spec fn digit(d: nat) -> char {
    ((48 + d) as u8) as char
}

/// A number in decimal notation.
pub open spec fn decimal(n: nat) -> Seq<char>
    decreases n,
{
    if n < 10 {
        seq![digit(n)]
    } else {
        decimal(n / 10).push(digit(n % 10))
    }
}

/// A number in decimal notation.
pub fn decimal_digits(n: usize) -> (r: Vec<char>)
    ensures
        r@ == decimal(n as nat),
    decreases n,
{
    if n < 10 {
        let mut out: Vec<char> = Vec::new();
        out.push((48 + n as u8) as char);
        assert(out@ =~= seq![digit(n as nat)]);
        out
    } else {
        let mut out = decimal_digits(n / 10);
        out.push((48 + (n % 10) as u8) as char);
        out
    }
}

/// `a` comes before `b`, or is equal to it, character by character.
pub open spec fn text_le(a: Seq<char>, b: Seq<char>) -> bool
    decreases a.len(),
{
    if a.len() == 0 {
        true
    } else if b.len() == 0 {
        false
    } else if a[0] != b[0] {
        (a[0] as u32) < (b[0] as u32)
    } else {
        text_le(a.drop_first(), b.drop_first())
    }
}

/// Whether `a` comes before `b` or equals it.
pub fn is_text_le(a: &Vec<char>, b: &Vec<char>) -> (r: bool)
    ensures
        r == text_le(a@, b@),
{
    let mut i: usize = 0;
    assert(a@.skip(0) =~= a@ && b@.skip(0) =~= b@);
    while i < a.len() && i < b.len()
        invariant
            i <= a.len(),
            i <= b.len(),
            text_le(a@, b@) == text_le(a@.skip(i as int), b@.skip(i as int)),
        decreases a.len() - i,
    {
        assert(a@.skip(i as int).drop_first() =~= a@.skip(i + 1));
        assert(b@.skip(i as int).drop_first() =~= b@.skip(i + 1));
        if a[i] != b[i] {
            return (a[i] as u32) < (b[i] as u32);
        }
        i += 1;
    }
    i == a.len()
}

/// Where a child goes among children sorted by lower-cased name: behind
/// every child whose name does not come after its own.
pub open spec fn child_pos(sorted: Seq<Entry>, name: Seq<char>) -> int
    decreases sorted.len(),
{
    if sorted.len() == 0 || !text_le(lower(sorted[0].path@), lower(name)) {
        0
    } else {
        1 + child_pos(sorted.drop_first(), name)
    }
}

/// The children in the order of their lower-cased names; children with
/// the same lower-cased name keep their order.
pub open spec fn sorted_children(children: Seq<Entry>) -> Seq<Entry>
    decreases children.len(),
{
    if children.len() == 0 {
        Seq::empty()
    } else {
        let before = sorted_children(children.drop_last());
        before.insert(child_pos(before, children.last().path@), children.last())
    }
}

/// The line of one child: its kind, and its name cut to length.
pub open spec fn child_line(child: Entry) -> Seq<char> {
    (if child.is_dir {
        "[D] "@
    } else {
        "[F] "@
    }) + truncated(child.path@, DIRECTORY_MAX_NAME_CHARS as nat)
}

/// The lines of the first children, and a note on how many more there are.
pub open spec fn child_lines(sorted: Seq<Entry>) -> Seq<Seq<char>> {
    let shown = Seq::new(
        if sorted.len() < DIRECTORY_MAX_LINES {
            sorted.len()
        } else {
            DIRECTORY_MAX_LINES as nat
        },
        |i: int| child_line(sorted[i]),
    );
    if sorted.len() > DIRECTORY_MAX_LINES {
        shown.push("... ("@ + decimal((sorted.len() - DIRECTORY_MAX_LINES) as nat) + " more)"@)
    } else {
        shown
    }
}

/// The preview of a directory: its path, the number of its children and
/// the first of them by name; a note where it could not be listed or is
/// empty.
pub open spec fn directory_preview(path: Seq<char>, children: Option<Seq<Entry>>) -> Seq<char> {
    match children {
        None => "Directory: "@ + path + "
Children: <unavailable>"@,
        Some(list) => if list.len() == 0 {
            "Directory: "@ + path + "
Children: 0
<empty>"@
        } else {
            "Directory: "@ + path + "
Children: "@ + decimal(list.len()) + "
Scope: direct children only

"@
                + joined_lines(child_lines(sorted_children(list)))
        },
    }
}

fn sort_children(children: &Vec<Entry>) -> (r: Vec<Entry>)
    ensures
        r@ == sorted_children(children@),
{
    let mut out: Vec<Entry> = Vec::new();
    let mut i: usize = 0;
    while i < children.len()
        invariant
            i <= children.len(),
            out@ == sorted_children(children@.take(i as int)),
        decreases children.len() - i,
    {
        assert(children@.take(i + 1).drop_last() =~= children@.take(i as int));
        let child = &children[i];
        let key = to_lower(&chars_of(child.path.as_str()));
        let mut p: usize = 0;
        assert(out@.skip(0) =~= out@);
        while p < out.len() && is_text_le(&to_lower(&chars_of(out[p].path.as_str())), &key)
            invariant
                p <= out.len(),
                key@ == lower(child.path@),
                child_pos(out@, child.path@) == p + child_pos(out@.skip(p as int), child.path@),
            decreases out.len() - p,
        {
            assert(out@.skip(p as int).drop_first() =~= out@.skip(p + 1));
            assert(out@.skip(p as int)[0] == out@[p as int]);
            p += 1;
        }
        assert(p < out.len() ==> out@.skip(p as int)[0] == out@[p as int]);
        out.insert(p, Entry { path: child.path.clone(), is_dir: child.is_dir });
        assert(out@ =~= sorted_children(children@.take(i as int)).insert(
            p as int,
            children@[i as int],
        )) by {
            assert(out@[p as int].path@ == children@[i as int].path@);
            assert(out@[p as int].is_dir == children@[i as int].is_dir);
            assert(out@[p as int] == children@[i as int]);
        }
        i += 1;
    }
    assert(children@.take(children.len() as int) =~= children@);
    out
}

/// The preview text of a directory. `children` holds the name and kind
/// of each direct child, or `None` where the directory could not be
/// listed. `path` is shown in its display form.
pub fn build_directory_preview_text(path: &str, children: Option<&Vec<Entry>>) -> (text: String)
    ensures
        text@ == directory_preview(
            display_form(display_form(path@)),
            match children {
                Some(list) => Some(list@),
                None => None,
            },
        ),
{
    let shown = crate::ui_model::normalize_path_for_display(path);
    let head = String::from_str("Directory: ").concat(shown.as_str());
    let list = match children {
        None => {
            return head.concat("\nChildren: <unavailable>");
        },
        Some(list) => list,
    };
    if list.len() == 0 {
        return head.concat("\nChildren: 0\n<empty>");
    }
    let sorted = sort_children(list);
    let n: usize = if sorted.len() < DIRECTORY_MAX_LINES {
        sorted.len()
    } else {
        DIRECTORY_MAX_LINES
    };
    let mut lines: Vec<String> = Vec::new();
    let mut i: usize = 0;
    while i < n
        invariant
            i <= n <= sorted.len(),
            lines@.len() == i,
            forall|k: int| 0 <= k < i ==> lines@[k]@ == child_line(sorted@[k]),
        decreases n - i,
    {
        let child = &sorted[i];
        let name = string_of(
            &truncate_chars(&chars_of(child.path.as_str()), DIRECTORY_MAX_NAME_CHARS),
        );
        let marker = if child.is_dir {
            "[D] "
        } else {
            "[F] "
        };
        lines.push(String::from_str(marker).concat(name.as_str()));
        i += 1;
    }
    if sorted.len() > DIRECTORY_MAX_LINES {
        let more = string_of(&decimal_digits(sorted.len() - DIRECTORY_MAX_LINES));
        lines.push(String::from_str("... (").concat(more.as_str()).concat(" more)"));
    }
    assert(texts(lines@) =~= child_lines(sorted@));
    let total = string_of(&decimal_digits(list.len()));
    let body = string_of(&join_lines(&lines));
    head.concat("\nChildren: ").concat(total.as_str()).concat(
        "\nScope: direct children only\n\n",
    ).concat(body.as_str())
}

/// What was read of an entry for its preview.
pub enum EntryContent {
    /// A directory, with the names and kinds of its direct children, or
    /// `None` where it could not be listed.
    Directory(Option<Vec<Entry>>),
    /// A file, with what selecting it does and what was read of it.
    File(Action, FileContent),
}

/// The preview of an entry, by its kind.
pub open spec fn entry_preview(path: Seq<char>, content: EntryContent) -> Seq<char> {
    match content {
        EntryContent::Directory(children) => directory_preview(
            path,
            match children {
                Some(list) => Some(list@),
                None => None,
            },
        ),
        EntryContent::File(action, read) => file_preview(path, action, read),
    }
}

/// The preview text of an entry. `path` is shown in its display form.
pub fn build_preview_text(path: &str, content: &EntryContent) -> (text: String)
    ensures
        text@ == entry_preview(display_form(display_form(path@)), *content),
{
    match content {
        EntryContent::Directory(children) => build_directory_preview_text(
            path,
            match children {
                Some(list) => Some(list),
                None => None,
            },
        ),
        EntryContent::File(action, read) => build_preview_text_with_kind(path, *action, read),
    }
}

} // verus!
