//! Paths as text. A path is the sequence of its characters with `/` between
//! its components; nothing here touches a file system. What lies under
//! what is decided on paths in normal form, as a canonical path is.

use vstd::prelude::*;
use crate::text::{append_chars, chars_of, copy_range, pieces, split, views, Delim};

verus! {

/// The name among the components of a path, read from the back: `.`
/// components are passed over; a `..` component, or no component at all,
/// gives the empty name.
pub open spec fn last_name(parts: Seq<Seq<char>>) -> Seq<char>
    decreases parts.len(),
{
    if parts.len() == 0 {
        Seq::empty()
    } else if parts.last() == seq!['.'] {
        last_name(parts.drop_last())
    } else if parts.last() == seq!['.', '.'] {
        Seq::empty()
    } else {
        parts.last()
    }
}

/// The file name of a path, as the standard library gives it for a POSIX
/// path: its last component, trailing slashes and `.` components apart;
/// empty for the root, for the empty path and for a path that ends in
/// `..`.
pub open spec fn file_name(path: Seq<char>) -> Seq<char> {
    last_name(pieces(path, Delim::Slash))
}

/// The file name of a path.
pub fn file_name_of(path: &Vec<char>) -> (name: Vec<char>)
    ensures
        name@ == file_name(path@),
{
    let parts = split(path, Delim::Slash);
    let ghost all = views(parts@);
    let mut i: usize = parts.len();
    assert(all.take(i as int) =~= all);
    while i > 0
        invariant
            i <= parts.len(),
            all == views(parts@),
            all == pieces(path@, Delim::Slash),
            last_name(all) == last_name(all.take(i as int)),
        decreases i,
    {
        let part = &parts[i - 1];
        assert(all.take(i as int).last() == part@);
        assert(all.take(i as int).drop_last() =~= all.take(i - 1));
        if part.len() == 1 && part[0] == '.' {
            assert(part@ =~= seq!['.']);
            i -= 1;
        } else {
            assert(part@ != seq!['.']) by {
                if part@ == seq!['.'] {
                    assert(seq!['.'].len() == 1 && seq!['.'][0] == '.');
                }
            }
            if part.len() == 2 && part[0] == '.' && part[1] == '.' {
                assert(part@ =~= seq!['.', '.']);
                return Vec::new();
            }
            assert(part@ != seq!['.', '.']) by {
                if part@ == seq!['.', '.'] {
                    assert(seq!['.', '.'].len() == 2 && seq!['.', '.'][0] == '.' && seq![
                        '.',
                        '.',
                    ][1] == '.');
                }
            }
            let out = copy_range(part, 0, part.len());
            assert(part@.subrange(0, part.len() as int) =~= part@);
            return out;
        }
    }
    Vec::new()
}

/// A path in normal form: no empty component, so no `//` and no `/` at
/// its end (the bare root `/` apart), and no `.` component.
pub open spec fn normal(p: Seq<char>) -> bool {
    &&& forall|i: int| 0 <= i < p.len() - 1 ==> !(#[trigger] p[i] == '/' && p[i + 1] == '/')
    &&& p.len() > 1 ==> p.last() != '/'
    &&& forall|i: int|
        0 <= i < p.len() && #[trigger] p[i] == '.' && (i == 0 || p[i - 1] == '/') ==> i + 1
            < p.len() && p[i + 1] != '/'
}

/// Whether a path is in normal form.
pub fn is_normal(p: &Vec<char>) -> (r: bool)
    ensures
        r == normal(p@),
{
    let n = p.len();
    if n > 1 && p[n - 1] == '/' {
        return false;
    }
    let mut i: usize = 0;
    while i < n
        invariant
            i <= n,
            n == p.len(),
            forall|k: int| 0 <= k < i && k < n - 1 ==> !(#[trigger] p@[k] == '/' && p@[k + 1] == '/'),
            forall|k: int|
                0 <= k < i && #[trigger] p@[k] == '.' && (k == 0 || p@[k - 1] == '/') ==> k + 1 < n
                    && p@[k + 1] != '/',
        decreases n - i,
    {
        if p[i] == '/' && i + 1 < n && p[i + 1] == '/' {
            return false;
        }
        if p[i] == '.' && (i == 0 || p[i - 1] == '/') && !(i + 1 < n && p[i + 1] != '/') {
            return false;
        }
        i += 1;
    }
    true
}

/// Whether a path, given as a string, is in normal form.
pub fn is_normal_path(path: &str) -> (r: bool)
    ensures
        r == normal(path@),
{
    is_normal(&chars_of(path))
}

/// A directory path without one trailing `/` (the bare root `/` is kept).
pub open spec fn without_trailing_slash(dir: Seq<char>) -> Seq<char> {
    if dir.len() > 1 && dir.last() == '/' {
        dir.drop_last()
    } else {
        dir
    }
}

/// `path` lies strictly below `root`: it continues `root` with a `/` and at
/// least one more character.
pub open spec fn lies_under(path: Seq<char>, root: Seq<char>) -> bool {
    let r = without_trailing_slash(root);
    if r == seq!['/'] {
        path.len() > 1 && path[0] == '/'
    } else {
        r.len() > 0 && path.len() > r.len() + 1 && path.subrange(0, r.len() as int) == r
            && path[r.len() as int] == '/'
    }
}

/// What a path is called from `root`: its remainder where it lies under
/// `root`, the empty text where it is `root` itself, else the whole path.
pub open spec fn relative_to(path: Seq<char>, root: Seq<char>) -> Seq<char> {
    let r = without_trailing_slash(root);
    if path == r {
        Seq::empty()
    } else if lies_under(path, root) {
        if r == seq!['/'] {
            path.skip(1)
        } else {
            path.skip(r.len() + 1 as int)
        }
    } else {
        path
    }
}

/// A path as it is called from `root`, both in normal form.
pub fn strip_root(path: &Vec<char>, root: &Vec<char>) -> (r: Vec<char>)
    requires
        normal(path@),
        normal(root@),
    ensures
        r@ == relative_to(path@, root@),
{
    let rlen: usize = if root.len() > 1 && root[root.len() - 1] == '/' {
        root.len() - 1
    } else {
        root.len()
    };
    let ghost r = without_trailing_slash(root@);
    assert(r =~= root@.subrange(0, rlen as int));
    if rlen > path.len() {
        assert(path@ != r);
        return copy_range(path, 0, path.len());
    }
    let mut k: usize = 0;
    while k < rlen
        invariant
            k <= rlen <= path.len(),
            rlen <= root.len(),
            r == root@.subrange(0, rlen as int),
            r == without_trailing_slash(root@),
            forall|j: int| 0 <= j < k ==> path@[j] == root@[j],
        decreases rlen - k,
    {
        if path[k] != root[k] {
            proof {
                assert(r[k as int] == root@[k as int]);
                assert(r.len() == rlen);
                assert(seq!['/'][0] == '/');
                assert(path@.subrange(0, rlen as int)[k as int] == path@[k as int]);
            }
            let out = copy_range(path, 0, path.len());
            assert(path@.subrange(0, path.len() as int) =~= path@);
            return out;
        }
        k += 1;
    }
    assert(path@.subrange(0, rlen as int) =~= r);
    if path.len() == rlen {
        assert(path@ =~= r);
        return Vec::new();
    }
    assert(path@.subrange(0, path.len() as int) =~= path@);
    if rlen == 1 && root[0] == '/' {
        assert(r =~= seq!['/']);
        assert(path@[0] == '/');
        let out = copy_range(path, 1, path.len());
        assert(path@.skip(1) =~= path@.subrange(1, path.len() as int));
        return out;
    }
    assert(r != seq!['/']) by {
        if r == seq!['/'] {
            assert(r.len() == 1);
            assert(r[0] == '/');
        }
    }
    if rlen > 0 && path[rlen] == '/' && path.len() > rlen + 1 {
        let out = copy_range(path, rlen + 1, path.len());
        assert(path@.skip(rlen + 1) =~= path@.subrange(rlen + 1, path.len() as int));
        out
    } else {
        copy_range(path, 0, path.len())
    }
}

/// `dir` and `rest` joined by one `/`; an absolute `rest` replaces `dir`.
pub open spec fn joined(dir: Seq<char>, rest: Seq<char>) -> Seq<char> {
    if rest.len() > 0 && rest[0] == '/' {
        rest
    } else if dir.len() == 0 || dir.last() == '/' {
        dir + rest
    } else {
        dir.push('/') + rest
    }
}

/// Joins a directory and a path.
pub fn join(dir: &Vec<char>, rest: &Vec<char>) -> (r: Vec<char>)
    ensures
        r@ == joined(dir@, rest@),
{
    if rest.len() > 0 && rest[0] == '/' {
        let out = copy_range(rest, 0, rest.len());
        assert(rest@.subrange(0, rest.len() as int) =~= rest@);
        return out;
    }
    let mut out = copy_range(dir, 0, dir.len());
    assert(dir@.subrange(0, dir.len() as int) =~= dir@);
    if dir.len() > 0 && dir[dir.len() - 1] != '/' {
        out.push('/');
    }
    append_chars(&mut out, rest);
    out
}

} // verus!
