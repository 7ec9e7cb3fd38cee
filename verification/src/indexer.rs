//! Building the index: from a manifest in the root, or from a walk of the
//! tree below it. The disk is read elsewhere; what it said comes in as
//! plain values.

use vstd::prelude::*;
use crate::manifest::{
    find_filelist_in_first_level, manifest_choice, manifest_entries, parse_filelist, PathProbe,
};
use crate::paths::{join, joined};
use crate::text::{chars_of, string_of, texts};

verus! {

/// Where the entries of an index came from.
#[derive(Debug, Clone, PartialEq, Eq)]
pub enum IndexSource {
    FileList(String),
    Walker,
    /// Nothing was indexed.
    Nothing,
}

/// The entries of one index build and their provenance.
#[derive(Debug, Clone)]
pub struct IndexBuildResult {
    pub entries: Vec<String>,
    pub source: IndexSource,
}

/// One thing found on disk: its path and whether it is a directory.
#[derive(Debug, Clone)]
pub struct Entry {
    pub path: String,
    pub is_dir: bool,
}

/// The paths of the directories (or of everything else) among `found`, in
/// order.
pub open spec fn paths_of_kind(found: Seq<Entry>, dirs: bool) -> Seq<Seq<char>>
    decreases found.len(),
{
    if found.len() == 0 {
        Seq::empty()
    } else {
        let before = paths_of_kind(found.drop_last(), dirs);
        if found.last().is_dir == dirs {
            before.push(found.last().path@)
        } else {
            before
        }
    }
}

/// The paths of a kind are the paths of the entries of that kind.
pub proof fn law_paths_of_kind_members(found: Seq<Entry>, dirs: bool, x: Seq<char>)
    ensures
        paths_of_kind(found, dirs).contains(x) <==> exists|i: int|
            0 <= i < found.len() && (#[trigger] found[i]).is_dir == dirs && found[i].path@ == x,
    decreases found.len(),
{
    let all = paths_of_kind(found, dirs);
    if found.len() == 0 {
        assert(!all.contains(x));
    } else {
        let rest = found.drop_last();
        let before = paths_of_kind(rest, dirs);
        let e = found.last();
        law_paths_of_kind_members(rest, dirs, x);
        if all.contains(x) {
            if before.contains(x) {
                let i = choose|i: int|
                    0 <= i < rest.len() && (#[trigger] rest[i]).is_dir == dirs && rest[i].path@
                        == x;
                assert(found[i] == rest[i]);
            } else {
                let k = choose|k: int| 0 <= k < all.len() && all[k] == x;
                if k < before.len() {
                    assert(before[k] == x);
                }
                assert(found[found.len() - 1] == e);
            }
        }
        if exists|i: int|
            0 <= i < found.len() && (#[trigger] found[i]).is_dir == dirs && found[i].path@ == x {
            let i = choose|i: int|
                0 <= i < found.len() && (#[trigger] found[i]).is_dir == dirs && found[i].path@
                    == x;
            if i < rest.len() {
                assert(rest[i] == found[i]);
                let k = choose|k: int| 0 <= k < before.len() && before[k] == x;
                assert(all[k] == x);
            } else {
                assert(all[before.len() as int] == x);
            }
        }
    }
}

/// Files and directories of a walk: where the walk names no path twice,
/// no path is both a file and a directory of it; and the two together are
/// the paths of the walk.
pub proof fn law_walk_parts(found: Seq<Entry>)
    ensures
        (forall|i: int, j: int| 0 <= i < j < found.len() ==> found[i].path@ != found[j].path@)
            ==> forall|x: Seq<char>|
            !(paths_of_kind(found, false).contains(x) && paths_of_kind(found, true).contains(x)),
        forall|x: Seq<char>|
            walk_selection(found, true, true).contains(x) <==> paths_of_kind(found, false).contains(
                x,
            ) || paths_of_kind(found, true).contains(x),
        forall|x: Seq<char>|
            walk_selection(found, true, true).contains(x) <==> exists|i: int|
                0 <= i < found.len() && (#[trigger] found[i]).path@ == x,
{
    let files = paths_of_kind(found, false);
    let dirs = paths_of_kind(found, true);
    let both = walk_selection(found, true, true);
    assert forall|x: Seq<char>| both.contains(x) <==> files.contains(x) || dirs.contains(x) by {
        if both.contains(x) {
            let k = choose|k: int| 0 <= k < both.len() && both[k] == x;
            if k < files.len() {
                assert(files[k] == x);
            } else {
                assert(dirs[k - files.len()] == x);
            }
        }
        if files.contains(x) {
            let k = choose|k: int| 0 <= k < files.len() && files[k] == x;
            assert(both[k] == x);
        }
        if dirs.contains(x) {
            let k = choose|k: int| 0 <= k < dirs.len() && dirs[k] == x;
            assert(both[files.len() + k] == x);
        }
    }
    assert forall|x: Seq<char>| both.contains(x) <==> exists|i: int|
        0 <= i < found.len() && (#[trigger] found[i]).path@ == x by {
        law_paths_of_kind_members(found, false, x);
        law_paths_of_kind_members(found, true, x);
        if exists|i: int| 0 <= i < found.len() && (#[trigger] found[i]).path@ == x {
            let i = choose|i: int| 0 <= i < found.len() && (#[trigger] found[i]).path@ == x;
            assert(found[i].is_dir == true || found[i].is_dir == false);
        }
    }
    if forall|i: int, j: int| 0 <= i < j < found.len() ==> found[i].path@ != found[j].path@ {
        assert forall|x: Seq<char>| !(files.contains(x) && dirs.contains(x)) by {
            law_paths_of_kind_members(found, false, x);
            law_paths_of_kind_members(found, true, x);
            if files.contains(x) && dirs.contains(x) {
                let i = choose|i: int|
                    0 <= i < found.len() && (#[trigger] found[i]).is_dir == false && found[i].path@
                        == x;
                let j = choose|j: int|
                    0 <= j < found.len() && (#[trigger] found[j]).is_dir == true && found[j].path@
                        == x;
                if i < j {
                    assert(found[i].path@ != found[j].path@);
                } else {
                    assert(found[j].path@ != found[i].path@);
                }
            }
        }
    }
}

fn collect_kind(found: &Vec<Entry>, dirs: bool, out: &mut Vec<String>)
    ensures
        texts(final(out)@) == texts(old(out)@) + paths_of_kind(found@, dirs),
{
    let ghost start = texts(out@);
    let mut i: usize = 0;
    assert(start + Seq::<Seq<char>>::empty() =~= start);
    while i < found.len()
        invariant
            i <= found.len(),
            texts(out@) == start + paths_of_kind(found@.take(i as int), dirs),
        decreases found.len() - i,
    {
        assert(found@.take(i + 1).drop_last() =~= found@.take(i as int));
        if found[i].is_dir == dirs {
            let ghost before = texts(out@);
            out.push(found[i].path.clone());
            assert(texts(out@) =~= before.push(found@[i as int].path@));
            assert(before.push(found@[i as int].path@) =~= start + paths_of_kind(
                found@.take(i as int),
                dirs,
            ).push(found@[i as int].path@));
        }
        i += 1;
    }
    assert(found@.take(found.len() as int) =~= found@);
}

/// The files of a walk: everything that is no directory.
pub fn walk_files(found: &Vec<Entry>) -> (r: Vec<String>)
    ensures
        texts(r@) == paths_of_kind(found@, false),
{
    let mut out: Vec<String> = Vec::new();
    assert(texts(out@) =~= Seq::<Seq<char>>::empty());
    collect_kind(found, false, &mut out);
    assert(Seq::<Seq<char>>::empty() + paths_of_kind(found@, false) =~= paths_of_kind(
        found@,
        false,
    ));
    out
}

/// The directories of a walk.
pub fn walk_dirs(found: &Vec<Entry>) -> (r: Vec<String>)
    ensures
        texts(r@) == paths_of_kind(found@, true),
{
    let mut out: Vec<String> = Vec::new();
    assert(texts(out@) =~= Seq::<Seq<char>>::empty());
    collect_kind(found, true, &mut out);
    assert(Seq::<Seq<char>>::empty() + paths_of_kind(found@, true) =~= paths_of_kind(found@, true));
    out
}

/// What a walk contributes under the given switches: the files, then the
/// directories.
pub open spec fn walk_selection(found: Seq<Entry>, include_files: bool, include_dirs: bool) -> Seq<
    Seq<char>,
> {
    (if include_files {
        paths_of_kind(found, false)
    } else {
        Seq::empty()
    }) + (if include_dirs {
        paths_of_kind(found, true)
    } else {
        Seq::empty()
    })
}

/// The paths that a walk contributes under the given switches.
pub fn walk_entries(found: &Vec<Entry>, include_files: bool, include_dirs: bool) -> (r: Vec<String>)
    ensures
        texts(r@) == walk_selection(found@, include_files, include_dirs),
{
    let mut out: Vec<String> = Vec::new();
    assert(texts(out@) =~= Seq::<Seq<char>>::empty());
    if include_files {
        collect_kind(found, false, &mut out);
    }
    if include_dirs {
        collect_kind(found, true, &mut out);
    }
    assert(texts(out@) =~= walk_selection(found@, include_files, include_dirs));
    out
}

/// How an index is built.
#[derive(Clone, Copy, PartialEq, Eq, Structural, Debug)]
pub enum IndexPlan {
    /// Files and directories are both switched off: there is nothing to do.
    Nothing,
    /// Read the manifest that is the root file at this position.
    Manifest(usize),
    /// Walk the tree.
    Walk,
}

/// The plan for the given switches and the names of the root's files. A
/// manifest is used only where one is asked for and one is there.
pub open spec fn planned(
    use_filelist: bool,
    include_files: bool,
    include_dirs: bool,
    root_files: Seq<Seq<char>>,
) -> IndexPlan {
    if !include_files && !include_dirs {
        IndexPlan::Nothing
    } else if use_filelist && manifest_choice(root_files) is Some {
        IndexPlan::Manifest(manifest_choice(root_files).unwrap() as usize)
    } else {
        IndexPlan::Walk
    }
}

/// Decides how an index is built.
pub fn plan_index(
    use_filelist: bool,
    include_files: bool,
    include_dirs: bool,
    root_files: &Vec<String>,
) -> (plan: IndexPlan)
    ensures
        plan == planned(use_filelist, include_files, include_dirs, texts(root_files@)),
        plan matches IndexPlan::Manifest(k) ==> k < root_files.len(),
{
    if !include_files && !include_dirs {
        return IndexPlan::Nothing;
    }
    if use_filelist {
        match find_filelist_in_first_level(root_files) {
            Some(k) => {
                return IndexPlan::Manifest(k);
            },
            None => {},
        }
    }
    IndexPlan::Walk
}

/// What was read from disk for one index build. A part that the plan does
/// not need may be left empty.
#[derive(Debug, Clone)]
pub struct DiskView {
    /// The names of the files that lie directly in the root.
    pub root_files: Vec<String>,
    /// The text of the manifest, or `None` where it could not be read.
    pub manifest_text: Option<String>,
    /// What exists among the candidate paths of the manifest's lines.
    pub probes: Vec<PathProbe>,
    /// What a walk below the root found, the root itself left out.
    pub walked: Vec<Entry>,
}

/// An index build that failed.
#[derive(Debug, Clone)]
pub enum IndexError {
    /// The manifest at this path could not be read.
    ManifestUnreadable(String),
}

impl IndexError {
    /// A one-line description of the error.
    pub fn message(&self) -> (text: String)
        ensures
            self matches IndexError::ManifestUnreadable(p) ==> text@ == "failed to read "@ + p@,
    {
        match self {
            IndexError::ManifestUnreadable(p) => String::from_str("failed to read ").concat(
                p.as_str(),
            ),
        }
    }
}

/// Builds the index of `root` from what `disk` holds. With files and
/// directories both switched off the result is empty, with source `Nothing`.
/// A manifest in the root is used where `use_filelist` asks for it and it
/// can be read; that it cannot be read is an error. Otherwise the walk is
/// used.
pub fn build_index_with_metadata(
    root: &str,
    use_filelist: bool,
    include_files: bool,
    include_dirs: bool,
    disk: &DiskView,
) -> (r: Result<IndexBuildResult, IndexError>)
    ensures
        match planned(use_filelist, include_files, include_dirs, texts(disk.root_files@)) {
            IndexPlan::Nothing => r matches Ok(built) && built.entries@.len() == 0
                && built.source is Nothing,
            IndexPlan::Manifest(k) => match disk.manifest_text {
                Some(text) => r matches Ok(built) && texts(built.entries@) == manifest_entries(
                    text@,
                    root@,
                    root@,
                    include_files,
                    include_dirs,
                    disk.probes@,
                ) && (built.source matches IndexSource::FileList(p) && p@ == joined(
                    root@,
                    disk.root_files@[k as int]@,
                )),
                None => r matches Err(IndexError::ManifestUnreadable(p)) && p@ == joined(
                    root@,
                    disk.root_files@[k as int]@,
                ),
            },
            IndexPlan::Walk => r matches Ok(built) && texts(built.entries@) == walk_selection(
                disk.walked@,
                include_files,
                include_dirs,
            ) && built.source is Walker,
        },
{
    match plan_index(use_filelist, include_files, include_dirs, &disk.root_files) {
        IndexPlan::Nothing => Ok(
            IndexBuildResult { entries: Vec::new(), source: IndexSource::Nothing },
        ),
        IndexPlan::Manifest(k) => {
            let path = string_of(
                &join(&chars_of(root), &chars_of(disk.root_files[k].as_str())),
            );
            match &disk.manifest_text {
                Some(text) => {
                    let entries = parse_filelist(
                        text.as_str(),
                        root,
                        root,
                        include_files,
                        include_dirs,
                        &disk.probes,
                    );
                    Ok(IndexBuildResult { entries, source: IndexSource::FileList(path) })
                },
                None => Err(IndexError::ManifestUnreadable(path)),
            }
        },
        IndexPlan::Walk => Ok(
            IndexBuildResult {
                entries: walk_entries(&disk.walked, include_files, include_dirs),
                source: IndexSource::Walker,
            },
        ),
    }
}

/// As `build_index_with_metadata`, the entries alone.
pub fn build_index(
    root: &str,
    use_filelist: bool,
    include_files: bool,
    include_dirs: bool,
    disk: &DiskView,
) -> (r: Result<Vec<String>, IndexError>)
    ensures
        match planned(use_filelist, include_files, include_dirs, texts(disk.root_files@)) {
            IndexPlan::Nothing => r matches Ok(entries) && entries@.len() == 0,
            IndexPlan::Manifest(k) => match disk.manifest_text {
                Some(text) => r matches Ok(entries) && texts(entries@) == manifest_entries(
                    text@,
                    root@,
                    root@,
                    include_files,
                    include_dirs,
                    disk.probes@,
                ),
                None => r matches Err(IndexError::ManifestUnreadable(p)) && p@ == joined(
                    root@,
                    disk.root_files@[k as int]@,
                ),
            },
            IndexPlan::Walk => r matches Ok(entries) && texts(entries@) == walk_selection(
                disk.walked@,
                include_files,
                include_dirs,
            ),
        },
{
    match build_index_with_metadata(root, use_filelist, include_files, include_dirs, disk) {
        Ok(built) => Ok(built.entries),
        Err(e) => Err(e),
    }
}

} // verus!
