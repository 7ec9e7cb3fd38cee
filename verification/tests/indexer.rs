use flist_walker::indexer::{
    build_index, build_index_with_metadata, plan_index, walk_dirs, walk_entries, walk_files,
    DiskView, Entry, IndexError, IndexPlan, IndexSource,
};
use flist_walker::manifest::{
    build_filelist_text, filelist_candidates, find_filelist, find_filelist_in_first_level,
    parse_filelist, windows_path_to_wsl, write_filelist, PathProbe,
};

fn names(items: &[&str]) -> Vec<String> {
    items.iter().map(|s| s.to_string()).collect()
}

fn file(path: &str) -> PathProbe {
    PathProbe { path: path.to_string(), canonical: path.to_string(), is_file: true, is_dir: false }
}

fn dir(path: &str) -> PathProbe {
    PathProbe { path: path.to_string(), canonical: path.to_string(), is_file: false, is_dir: true }
}

fn found(path: &str, is_dir: bool) -> Entry {
    Entry { path: path.to_string(), is_dir }
}

fn disk(root_files: &[&str], manifest: Option<&str>, probes: Vec<PathProbe>, walked: Vec<Entry>) -> DiskView {
    DiskView {
        root_files: names(root_files),
        manifest_text: manifest.map(|s| s.to_string()),
        probes,
        walked,
    }
}

#[test]
fn windows_path_to_wsl_converts_drive_path() {
    let converted = windows_path_to_wsl(r"C:\Users\alice\work\file.txt");
    assert_eq!(converted, Some("/mnt/c/Users/alice/work/file.txt".to_string()));
}

#[test]
fn windows_path_to_wsl_rejects_what_has_no_drive() {
    assert_eq!(windows_path_to_wsl("/usr/lib"), None);
    assert_eq!(windows_path_to_wsl(r"\\server\share\x"), None);
    assert_eq!(windows_path_to_wsl("C:"), None);
    assert_eq!(windows_path_to_wsl("1:/x"), None);
    assert_eq!(windows_path_to_wsl("d:/x/y"), Some("/mnt/d/x/y".to_string()));
}

#[test]
fn find_filelist_prefers_uppercase_name() {
    let files = names(&["filelist.txt", "a.txt", "FileList.txt"]);
    let found = find_filelist(&files).expect("find filelist");
    assert_eq!(files[found], "FileList.txt");
}

#[test]
fn find_filelist_accepts_lowercase_name() {
    let files = names(&["a.txt", "FILELIST.TXT", "filelist.txt"]);
    let found = find_filelist(&files).expect("find filelist");
    assert_eq!(files[found], "filelist.txt");
}

#[test]
fn find_filelist_accepts_any_case_as_a_last_resort() {
    let files = names(&["a.txt", "FILELIST.TXT", "Filelist.Txt"]);
    assert_eq!(find_filelist(&files), Some(1));
    assert_eq!(find_filelist_in_first_level(&files), Some(1));
}

#[test]
fn find_filelist_in_first_level_only_checks_root() {
    let files = names(&["readme.md"]);
    let found = find_filelist_in_first_level(&files);
    assert!(found.is_none());
}

#[test]
fn parse_filelist_resolves_relative_and_absolute_paths() {
    let probes = vec![file("/r/alpha.txt"), file("/r/beta.txt")];
    let text = "# comment\nalpha.txt\n/r/beta.txt\nmissing.txt\n";
    let parsed = parse_filelist(text, "/r", "/r", true, true, &probes);
    assert!(parsed.contains(&"/r/alpha.txt".to_string()));
    assert!(parsed.contains(&"/r/beta.txt".to_string()));
    assert_eq!(parsed.len(), 2);
}

#[test]
fn parse_filelist_accepts_backslash_relative_path() {
    let probes = vec![dir("/r/nested"), file("/r/nested/item.txt")];
    let parsed = parse_filelist("nested\\item.txt\n", "/r", "/r", true, false, &probes);
    assert_eq!(parsed, vec!["/r/nested/item.txt".to_string()]);
}

#[test]
fn parse_filelist_accepts_quoted_path() {
    let probes = vec![file("/r/quoted.txt")];
    let parsed = parse_filelist("\"quoted.txt\"\n", "/r", "/r", true, false, &probes);
    assert_eq!(parsed, vec!["/r/quoted.txt".to_string()]);
    let single = parse_filelist("  'quoted.txt'  \r\n", "/r", "/r", true, false, &probes);
    assert_eq!(single, vec!["/r/quoted.txt".to_string()]);
}

#[test]
fn parse_filelist_drops_duplicates_by_canonical_path() {
    let probes = vec![
        file("/r/a.txt"),
        PathProbe {
            path: "/r/link.txt".to_string(),
            canonical: "/r/a.txt".to_string(),
            is_file: true,
            is_dir: false,
        },
        dir("/r/d"),
    ];
    let parsed = parse_filelist("d\nlink.txt\na.txt\n/r/a.txt\nd\n", "/r", "/r", true, true, &probes);
    assert_eq!(parsed, vec!["/r/d".to_string(), "/r/a.txt".to_string()]);
    let files_only = parse_filelist("d\nlink.txt\na.txt\n", "/r", "/r", true, false, &probes);
    assert_eq!(files_only, vec!["/r/a.txt".to_string()]);
    let dirs_only = parse_filelist("d\nlink.txt\na.txt\n", "/r", "/r", false, true, &probes);
    assert_eq!(dirs_only, vec!["/r/d".to_string()]);
}

#[test]
fn parse_filelist_tries_the_manifest_directory_before_the_root() {
    let probes = vec![file("/root/x.txt"), file("/base/x.txt")];
    let parsed = parse_filelist("x.txt\n", "/base", "/root", true, true, &probes);
    assert_eq!(parsed, vec!["/base/x.txt".to_string()]);
    let only_root = vec![file("/root/x.txt")];
    let parsed = parse_filelist("x.txt\n", "/base", "/root", true, true, &only_root);
    assert_eq!(parsed, vec!["/root/x.txt".to_string()]);
}

#[test]
fn parse_filelist_maps_drive_paths_below_mnt() {
    let probes = vec![file("/mnt/c/work/a.txt")];
    let parsed = parse_filelist("C:\\work\\a.txt\n", "/r", "/r", true, true, &probes);
    assert_eq!(parsed, vec!["/mnt/c/work/a.txt".to_string()]);
}

#[test]
fn filelist_candidates_lists_what_has_to_be_probed() {
    let cands = filelist_candidates("# c\n\nsub\\a.txt\n/abs/b\n", "/base", "/root");
    assert_eq!(
        cands,
        vec![
            "/base/sub\\a.txt".to_string(),
            "/root/sub\\a.txt".to_string(),
            "/base/sub/a.txt".to_string(),
            "/root/sub/a.txt".to_string(),
            "/abs/b".to_string(),
        ]
    );
}

#[test]
fn build_index_uses_filelist_when_present() {
    let d = disk(
        &["FileList.txt", "listed.txt", "hidden.txt"],
        Some("listed.txt\n"),
        vec![file("/r/listed.txt")],
        vec![found("/r/listed.txt", false), found("/r/hidden.txt", false)],
    );
    let out = build_index("/r", true, true, true, &d).expect("build index");
    assert!(out.contains(&"/r/listed.txt".to_string()));
    assert!(!out.contains(&"/r/hidden.txt".to_string()));
}

#[test]
fn build_index_walks_when_filelist_missing() {
    let d = disk(&[], None, vec![], vec![found("/r/dir", true), found("/r/dir/app.py", false)]);
    let out = build_index("/r", true, true, true, &d).expect("build index");
    assert!(out.contains(&"/r/dir/app.py".to_string()));
    assert!(out.contains(&"/r/dir".to_string()));
    assert_eq!(out, vec!["/r/dir/app.py".to_string(), "/r/dir".to_string()]);
}

#[test]
fn build_index_with_metadata_reports_filelist_source() {
    let d = disk(&["listed.txt", "filelist.txt"], Some("listed.txt\n"), vec![file("/r/listed.txt")], vec![]);
    let out = build_index_with_metadata("/r", true, true, true, &d).expect("build index");
    assert!(matches!(out.source, IndexSource::FileList(_)));
    assert_eq!(out.source, IndexSource::FileList("/r/filelist.txt".to_string()));
    assert!(out.entries.contains(&"/r/listed.txt".to_string()));
}

#[test]
fn build_index_with_metadata_reports_walker_source() {
    let d = disk(&[], None, vec![], vec![found("/r/sub", true)]);
    let out = build_index_with_metadata("/r", true, true, true, &d).expect("build index");
    assert!(matches!(out.source, IndexSource::Walker));
}

#[test]
fn walkers_are_separated_for_files_and_dirs() {
    let walked = vec![found("/r/docs", true), found("/r/docs/a.txt", false)];
    let files = walk_files(&walked);
    let dirs = walk_dirs(&walked);
    assert!(files.contains(&"/r/docs/a.txt".to_string()));
    assert!(!files.contains(&"/r/docs".to_string()));
    assert!(dirs.contains(&"/r/docs".to_string()));
    assert!(!dirs.contains(&"/r/docs/a.txt".to_string()));
    assert_eq!(walk_entries(&walked, false, true), vec!["/r/docs".to_string()]);
    assert_eq!(walk_entries(&walked, true, false), vec!["/r/docs/a.txt".to_string()]);
    assert!(walk_entries(&walked, false, false).is_empty());
}

#[test]
fn build_index_can_disable_filelist() {
    let d = disk(
        &["FileList.txt", "listed.txt", "extra.txt"],
        Some("listed.txt\n"),
        vec![file("/r/listed.txt")],
        vec![found("/r/listed.txt", false), found("/r/extra.txt", false), found("/r/FileList.txt", false)],
    );
    let out = build_index_with_metadata("/r", false, true, true, &d).expect("build index");
    assert!(matches!(out.source, IndexSource::Walker));
    assert!(out.entries.contains(&"/r/listed.txt".to_string()));
    assert!(out.entries.contains(&"/r/extra.txt".to_string()));
}

#[test]
fn build_index_ignores_nested_filelist_and_uses_walker() {
    let d = disk(
        &[],
        None,
        vec![],
        vec![found("/r/child", true), found("/r/child/nested.txt", false), found("/r/child/filelist.txt", false)],
    );
    let out = build_index_with_metadata("/r", true, true, false, &d).expect("build index");
    assert_eq!(out.source, IndexSource::Walker);
    assert!(out.entries.contains(&"/r/child/nested.txt".to_string()));
    assert!(!out.entries.contains(&"/r/child".to_string()));
}

#[test]
fn build_index_with_both_kinds_off_is_empty_with_no_source() {
    let d = disk(&["FileList.txt"], None, vec![], vec![found("/r/a", false)]);
    let out = build_index_with_metadata("/r", true, false, false, &d).expect("no error");
    assert!(out.entries.is_empty());
    assert_eq!(out.source, IndexSource::Nothing);
    assert_eq!(plan_index(true, false, false, &d.root_files), IndexPlan::Nothing);
}

#[test]
fn unreadable_manifest_is_an_error() {
    let d = disk(&["FileList.txt"], None, vec![], vec![found("/r/a", false)]);
    let err = build_index_with_metadata("/r", true, true, true, &d).unwrap_err();
    assert!(matches!(&err, IndexError::ManifestUnreadable(p) if p == "/r/FileList.txt"));
    assert_eq!(err.message(), "failed to read /r/FileList.txt");
    assert_eq!(plan_index(true, true, true, &d.root_files), IndexPlan::Manifest(0));
    assert_eq!(plan_index(false, true, true, &d.root_files), IndexPlan::Walk);
}

#[test]
fn manifest_with_a_strict_subset_gives_exactly_that_subset() {
    let probes = vec![file("/r/a.txt"), file("/r/b.txt"), dir("/r/d"), file("/r/d/c.txt")];
    let walked = vec![
        found("/r/a.txt", false),
        found("/r/b.txt", false),
        found("/r/d", true),
        found("/r/d/c.txt", false),
        found("/r/FileList.txt", false),
    ];
    let d = disk(&["a.txt", "b.txt", "FileList.txt"], Some("d\nb.txt\nd/c.txt\nb.txt\n"), probes, walked);
    let all = build_index("/r", true, true, true, &d).expect("build");
    assert_eq!(all, vec!["/r/d".to_string(), "/r/b.txt".to_string(), "/r/d/c.txt".to_string()]);
    let files = build_index("/r", true, true, false, &d).expect("build");
    assert_eq!(files, vec!["/r/b.txt".to_string(), "/r/d/c.txt".to_string()]);
    let walk = build_index("/r", false, true, true, &d).expect("build");
    assert_eq!(
        walk,
        vec![
            "/r/a.txt".to_string(),
            "/r/b.txt".to_string(),
            "/r/d/c.txt".to_string(),
            "/r/FileList.txt".to_string(),
            "/r/d".to_string(),
        ]
    );
}

#[test]
fn build_filelist_text_uses_relative_paths_when_possible() {
    let text = build_filelist_text(&names(&["/r/a/b.txt", "/r/a"]), "/r");
    assert!(text.contains("a/b.txt"));
    assert!(text.contains("a\n"));
    assert_eq!(text, "a/b.txt\na\n");
}

#[test]
fn build_filelist_text_keeps_outside_paths_absolute_and_drops_duplicates() {
    let text = build_filelist_text(&names(&["/r/a", "/other/x", "/r/a", "/rr/y", "/other/x"]), "/r");
    assert_eq!(text, "a\n/other/x\n/rr/y\n");
    assert_eq!(build_filelist_text(&Vec::new(), "/r"), "");
}

#[test]
fn write_filelist_writes_file() {
    let (path, content) = write_filelist("/r", &names(&["/r/x/run.exe", "/r/x"]), "FileList.txt");
    assert_eq!(path, "/r/FileList.txt");
    assert!(content.contains("x/run.exe"));
}

#[test]
fn parse_and_write_filelist() {
    let entries = names(&["/r/src/main.rs"]);
    let (_, text) = write_filelist("/r", &entries, "FileList.txt");
    let probes = vec![file("/r/src/main.rs")];
    let parsed = parse_filelist(&text, "/r", "/r", true, true, &probes);
    assert_eq!(parsed.len(), 1);
}

#[test]
fn round_trip_returns_the_same_entries_for_relative_and_absolute_lines() {
    let entries = names(&["/r/src/main.rs", "/elsewhere/lib.rs", "/r/docs", "/r/src/main.rs"]);
    let text = build_filelist_text(&entries, "/r");
    assert_eq!(text, "src/main.rs\n/elsewhere/lib.rs\ndocs\n");
    let probes = vec![file("/r/src/main.rs"), file("/elsewhere/lib.rs"), dir("/r/docs")];
    let parsed = parse_filelist(&text, "/r", "/r", true, true, &probes);
    assert_eq!(
        parsed,
        vec!["/r/src/main.rs".to_string(), "/elsewhere/lib.rs".to_string(), "/r/docs".to_string()]
    );
}
