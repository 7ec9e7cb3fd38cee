use flist_walker::actions::{choose_action, Action};
use flist_walker::icon::premultiplied_to_unmultiplied_rgba;
use flist_walker::indexer::Entry;
use flist_walker::paths::{file_name_of, is_normal_path, join, strip_root};
use flist_walker::preview::{
    build_directory_preview_text, build_preview_text, build_preview_text_with_kind,
    clipboard_paths_text, decimal_digits, is_text_le, preview_wants_more, should_skip_preview,
    EntryContent, FileContent,
};
use flist_walker::ui_model::{
    char_index_of_byte, is_normal_for_display, display_path, display_path_with_mode, find_match_positions,
    has_visible_match, highlight_terms, match_positions_for_path, normalize_path_for_display,
    truncate_chars,
};

fn chars(s: &str) -> Vec<char> {
    s.chars().collect()
}

fn text(v: &[char]) -> String {
    v.iter().collect()
}

#[test]
fn display_path_uses_relative_path() {
    let label = display_path("/tmp/root/src/main.py", "/tmp/root");
    assert!(label.contains("src/main.py"));
    assert_eq!(label, "src/main.py");
}

#[test]
fn display_path_with_mode_keeps_paths_outside_the_root() {
    assert_eq!(display_path_with_mode("/tmp/rootx/a", "/tmp/root", true), "/tmp/rootx/a");
    assert_eq!(display_path_with_mode("/tmp/root/a", "/tmp/root", false), "/tmp/root/a");
    assert_eq!(display_path_with_mode("/tmp/root", "/tmp/root", true), "");
    assert_eq!(display_path_with_mode("/a/b", "/", true), "a/b");
}

#[test]
fn match_positions_ascii_query_work_with_multibyte_path() {
    let positions = match_positions_for_path("/tmp/日本語/docs/readme.txt", "/tmp", "read", true, false);
    assert!(!positions.is_empty());
}

#[test]
fn match_positions_multibyte_query_only_highlights_matched_chars() {
    let path = "/tmp/日本語/テスト資料.txt";
    let positions = match_positions_for_path(path, "/tmp", "テスト", true, false);
    let display = display_path_with_mode(path, "/tmp", true);
    let shown: Vec<char> = display.chars().collect();
    let highlighted: String = shown
        .iter()
        .enumerate()
        .filter_map(|(idx, ch)| positions.contains(&idx).then_some(*ch))
        .collect();
    assert_eq!(highlighted, "テスト");
}

#[test]
fn match_positions_ignore_exclusion_token_for_highlight() {
    let positions = match_positions_for_path("/tmp/r/src/main.py", "/tmp/r", "main !readme", true, false);
    assert!(positions.len() >= 4);
    assert_eq!(positions, vec![4, 5, 6, 7]);
}

#[test]
fn match_positions_support_exact_token_prefix() {
    let positions = match_positions_for_path("/tmp/r/src/main.py", "/tmp/r", "'main", true, false);
    assert!(positions.len() >= 4);
}

#[test]
fn has_visible_match_false_when_term_not_in_visible_text() {
    assert!(!has_visible_match("/tmp/r/src/main.py", "/tmp/r", "zzzz", true));
}

#[test]
fn has_visible_match_true_for_exclusion_only_query() {
    assert!(has_visible_match("/tmp/r/src/main.py", "/tmp/r", "!readme", true));
    assert!(has_visible_match("/tmp/r/src/main.py", "/tmp/r", "   ", true));
    assert!(has_visible_match("/tmp/r/src/main.py", "/tmp/r", "src", true));
    assert!(!has_visible_match("/tmp/r/src/main.py", "/tmp/r", "tmp", true));
    assert!(has_visible_match("/tmp/r/src/main.py", "/tmp/r", "tmp", false));
}

#[test]
fn match_positions_regex_query_highlights_matched_span() {
    let positions = match_positions_for_path("/tmp/src/main.py", "/tmp", "ma.*py", true, true);
    assert!(!positions.is_empty());
    assert_eq!(positions, vec![4, 5, 6, 7, 8, 9, 10]);
}

#[test]
fn match_positions_regex_counts_characters_not_bytes() {
    let positions = match_positions_for_path("/tmp/日本/é.txt", "/tmp", "TXT", true, true);
    assert_eq!(positions, vec![5, 6, 7]);
    let none = match_positions_for_path("/tmp/a.txt", "/tmp", "(", true, true);
    assert!(none.is_empty());
}

#[test]
fn match_positions_fall_back_to_the_displayed_text() {
    let positions = match_positions_for_path("/tmp/r/src/main.py", "/tmp/r", "src", true, false);
    assert_eq!(positions, vec![0, 1, 2]);
    let both = match_positions_for_path("/tmp/r/src/main.py", "/tmp/r", "src py$", true, false);
    assert_eq!(both, vec![0, 1, 2, 9, 10]);
}

#[test]
fn normalize_path_for_display_strips_extended_prefix_for_drive_path() {
    assert_eq!(
        normalize_path_for_display(r"\\?\C:\Users\tester\file.txt"),
        r"C:\Users\tester\file.txt"
    );
}

#[test]
fn normalize_path_for_display_converts_unc_extended_prefix() {
    assert_eq!(
        normalize_path_for_display(r"\\?\UNC\server\share\folder\file.txt"),
        r"\\server\share\folder\file.txt"
    );
}

#[test]
fn normalize_path_for_display_keeps_ordinary_paths() {
    assert_eq!(normalize_path_for_display("/tmp/src/main.py"), "/tmp/src/main.py");
    assert_eq!(normalize_path_for_display(r"\\?"), r"\\?");
}

#[test]
fn find_match_positions_prefers_the_first_substring() {
    assert_eq!(find_match_positions(&chars("xxMainmain"), &chars("main")), vec![2, 3, 4, 5]);
    assert_eq!(find_match_positions(&chars("m-a-i-n"), &chars("MAIN")), vec![0, 2, 4, 6]);
    assert!(find_match_positions(&chars("m-a-i"), &chars("main")).is_empty());
    assert!(find_match_positions(&chars("main"), &chars("")).is_empty());
}

#[test]
fn highlight_terms_strip_markers_and_anchors() {
    let plain: Vec<String> = highlight_terms("^a$ 'b$ !c ' ^ d", false).iter().map(|t| text(t)).collect();
    assert_eq!(plain, vec!["a".to_string(), "b".to_string(), "d".to_string()]);
    let regex: Vec<String> = highlight_terms("^a$ '^b !c", true).iter().map(|t| text(t)).collect();
    assert_eq!(regex, vec!["^a$".to_string(), "b".to_string()]);
}

#[test]
fn char_index_of_byte_counts_characters_that_begin_before() {
    let t = chars("aé日z");
    assert_eq!(char_index_of_byte(&t, 0), 0);
    assert_eq!(char_index_of_byte(&t, 1), 1);
    assert_eq!(char_index_of_byte(&t, 3), 2);
    assert_eq!(char_index_of_byte(&t, 6), 3);
    assert_eq!(char_index_of_byte(&t, 7), 4);
    assert_eq!(char_index_of_byte(&t, 100), 4);
}

#[test]
fn truncate_chars_keeps_short_texts_and_marks_long_ones() {
    assert_eq!(text(&truncate_chars(&chars("short"), 80)), "short");
    assert_eq!(text(&truncate_chars(&chars("abcdefghij"), 8)), "abcde...");
    assert_eq!(text(&truncate_chars(&chars("abcdefghij"), 2)), "...");
    assert_eq!(text(&truncate_chars(&chars("日本語テスト"), 5)), "日本...");
}

#[test]
fn path_helpers_have_exact_values() {
    assert_eq!(text(&file_name_of(&chars("/tmp/src/main.py"))), "main.py");
    assert_eq!(text(&file_name_of(&chars("main.py"))), "main.py");
    assert_eq!(text(&file_name_of(&chars("/tmp/dir/"))), "dir");
    assert_eq!(text(&file_name_of(&chars("/tmp/dir/."))), "dir");
    assert_eq!(text(&file_name_of(&chars("/tmp//dir//"))), "dir");
    assert_eq!(text(&file_name_of(&chars("/tmp/dir/.."))), "");
    assert_eq!(text(&file_name_of(&chars(".."))), "");
    assert_eq!(text(&file_name_of(&chars("."))), "");
    assert_eq!(text(&file_name_of(&chars("/"))), "");
    assert_eq!(text(&file_name_of(&chars(""))), "");
    assert_eq!(text(&file_name_of(&chars("./a/./"))), "a");
    assert_eq!(text(&file_name_of(&chars("/tmp/.hidden"))), ".hidden");
    assert_eq!(text(&join(&chars("/r"), &chars("a/b"))), "/r/a/b");
    assert_eq!(text(&join(&chars("/r/"), &chars("a"))), "/r/a");
    assert_eq!(text(&join(&chars("/r"), &chars("/abs"))), "/abs");
    assert_eq!(text(&strip_root(&chars("/r/a/b"), &chars("/r"))), "a/b");
    assert_eq!(text(&strip_root(&chars("/ra/b"), &chars("/r"))), "/ra/b");
}

#[test]
fn directory_is_open_action() {
    assert_eq!(choose_action(true, Some(0o755)), Action::Open);
}

#[test]
fn non_exec_file_is_open_on_unix() {
    assert_eq!(choose_action(false, Some(0o644)), Action::Open);
    assert_eq!(choose_action(false, None), Action::Open);
}

#[test]
fn executable_file_is_execute_on_unix() {
    assert_eq!(choose_action(false, Some(0o755)), Action::Execute);
    assert_eq!(choose_action(false, Some(0o001)), Action::Execute);
    assert_eq!(Action::Execute.label(), "Execute");
    assert_eq!(Action::Open.label(), "Open");
}

#[test]
fn build_preview_text_for_file_contains_action_and_content() {
    let lines = FileContent::Lines(vec!["line1".to_string(), "line2".to_string()]);
    let preview = build_preview_text_with_kind("/r/notes.txt", Action::Open, &lines);
    assert_eq!(preview, build_preview_text("/r/notes.txt", &EntryContent::File(Action::Open, lines)));
    assert!(preview.contains("File:"));
    assert!(preview.contains("Action:"));
    assert!(preview.contains("line1"));
    assert_eq!(preview, "File: /r/notes.txt\nAction: Open\n\nline1\nline2");
}

#[test]
fn build_preview_text_notes_what_was_not_read() {
    let empty = FileContent::Lines(Vec::new());
    assert_eq!(
        build_preview_text_with_kind("/r/e", Action::Open, &empty),
        "File: /r/e\nAction: Open\n\n<empty file>"
    );
    assert_eq!(
        build_preview_text_with_kind("/r/b", Action::Execute, &FileContent::Unreadable),
        "File: /r/b\nAction: Execute\n\n<binary or unreadable file>"
    );
    assert_eq!(
        build_preview_text_with_kind("/r/c", Action::Open, &FileContent::Skipped),
        "File: /r/c\nAction: Open\n\n<on-demand file: preview skipped>"
    );
}

#[test]
fn build_preview_text_limits_lines() {
    assert!(preview_wants_more(19, 100));
    assert!(!preview_wants_more(20, 100));
    assert!(!preview_wants_more(3, 64 * 1024));
    assert!(should_skip_preview(false, true));
    assert!(!should_skip_preview(true, true));
    assert!(!should_skip_preview(false, false));
}

#[test]
fn build_preview_text_for_directory() {
    let children = vec![
        Entry { path: "child".to_string(), is_dir: true },
        Entry { path: "a.txt".to_string(), is_dir: false },
    ];
    let preview = build_preview_text("/r", &EntryContent::Directory(Some(children.clone())));
    assert_eq!(preview, build_directory_preview_text("/r", Some(&children)));
    assert!(preview.contains("Directory:"));
    assert!(preview.contains("Children:"));
    assert!(preview.contains("Scope: direct children only"));
    assert!(preview.contains("[D] child"));
    assert!(preview.contains("[F] a.txt"));
    assert!(!preview.contains("b.txt"));
    assert_eq!(
        preview,
        "Directory: /r\nChildren: 2\nScope: direct children only\n\n[F] a.txt\n[D] child"
    );
}

#[test]
fn directory_preview_notes_empty_and_unreadable_directories() {
    assert_eq!(build_directory_preview_text("/r", None), "Directory: /r\nChildren: <unavailable>");
    assert_eq!(
        build_directory_preview_text("/r", Some(&Vec::new())),
        "Directory: /r\nChildren: 0\n<empty>"
    );
}

#[test]
fn directory_preview_sorts_by_folded_name_and_counts_the_rest() {
    let children: Vec<Entry> = (0..30)
        .map(|i| Entry { path: format!("File{:02}", 29 - i), is_dir: false })
        .chain([Entry { path: "file00".to_string(), is_dir: true }])
        .collect();
    let preview = build_directory_preview_text("/r", Some(&children));
    let lines: Vec<&str> = preview.lines().collect();
    assert_eq!(lines[1], "Children: 31");
    assert_eq!(lines[4], "[F] File00");
    assert_eq!(lines[5], "[D] file00");
    assert_eq!(lines[6], "[F] File01");
    assert_eq!(lines.len(), 4 + 24 + 1);
    assert_eq!(lines[28], "... (7 more)");
    let long = vec![Entry { path: "x".repeat(81), is_dir: false }];
    let preview = build_directory_preview_text("/r", Some(&long));
    assert!(preview.ends_with(&format!("[F] {}...", "x".repeat(77))));
}

#[test]
fn decimal_digits_and_text_order_have_exact_values() {
    assert_eq!(text(&decimal_digits(0)), "0");
    assert_eq!(text(&decimal_digits(7)), "7");
    assert_eq!(text(&decimal_digits(1234567890)), "1234567890");
    assert!(is_text_le(&chars("abc"), &chars("abc")));
    assert!(is_text_le(&chars("ab"), &chars("abc")));
    assert!(!is_text_le(&chars("abc"), &chars("ab")));
    assert!(is_text_le(&chars("abc"), &chars("abd")));
    assert!(!is_text_le(&chars("b"), &chars("abd")));
}

#[test]
fn clipboard_text_normalizes_extended_and_unc_paths() {
    let paths = vec![
        r"\\?\C:\Users\tester\file.txt".to_string(),
        r"\\?\UNC\server\share\folder\file.txt".to_string(),
    ];
    let text = clipboard_paths_text(&paths);
    let lines: Vec<&str> = text.lines().collect();
    assert_eq!(lines[0], r"C:\Users\tester\file.txt");
    assert_eq!(lines[1], r"\\server\share\folder\file.txt");
    assert_eq!(clipboard_paths_text(&Vec::new()), "");
}

#[test]
fn premultiplied_pixels_are_divided_by_their_alpha() {
    let src = [128u8, 64, 0, 128, 9, 9, 9, 0, 200, 1, 50, 100, 255, 255, 255, 255, 7, 7];
    let out = premultiplied_to_unmultiplied_rgba(&src);
    assert_eq!(out, vec![255, 128, 0, 128, 0, 0, 0, 0, 255, 3, 128, 100, 255, 255, 255, 255]);
    assert!(premultiplied_to_unmultiplied_rgba(&[1, 2, 3]).is_empty());
}

#[test]
fn file_name_agrees_with_the_standard_library() {
    for p in [
        "/tmp/src/main.py", "main.py", "/tmp/dir/", "/tmp/dir/.", "/tmp//dir//", "/tmp/dir/..",
        "..", ".", "/", "", "./a/./", "/tmp/.hidden", "a/b/../c", "a/...", "//", "./.",
    ] {
        let expected = std::path::Path::new(p)
            .file_name()
            .and_then(|s| s.to_str())
            .unwrap_or_default()
            .to_string();
        assert_eq!(text(&file_name_of(&chars(p))), expected, "{}", p);
    }
}

#[test]
fn normal_form_is_recognised() {
    for p in ["/", "", "/tmp/a", "a/b", "/tmp/.hidden", "/a/..", "a..b/c.", "/tmp/日本語/x"] {
        assert!(is_normal_path(p), "{}", p);
    }
    for p in ["/tmp/", "//", "/tmp//a", "./a", "/tmp/./a", "/tmp/.", ".", "a/"] {
        assert!(!is_normal_path(p), "{}", p);
    }
    assert!(is_normal_for_display(r"\\?\C:\Users\x"));
    assert!(!is_normal_for_display(r"\\?\/tmp/"));
}

#[test]
fn relative_display_agrees_with_the_standard_library_on_normal_paths() {
    for (p, r) in [
        ("/tmp/root/src/main.py", "/tmp/root"),
        ("/tmp/root", "/tmp/root"),
        ("/tmp/rootx/a", "/tmp/root"),
        ("/a/b", "/"),
        ("/", "/"),
        ("a/b/c", "a"),
        ("a/b", ""),
        ("/a/b", "a"),
        ("a/b", "/a"),
        ("/tmp/root/..", "/tmp/root"),
    ] {
        let path = std::path::Path::new(p);
        let expected = path
            .strip_prefix(std::path::Path::new(r))
            .map(|rest| rest.to_string_lossy().to_string())
            .unwrap_or_else(|_| p.to_string());
        assert_eq!(display_path(p, r), expected, "{} from {}", p, r);
    }
}
