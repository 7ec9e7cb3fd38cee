use flist_walker::paths::file_name_of;
use flist_walker::query::{matches_spec, parse_query};
use flist_walker::search::{entry_score, fallback_score, search_entries};

fn paths(items: &[&str]) -> Vec<String> {
    items.iter().map(|s| s.to_string()).collect()
}

fn name_of(path: &str) -> String {
    let chars: Vec<char> = path.chars().collect();
    file_name_of(&chars).iter().collect()
}

fn chars(s: &str) -> Vec<char> {
    s.chars().collect()
}

#[test]
fn orders_by_score_and_limit() {
    let entries = paths(&["/tmp/src/main.py", "/tmp/src/README.md", "/tmp/docs/design.md"]);

    let out = search_entries("main", &entries, 2, false).expect("search");
    assert!(!out.is_empty());
    assert_eq!(name_of(&out[0].0), "main.py");
    assert!(out.len() <= 2);
    if out.len() > 1 {
        assert!(out[0].1 >= out[1].1);
    }
}

#[test]
fn empty_query_returns_empty() {
    let entries = paths(&["/tmp/a.txt"]);
    let out = search_entries("", &entries, 10, false).expect("search");
    assert!(out.is_empty());
}

#[test]
fn prioritizes_exact_filename_match() {
    let entries = paths(&["/tmp/src/main.py", "/tmp/src/main.py.bak", "/tmp/src/domain_main.py"]);
    let out = search_entries("main.py", &entries, 10, false).expect("search");
    assert!(!out.is_empty());
    assert_eq!(name_of(&out[0].0), "main.py");
}

#[test]
fn hides_non_matching_results() {
    let entries = paths(&["/tmp/src/main.py", "/tmp/docs/readme.md"]);
    let out = search_entries("zzz", &entries, 10, false).expect("search");
    assert!(out.is_empty());
}

#[test]
fn exact_and_exclusion_tokens_work() {
    let entries = paths(&["/tmp/src/main.py", "/tmp/src/readme.md"]);

    let exact = search_entries("'main", &entries, 10, false).expect("search");
    assert_eq!(exact.len(), 1);

    let excluded = search_entries("!readme", &entries, 10, false).expect("search");
    assert_eq!(excluded.len(), 1);
}

#[test]
fn lone_operator_tokens_are_ignored() {
    let entries = paths(&["/tmp/src/main.py", "/tmp/src/readme.md"]);

    let out_bang = search_entries("!", &entries, 10, false).expect("search");
    assert_eq!(out_bang.len(), 2);

    let out_quote = search_entries("'", &entries, 10, false).expect("search");
    assert_eq!(out_quote.len(), 2);

    let out_mixed = search_entries("main !", &entries, 10, false).expect("search");
    assert_eq!(out_mixed.len(), 1);
    assert_eq!(name_of(&out_mixed[0].0), "main.py");
}

#[test]
fn exact_token_matches_literal_substring() {
    let entries = paths(&["/tmp/src/main.py", "/tmp/src/domain-main.rs"]);
    let out = search_entries("'main", &entries, 10, false).expect("search");
    assert_eq!(out.len(), 2);
}

#[test]
fn regex_query_works_when_enabled() {
    let entries = paths(&["/tmp/src/main.py", "/tmp/src/module.rs"]);
    let out = search_entries("ma.*py", &entries, 10, true).expect("search");
    assert_eq!(out.len(), 1);
    assert_eq!(name_of(&out[0].0), "main.py");
}

#[test]
fn anchors_in_non_regex_are_fuzzy_with_adjacent_constraints() {
    let entries = paths(&["/tmp/src/main.py", "/tmp/src/amain.py"]);
    let out = search_entries("^main", &entries, 10, false).expect("search");
    assert_eq!(out.len(), 1);
    assert!(out[0].0.contains("main.py"));
}

#[test]
fn end_anchor_uses_adjacent_character_constraint() {
    let entries = paths(&["/tmp/src/domain", "/tmp/src/main.py"]);
    let out = search_entries("main$", &entries, 10, false).expect("search");
    assert_eq!(out.len(), 1);
    assert!(out[0].0.contains("domain"));
}

#[test]
fn start_anchor_on_bare_names_keeps_only_the_prefix_match() {
    let entries = paths(&["main.py", "amain.py"]);
    let out = search_entries("^main", &entries, 10, false).expect("search");
    assert_eq!(out.len(), 1);
    assert_eq!(out[0].0, "main.py");
}

#[test]
fn zero_limit_and_blank_query_give_nothing() {
    let entries = paths(&["/tmp/a.txt"]);
    assert!(search_entries("a", &entries, 0, false).expect("search").is_empty());
    assert!(search_entries("  \t ", &entries, 10, false).expect("search").is_empty());
    assert!(search_entries("(", &entries, 0, true).expect("search").is_empty());
}

#[test]
fn malformed_regex_is_one_error_for_the_whole_query() {
    let entries = paths(&["/tmp/src/main.py", "/tmp/src/module.rs"]);
    let out = search_entries("main ( py", &entries, 10, true);
    let err = out.unwrap_err();
    assert_eq!(err.term, "(");
    assert_eq!(err.message(), "invalid regex: (");
    assert!(search_entries("main ( py", &entries, 10, false).is_ok());
    let unclosed = search_entries("[*", &paths(&["/tmp/src/main.py"]), 10, true);
    assert_eq!(unclosed.unwrap_err().term, "[*");
    let last = search_entries("main [*", &entries, 10, true);
    assert_eq!(last.unwrap_err().term, "[*");
}

#[test]
fn regex_terms_are_case_insensitive() {
    let entries = paths(&["/tmp/src/Main.PY", "/tmp/src/module.rs"]);
    let out = search_entries("^/TMP/.*\\.py$", &entries, 10, true).expect("search");
    assert_eq!(out.len(), 1);
    assert_eq!(out[0].0, "/tmp/src/Main.PY");
}

#[test]
fn result_never_exceeds_limit_and_is_sorted() {
    let entries = paths(&[
        "/r/a/main.rs",
        "/r/b/domain.rs",
        "/r/c/remain.txt",
        "/r/d/main",
        "/r/e/m_a_i_n",
    ]);
    for limit in 0..7usize {
        let out = search_entries("main", &entries, limit, false).expect("search");
        assert!(out.len() <= limit);
        assert_eq!(out.len(), limit.min(5));
        for w in out.windows(2) {
            assert!(w[0].1 >= w[1].1);
        }
    }
    let all = search_entries("main", &entries, 10, false).expect("search");
    assert_eq!(all[0].0, "/r/d/main");
}

#[test]
fn parse_query_sorts_tokens_by_role() {
    let spec = parse_query("  foo 'bar !baz ! ' ^qux$ '' !!  ");
    assert_eq!(spec.include_terms, vec!["foo".to_string(), "^qux$".to_string()]);
    assert_eq!(spec.exact_terms, vec!["bar".to_string(), "'".to_string()]);
    assert_eq!(spec.exclude_terms, vec!["baz".to_string(), "!".to_string()]);
}

#[test]
fn matches_spec_applies_exclude_exact_and_include() {
    let spec = parse_query("src 'main !bak");
    assert!(matches_spec(&spec, "/tmp/src/main.py", false));
    assert!(!matches_spec(&spec, "/tmp/src/main.py.bak", false));
    assert!(!matches_spec(&spec, "/tmp/src/other.py", false));
    assert!(!matches_spec(&spec, "/tmp/lib/main.py", false));
    let anchored = parse_query("'^main.py$");
    assert!(matches_spec(&anchored, "/tmp/src/MAIN.py", false));
    assert!(!matches_spec(&anchored, "/tmp/src/main.pyc", false));
}

#[test]
fn fallback_score_has_exact_values() {
    assert_eq!(fallback_score(&chars(""), &chars("abc")), 0);
    assert_eq!(fallback_score(&chars("ab"), &chars("abc")), 25 + 30 + 2);
    assert_eq!(fallback_score(&chars("BC"), &chars("abc")), 25 + 2);
    assert_eq!(fallback_score(&chars("xyzw"), &chars("abc")), 3);
    assert_eq!(fallback_score(&chars("\u{30c6}"), &chars("a\u{30c6}")), 25 + 3);
}

#[test]
fn entry_score_adds_the_bonuses() {
    let spec = parse_query("'main 'zzz");
    let q = chars("main.py");
    let name = chars("main.py");
    let full = chars("/tmp/main.py");
    assert_eq!(entry_score(Some(40), &q, &spec, &name, &full), 40 + 1000 + 800);
    assert_eq!(entry_score(Some(-5), &full, &spec, &name, &full), -5 + 900 + 800);
    assert_eq!(entry_score(None, &chars("tmp"), &spec, &name, &full), 25 + 3 + 800);
    assert_eq!(entry_score(Some(7), &chars(""), &spec, &name, &full), 800);
}

#[test]
fn scores_come_from_the_fuzzy_matcher() {
    let entries = paths(&["/tmp/src/main.py"]);
    let out = search_entries("main", &entries, 10, false).expect("search");
    assert_eq!(out.len(), 1);
    assert!(out[0].1 > 0);
    assert!(out[0].1 < 1000);
    let exact = search_entries("main.py", &entries, 10, false).expect("search");
    assert!(exact[0].1 >= 1000);
}

#[test]
fn results_over_a_part_of_the_index_are_those_of_the_whole_restricted_to_it() {
    let late = paths(&["/r/main.rs", "/r/readme.md", "/r/src/domain.rs", "/r/x/remain.txt"]);
    let early: Vec<String> = late[..2].to_vec();
    let a = search_entries("main", &early, 10, false).expect("search");
    let b = search_entries("main", &late, 10, false).expect("search");
    assert_eq!(a.len(), 1);
    assert_eq!(b.len(), 3);
    for item in &a {
        assert!(b.contains(item));
    }
    let restricted: Vec<(String, i128)> =
        b.iter().filter(|item| early.contains(&item.0)).cloned().collect();
    assert_eq!(a, restricted);
}
