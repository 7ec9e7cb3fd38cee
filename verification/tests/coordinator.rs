use flist_walker::cache::PreviewCache;
use flist_walker::coordinator::{
    browse_results, filtered_entries, poll_may_continue, Coordinator, FileListOutcome,
    FileListResponse, IndexOutcome, IndexResponse, SearchResponse, PREVIEW_CACHE_MAX,
};
use flist_walker::indexer::{Entry, IndexSource};
use flist_walker::requests::RequestTracker;
use flist_walker::worker::{
    begin_index, coalesce, filter_search_results, finish_index, run_search, BatchBuffer,
    IndexRequest, IndexStart, SearchRequest, StreamEnd, StreamStep,
};

fn entry(path: &str, is_dir: bool) -> Entry {
    Entry { path: path.to_string(), is_dir }
}

fn batch(id: u64, paths: &[&str]) -> IndexResponse {
    IndexResponse::Batch { request_id: id, entries: paths.iter().map(|p| entry(p, false)).collect() }
}

fn index_request(id: u64, files: bool, dirs: bool) -> IndexRequest {
    IndexRequest {
        request_id: id,
        root: "/r".to_string(),
        use_filelist: true,
        include_files: files,
        include_dirs: dirs,
    }
}

#[test]
fn regex_query_is_not_filtered_out_by_visible_match_guard() {
    let results = vec![("/tmp/src/main.py".to_string(), 42)];
    let out = filter_search_results(results, "/tmp", "ma.*py", true, true);
    assert_eq!(out.len(), 1);
}

#[test]
fn filter_search_results_drops_rows_without_a_visible_match() {
    let results = vec![("/tmp/r/src/main.py".to_string(), 42), ("/tmp/r/a.txt".to_string(), 7)];
    let out = filter_search_results(results, "/tmp/r", "tmp", true, false);
    assert!(out.is_empty());
    let results = vec![("/tmp/r/src/main.py".to_string(), 42), ("/tmp/r/a.txt".to_string(), 7)];
    let out = filter_search_results(results, "/tmp/r", "main", true, false);
    assert_eq!(out, vec![("/tmp/r/src/main.py".to_string(), 42)]);
}

#[test]
fn preview_cache_is_bounded() {
    let mut app = Coordinator::new("/r".to_string(), 50, String::new(), 0);
    for i in 0..=PREVIEW_CACHE_MAX {
        app.cache_preview(format!("/r/file-{i}.txt"), format!("preview-{i}"));
    }
    assert_eq!(app.previews.len(), PREVIEW_CACHE_MAX);
    assert!(app.previews.get("/r/file-0.txt").is_none());
    assert_eq!(app.previews.get("/r/file-1.txt"), Some("preview-1".to_string()));
    assert_eq!(
        app.previews.get(&format!("/r/file-{PREVIEW_CACHE_MAX}.txt")),
        Some(format!("preview-{PREVIEW_CACHE_MAX}"))
    );
}

#[test]
fn preview_cache_evicts_in_order_of_first_insertion() {
    let mut cache = PreviewCache::new(2);
    cache.insert("a".to_string(), "1".to_string());
    cache.insert("b".to_string(), "2".to_string());
    cache.insert("a".to_string(), "3".to_string());
    assert_eq!(cache.len(), 2);
    assert_eq!(cache.get("a"), Some("3".to_string()));
    cache.insert("c".to_string(), "4".to_string());
    assert_eq!(cache.len(), 2);
    assert_eq!(cache.get("a"), None);
    assert_eq!(cache.get("b"), Some("2".to_string()));
    assert_eq!(cache.get("c"), Some("4".to_string()));
    cache.clear();
    assert_eq!(cache.len(), 0);
    let mut none = PreviewCache::new(0);
    none.insert("a".to_string(), "1".to_string());
    assert_eq!(none.len(), 0);
}

#[test]
fn preview_cache_is_cleared_when_the_index_is_rebuilt() {
    let mut app = Coordinator::new("/r".to_string(), 50, String::new(), 0);
    app.cache_preview("/r/a".to_string(), "text".to_string());
    assert_eq!(app.request_preview("/r/a"), Ok("text".to_string()));
    assert_eq!(app.request_preview("/r/b"), Err(1));
    assert!(!app.handle_preview_response(9, "/r/b".to_string(), "stale".to_string()));
    assert!(app.previews.get("/r/b").is_none());
    assert!(app.handle_preview_response(1, "/r/b".to_string(), "fresh".to_string()));
    assert_eq!(app.previews.get("/r/b"), Some("fresh".to_string()));
    app.request_index_refresh(5);
    assert_eq!(app.previews.len(), 0);
}

#[test]
fn search_error_updates_notice() {
    let mut app = Coordinator::new("/r".to_string(), 50, String::new(), 0);
    app.search_requests = RequestTracker { next_id: 8, pending: Some(7) };
    app.results = vec![("/r/before.txt".to_string(), 0)];

    let accepted = app.handle_search_response(SearchResponse {
        request_id: 7,
        results: Vec::new(),
        error: Some("invalid regex '[*': syntax error".to_string()),
    });

    assert!(accepted);
    assert!(!app.search_requests.in_progress());
    assert!(app.notice.contains("Search failed:"));
    assert!(app.notice.contains("invalid regex"));
    assert_eq!(app.results, vec![("/r/before.txt".to_string(), 0)]);
}

#[test]
fn stale_search_response_is_ignored_after_index_refresh() {
    let mut app = Coordinator::new("/r".to_string(), 50, "abc".to_string(), 0);
    app.search_requests = RequestTracker { next_id: 6, pending: Some(5) };
    app.results = vec![("/r/before.txt".to_string(), 0)];

    app.request_index_refresh(10);

    let accepted = app.handle_search_response(SearchResponse {
        request_id: 5,
        results: vec![("/r/stale.txt".to_string(), 1)],
        error: None,
    });

    assert!(!accepted);
    assert!(!app.search_requests.in_progress());
    assert_eq!(app.search_requests.pending, None);
    assert_eq!(app.results[0].0, "/r/before.txt");
}

#[test]
fn older_response_is_a_no_op_once_a_newer_one_was_accepted() {
    let mut app = Coordinator::new("/r".to_string(), 50, "abc".to_string(), 0);
    let a = app.enqueue_search_request();
    let b = app.enqueue_search_request();
    assert!(a < b);
    assert!(app.handle_search_response(SearchResponse {
        request_id: b,
        results: vec![("/r/new.txt".to_string(), 3)],
        error: None,
    }));
    assert!(!app.handle_search_response(SearchResponse {
        request_id: a,
        results: vec![("/r/old.txt".to_string(), 9)],
        error: None,
    }));
    assert_eq!(app.results, vec![("/r/new.txt".to_string(), 3)]);
    let c = app.enqueue_search_request();
    assert!(c > b);
    assert!(!app.handle_search_response(SearchResponse { request_id: a, results: Vec::new(), error: None }));
    assert_eq!(app.search_requests.pending, Some(c));
}

#[test]
fn request_ids_increase_and_stop_at_the_largest() {
    let mut t = RequestTracker::new();
    assert_eq!(t.issue(), 1);
    assert_eq!(t.issue(), 2);
    assert!(t.is_pending(2));
    assert!(!t.accept(1));
    assert!(t.accept(2));
    assert!(!t.in_progress());
    t.cancel();
    let mut last = RequestTracker { next_id: u64::MAX, pending: None };
    assert_eq!(last.issue(), u64::MAX);
    assert_eq!(last.next_id, u64::MAX);
}

#[test]
fn index_refresh_marks_search_resume_pending_for_non_empty_query() {
    let mut app = Coordinator::new("/r".to_string(), 50, "abc".to_string(), 0);
    app.request_index_refresh(0);
    assert!(app.search_resume_pending);
    let mut blank = Coordinator::new("/r".to_string(), 50, "  ".to_string(), 0);
    blank.request_index_refresh(0);
    assert!(!blank.search_resume_pending);
}

#[test]
fn non_empty_query_resumes_search_immediately_on_first_index_batch() {
    let mut app = Coordinator::new("/r".to_string(), 50, "main".to_string(), 1000);
    let id = app.request_index_refresh(1000);

    let out = app.handle_index_response(batch(id, &["/r/main.rs"]));
    assert_eq!(out, IndexOutcome::Grew);
    let issued = app.refresh_after_batches(1000);

    assert_eq!(issued, Some(1));
    assert_eq!(app.entries, vec!["/r/main.rs".to_string()]);
    assert!(!app.search_resume_pending);

    app.handle_index_response(batch(id, &["/r/domain.rs"]));
    assert_eq!(app.refresh_after_batches(1299), None);
    assert_eq!(app.entries.len(), 1);
    assert_eq!(app.refresh_after_batches(1300), Some(2));
    assert_eq!(app.entries.len(), 2);
    assert_eq!(app.refresh_after_batches(2000), None);
}

#[test]
fn early_search_converges_to_the_result_on_the_finished_snapshot() {
    let mut app = Coordinator::new("/r".to_string(), 50, "main".to_string(), 0);
    let id = app.request_index_refresh(0);
    app.handle_index_response(IndexResponse::Started { request_id: id, source: IndexSource::Walker });
    app.handle_index_response(batch(id, &["/r/main.rs", "/r/readme.md"]));
    let first = app.refresh_after_batches(1).expect("search at the first batch");
    let early = run_search(&SearchRequest {
        request_id: first,
        query: app.query.clone(),
        entries: app.entries.clone(),
        limit: app.limit,
        use_regex: app.use_regex,
        root: "/r".to_string(),
        prefer_relative: false,
    });
    assert!(app.handle_search_response(early));
    assert_eq!(app.results.len(), 1);
    assert_eq!(app.results[0].0, "/r/main.rs");

    app.handle_index_response(batch(id, &["/r/src/domain.rs"]));
    let out = app.handle_index_response(IndexResponse::Finished { request_id: id, source: IndexSource::Walker });
    let last = match out {
        IndexOutcome::Finished(Some(id)) => id,
        _ => panic!("a search is issued when the build finishes"),
    };
    assert!(last > first);
    let all: Vec<String> = app.all_entries.iter().map(|e| e.path.clone()).collect();
    assert_eq!(app.entries, all);
    let response = run_search(&SearchRequest {
        request_id: last,
        query: app.query.clone(),
        entries: app.entries.clone(),
        limit: app.limit,
        use_regex: app.use_regex,
        root: "/r".to_string(),
        prefer_relative: false,
    });
    let expected = flist_walker::search::search_entries("main", &all, 50, false).expect("search");
    assert!(app.handle_search_response(response));
    assert_eq!(app.results, expected);
    assert_eq!(app.results.len(), 2);
}

#[test]
fn non_empty_query_incremental_refresh_updates_entries_with_small_delta() {
    let mut app = Coordinator::new("/r".to_string(), 50, "main".to_string(), 0);
    app.index_requests = RequestTracker { next_id: 22, pending: Some(21) };

    app.handle_index_response(batch(21, &["/r/main.rs"]));
    let issued = app.refresh_after_batches(1000);

    assert!(issued.is_some());
    assert_eq!(app.entries.len(), 1);
    assert_eq!(app.entries[0], "/r/main.rs");
}

#[test]
fn empty_query_keeps_results_after_batch_and_finished_in_same_poll() {
    let mut app = Coordinator::new("/r".to_string(), 50, String::new(), 0);
    app.index_requests = RequestTracker { next_id: 32, pending: Some(31) };

    assert_eq!(app.handle_index_response(batch(31, &["/r/main.rs"])), IndexOutcome::Grew);
    let out = app.handle_index_response(IndexResponse::Finished { request_id: 31, source: IndexSource::Walker });

    assert_eq!(out, IndexOutcome::Finished(None));
    assert_eq!(app.entries.len(), 1);
    assert_eq!(app.results.len(), 1);
    assert_eq!(app.entries[0], "/r/main.rs");
    assert_eq!(app.source, IndexSource::Walker);
    assert!(!app.index_requests.in_progress());
}

#[test]
fn empty_query_browses_the_growing_index() {
    let mut app = Coordinator::new("/r".to_string(), 2, String::new(), 0);
    let id = app.request_index_refresh(0);
    app.handle_index_response(batch(id, &["/r/a", "/r/b", "/r/c"]));
    assert_eq!(app.refresh_after_batches(0), None);
    assert_eq!(app.results, vec![("/r/a".to_string(), 0), ("/r/b".to_string(), 0)]);
    assert_eq!(app.entries.len(), 3);
}

#[test]
fn stale_index_messages_change_nothing() {
    let mut app = Coordinator::new("/r".to_string(), 50, String::new(), 0);
    let old = app.request_index_refresh(0);
    let new = app.request_index_refresh(1);
    assert!(old < new);
    assert_eq!(app.handle_index_response(batch(old, &["/r/stale"])), IndexOutcome::Stale);
    assert_eq!(
        app.handle_index_response(IndexResponse::Finished { request_id: old, source: IndexSource::Walker }),
        IndexOutcome::Stale
    );
    assert!(app.incoming.is_empty());
    assert!(app.index_requests.is_pending(new));
    assert_eq!(
        app.handle_index_response(IndexResponse::Failed { request_id: new, error: "boom".to_string() }),
        IndexOutcome::Failed
    );
    assert_eq!(app.notice, "Indexing failed: boom");
    assert!(!app.index_requests.in_progress());
}

#[test]
fn app_defaults_use_filelist_off() {
    let app = Coordinator::new("/r".to_string(), 50, String::new(), 0);
    assert!(!app.use_filelist);
    assert_eq!(Coordinator::new("/r".to_string(), 0, String::new(), 0).limit, 1);
    assert_eq!(Coordinator::new("/r".to_string(), 5000, String::new(), 0).limit, 1000);
}

#[test]
fn request_index_refresh_keeps_existing_entries_visible_until_new_results_arrive() {
    let mut app = Coordinator::new("/r".to_string(), 50, String::new(), 0);
    app.entries = vec!["/r/keep.txt".to_string()];
    app.results = vec![("/r/keep.txt".to_string(), 0)];

    app.request_index_refresh(0);

    assert_eq!(app.entries.len(), 1);
    assert_eq!(app.results.len(), 1);
}

#[test]
fn request_index_refresh_reenables_files_when_both_filters_are_off() {
    let mut app = Coordinator::new("/r".to_string(), 50, String::new(), 0);
    app.include_files = false;
    app.include_dirs = false;

    app.request_index_refresh(0);

    assert!(app.include_files);
    assert!(!app.include_dirs);
}

#[test]
fn index_worker_unavailable_gives_up_the_request() {
    let mut app = Coordinator::new("/r".to_string(), 50, "q".to_string(), 0);
    let id = app.request_index_refresh(0);
    app.index_worker_unavailable();
    assert!(!app.index_requests.is_pending(id));
    assert_eq!(app.notice, "Index worker is unavailable");
    app.enqueue_search_request();
    app.search_worker_unavailable();
    assert!(!app.search_requests.in_progress());
    assert_eq!(app.notice, "Search worker is unavailable");
    assert_eq!(app.update_results(), Some(2));
}

#[test]
fn filtered_entries_and_browse_results_have_exact_values() {
    let found = vec![entry("/r/d", true), entry("/r/f", false), entry("/r/g", false)];
    assert_eq!(filtered_entries(&found, true, false), vec!["/r/f".to_string(), "/r/g".to_string()]);
    assert_eq!(filtered_entries(&found, false, true), vec!["/r/d".to_string()]);
    assert_eq!(filtered_entries(&found, true, true).len(), 3);
    let all = filtered_entries(&found, true, true);
    assert_eq!(browse_results(&all, 2), vec![("/r/d".to_string(), 0), ("/r/f".to_string(), 0)]);
    assert_eq!(browse_results(&all, 9).len(), 3);
    assert!(poll_may_continue(11, 3));
    assert!(!poll_may_continue(12, 0));
    assert!(!poll_may_continue(0, 4));
}

#[test]
fn coalesce_serves_the_newest_request() {
    assert_eq!(coalesce(1, vec![]), 1);
    assert_eq!(coalesce(1, vec![2, 3, 4]), 4);
}

#[test]
fn run_search_reports_a_bad_pattern_as_one_error() {
    let req = SearchRequest {
        request_id: 4,
        query: "ma[".to_string(),
        entries: vec!["/r/main.rs".to_string()],
        limit: 10,
        use_regex: true,
        root: "/r".to_string(),
        prefer_relative: true,
    };
    let response = run_search(&req);
    assert_eq!(response.request_id, 4);
    assert!(response.results.is_empty());
    assert_eq!(response.error, Some("invalid regex: ma[".to_string()));
    let mut app = Coordinator::new("/r".to_string(), 10, "ma[".to_string(), 0);
    app.results = vec![("/r/shown.rs".to_string(), 1)];
    app.search_requests = RequestTracker { next_id: 5, pending: Some(4) };
    assert!(app.handle_search_response(response));
    assert_eq!(app.results, vec![("/r/shown.rs".to_string(), 1)]);
    assert_eq!(app.notice, "Search failed: invalid regex: ma[");
}

#[test]
fn index_worker_answers_at_once_when_nothing_is_to_be_indexed() {
    let start = begin_index(&index_request(3, false, false), &vec!["FileList.txt".to_string()]);
    match start {
        IndexStart::Answered(messages) => {
            assert_eq!(messages.len(), 2);
            assert!(matches!(
                &messages[0],
                IndexResponse::Started { request_id: 3, source: IndexSource::Nothing }
            ));
            assert!(matches!(
                &messages[1],
                IndexResponse::Finished { request_id: 3, source: IndexSource::Nothing }
            ));
        }
        _ => panic!("expected an immediate answer"),
    }
    assert!(matches!(
        begin_index(&index_request(3, true, true), &vec!["filelist.txt".to_string()]),
        IndexStart::ReadManifest(p) if p == "/r/filelist.txt"
    ));
    assert!(matches!(
        begin_index(&index_request(3, true, true), &vec!["a.txt".to_string()]),
        IndexStart::Walk(IndexResponse::Started { request_id: 3, source: IndexSource::Walker })
    ));
}

#[test]
fn batches_are_sent_by_count_or_by_age() {
    let req = index_request(7, true, false);
    let mut buffer = BatchBuffer::new(0);
    assert!(matches!(buffer.stream_step(&req, 8, entry("/r/a", false), 0), StreamStep::Superseded));
    assert!(matches!(buffer.stream_step(&req, 7, entry("/r/d", true), 0), StreamStep::Skipped));
    for i in 0..255 {
        let step = buffer.stream_step(&req, 7, entry(&format!("/r/{i}"), false), 99);
        assert!(matches!(step, StreamStep::Buffered));
    }
    match buffer.stream_step(&req, 7, entry("/r/last", false), 99) {
        StreamStep::Send(IndexResponse::Batch { request_id, entries }) => {
            assert_eq!(request_id, 7);
            assert_eq!(entries.len(), 256);
            assert_eq!(entries[0].path, "/r/0");
            assert_eq!(entries[255].path, "/r/last");
        }
        _ => panic!("a full buffer is sent"),
    }
    assert_eq!(buffer.last_flush_ms, 99);
    assert!(matches!(buffer.stream_step(&req, 7, entry("/r/x", false), 198), StreamStep::Buffered));
    match buffer.stream_step(&req, 7, entry("/r/y", false), 199) {
        StreamStep::Send(IndexResponse::Batch { entries, .. }) => assert_eq!(entries.len(), 2),
        _ => panic!("an old buffer is sent"),
    }
    assert!(buffer.flush_batch(7).is_none());
    buffer.stream_step(&req, 7, entry("/r/z", false), 200);
    assert!(matches!(buffer.flush_batch(7), Some(IndexResponse::Batch { request_id: 7, .. })));
}

#[test]
fn a_superseded_build_ends_without_a_message() {
    assert!(finish_index(5, StreamEnd::Superseded).is_none());
    assert!(matches!(
        finish_index(5, StreamEnd::Done(IndexSource::Walker)),
        Some(IndexResponse::Finished { request_id: 5, source: IndexSource::Walker })
    ));
    assert!(matches!(
        finish_index(5, StreamEnd::Failed("boom".to_string())),
        Some(IndexResponse::Failed { request_id: 5, error }) if error == "boom"
    ));
}

#[test]
fn filelist_finished_updates_state_and_notice() {
    let mut app = Coordinator::new("/r".to_string(), 50, String::new(), 0);
    app.filelist_requests = RequestTracker { next_id: 12, pending: Some(11) };
    app.pending_filelist_root = Some("/r".to_string());
    app.use_filelist = false;

    let out = app.handle_filelist_response(
        FileListResponse::Finished {
            request_id: 11,
            root: "/r".to_string(),
            path: "/r/FileList.txt".to_string(),
            count: 3,
        },
        0,
    );

    assert_eq!(out, FileListOutcome::Created(None));
    assert_eq!(app.filelist_requests.pending, None);
    assert!(!app.filelist_requests.in_progress());
    assert!(app.notice.contains("Created"));
    assert!(app.notice.contains("3 entries"));
    assert!(app.notice.contains("/r/FileList.txt"));
    assert_eq!(app.notice, "Created /r/FileList.txt: 3 entries");
}

#[test]
fn filelist_finished_triggers_reindex_when_enabled() {
    let mut app = Coordinator::new("/r".to_string(), 50, String::new(), 0);
    app.filelist_requests = RequestTracker { next_id: 13, pending: Some(12) };
    app.pending_filelist_root = Some("/r".to_string());
    app.use_filelist = true;

    let out = app.handle_filelist_response(
        FileListResponse::Finished {
            request_id: 12,
            root: "/r".to_string(),
            path: "/r/FileList.txt".to_string(),
            count: 5,
        },
        7,
    );

    assert_eq!(out, FileListOutcome::Created(Some(1)));
    assert!(app.index_requests.in_progress());
    assert!(app.index_requests.pending.is_some());
    assert_eq!(app.last_refresh_ms, 7);
}

#[test]
fn filelist_failed_updates_state_and_notice() {
    let mut app = Coordinator::new("/r".to_string(), 50, String::new(), 0);
    app.filelist_requests = RequestTracker { next_id: 14, pending: Some(13) };
    app.pending_filelist_root = Some("/r".to_string());

    let out = app.handle_filelist_response(
        FileListResponse::Failed {
            request_id: 13,
            root: "/r".to_string(),
            error: "disk full".to_string(),
        },
        0,
    );

    assert_eq!(out, FileListOutcome::Failed);
    assert_eq!(app.filelist_requests.pending, None);
    assert!(app.notice.contains("Create File List failed: disk full"));
}

#[test]
fn filelist_finished_for_previous_root_does_not_trigger_reindex() {
    let mut app = Coordinator::new("/old".to_string(), 50, String::new(), 0);
    app.filelist_requests = RequestTracker { next_id: 52, pending: Some(51) };
    app.pending_filelist_root = Some("/old".to_string());
    app.use_filelist = true;
    app.root = "/new".to_string();

    let out = app.handle_filelist_response(
        FileListResponse::Finished {
            request_id: 51,
            root: "/old".to_string(),
            path: "/old/FileList.txt".to_string(),
            count: 9,
        },
        0,
    );

    assert_eq!(out, FileListOutcome::Created(None));
    assert!(!app.index_requests.in_progress());
    assert!(!app.filelist_requests.in_progress());
    assert!(app.notice.contains("previous root"));
    assert_eq!(app.notice, "Created /old/FileList.txt: 9 entries (previous root)");
}

#[test]
fn filelist_failed_for_previous_root_reports_without_rewinding_state() {
    let mut app = Coordinator::new("/old".to_string(), 50, String::new(), 0);
    app.filelist_requests = RequestTracker { next_id: 53, pending: Some(52) };
    app.pending_filelist_root = Some("/old".to_string());
    app.root = "/new".to_string();

    let out = app.handle_filelist_response(
        FileListResponse::Failed {
            request_id: 52,
            root: "/old".to_string(),
            error: "permission denied".to_string(),
        },
        0,
    );

    assert_eq!(out, FileListOutcome::Failed);
    assert_eq!(app.filelist_requests.pending, None);
    assert!(app.notice.contains("previous root"));
    assert_eq!(app.root, "/new");
}

#[test]
fn stale_filelist_response_changes_nothing() {
    let mut app = Coordinator::new("/r".to_string(), 50, String::new(), 0);
    let id = app.start_filelist_creation();
    assert_eq!(app.pending_filelist_root, Some("/r".to_string()));
    let out = app.handle_filelist_response(
        FileListResponse::Failed { request_id: id + 1, root: "/r".to_string(), error: "x".to_string() },
        0,
    );
    assert_eq!(out, FileListOutcome::Stale);
    assert!(app.filelist_requests.is_pending(id));
    assert!(app.notice.is_empty());
    app.filelist_worker_unavailable();
    assert!(!app.filelist_requests.in_progress());
    assert_eq!(app.notice, "Create File List worker is unavailable");
}

#[test]
fn root_change_rebuilds_the_index_and_clears_the_preview_cache() {
    let mut app = Coordinator::new("/r".to_string(), 50, "q".to_string(), 0);
    app.cache_preview("/r/a".to_string(), "text".to_string());
    assert_eq!(app.apply_root_change("/r".to_string(), 1), None);
    assert_eq!(app.previews.len(), 1);
    assert_eq!(app.apply_root_change("/s".to_string(), 2), Some(1));
    assert_eq!(app.root, "/s");
    assert_eq!(app.previews.len(), 0);
    assert_eq!(app.notice, "Root changed: /s");
    assert!(app.search_resume_pending);
}

#[test]
fn prefer_relative_display_is_enabled_for_filelist_source() {
    let mut app = Coordinator::new("/r".to_string(), 50, String::new(), 0);
    assert!(!app.prefer_relative_display());
    app.source = IndexSource::FileList("/r/FileList.txt".to_string());
    assert!(app.prefer_relative_display());
    app.source = IndexSource::Walker;
    assert!(app.prefer_relative_display());
}

#[test]
fn request_index_refresh_uses_latest_toggle_state() {
    let mut app = Coordinator::new("/r".to_string(), 50, String::new(), 0);
    app.use_filelist = false;
    app.include_files = false;
    app.include_dirs = true;

    let id = app.request_index_refresh(0);
    let req = app.index_request(id);

    assert_eq!(req.request_id, id);
    assert_eq!(req.root, "/r");
    assert!(!req.use_filelist);
    assert!(req.include_files);
    assert!(req.include_dirs);
    assert!(!app.include_files);
    app.use_filelist = true;
    assert!(app.index_request(id).use_filelist);
}

#[test]
fn search_request_carries_the_query_and_the_snapshot() {
    let mut app = Coordinator::new("/r".to_string(), 7, "main".to_string(), 0);
    app.entries = vec!["/r/main.rs".to_string(), "/r/b".to_string()];
    app.use_regex = true;
    let id = app.enqueue_search_request();
    let req = app.search_request(id);
    assert_eq!(req.request_id, id);
    assert_eq!(req.query, "main");
    assert_eq!(req.entries, app.entries);
    assert_eq!(req.limit, 7);
    assert!(req.use_regex);
    assert_eq!(req.root, "/r");
    assert!(!req.prefer_relative);
}
