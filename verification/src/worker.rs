//! The workers' side of the pipeline: which of the queued requests is
//! served, what a search request is answered with, and when the entries
//! of an index build are sent on.

use vstd::prelude::*;
use crate::coordinator::{IndexResponse, SearchResponse};
use crate::indexer::{plan_index, planned, Entry, IndexPlan, IndexSource};
use crate::paths::{join, joined};
use crate::search::{ranked_view, search_entries, search_outcome};
use crate::text::{chars_of, string_of, texts};
use crate::paths::normal;
use crate::ui_model::{display_form, has_visible_match, visible_match};

verus! {

/// A batch is sent once it holds this many entries.
pub const BATCH_MAX_ENTRIES: usize = 256;

/// A batch is sent once this much time has passed since the last one, in
/// milliseconds.
pub const BATCH_MAX_AGE_MS: u64 = 100;

/// Of a request and those queued behind it, the one to serve: the newest.
pub fn coalesce<T>(first: T, queued: Vec<T>) -> (r: T)
    ensures
        r == (if queued@.len() == 0 {
            first
        } else {
            queued@.last()
        }),
{
    let mut queued = queued;
    match queued.pop() {
        Some(last) => last,
        None => first,
    }
}

/// A search request as the coordinator sends it.
#[derive(Debug, Clone)]
pub struct SearchRequest {
    pub request_id: u64,
    pub query: String,
    pub entries: Vec<String>,
    pub limit: usize,
    pub use_regex: bool,
    pub root: String,
    pub prefer_relative: bool,
}

/// The results whose rows show a match, in order.
pub open spec fn visible_results(
    results: Seq<(Seq<char>, int)>,
    root: Seq<char>,
    query: Seq<char>,
    prefer_relative: bool,
) -> Seq<(Seq<char>, int)>
    decreases results.len(),
{
    if results.len() == 0 {
        Seq::empty()
    } else {
        let before = visible_results(results.drop_last(), root, query, prefer_relative);
        if visible_match(results.last().0, root, query, prefer_relative) {
            before.push(results.last())
        } else {
            before
        }
    }
}

/// What is shown of a result list: all of it in regex mode, else the rows
/// that show a match.
pub open spec fn shown_results(
    results: Seq<(Seq<char>, int)>,
    root: Seq<char>,
    query: Seq<char>,
    prefer_relative: bool,
    use_regex: bool,
) -> Seq<(Seq<char>, int)> {
    if use_regex {
        results
    } else {
        visible_results(results, root, query, prefer_relative)
    }
}

/// Keeps the results that are shown.
pub fn filter_search_results(
    results: Vec<(String, i128)>,
    root: &str,
    query: &str,
    prefer_relative: bool,
    use_regex: bool,
) -> (r: Vec<(String, i128)>)
    requires
        !use_regex && prefer_relative ==> normal(display_form(root@)) && forall|i: int|
            0 <= i < results@.len() ==> normal(display_form(#[trigger] results@[i].0@)),
    ensures
        ranked_view(r@) == shown_results(
            ranked_view(results@),
            root@,
            query@,
            prefer_relative,
            use_regex,
        ),
{
    if use_regex {
        return results;
    }
    let ghost all = ranked_view(results@);
    let mut out: Vec<(String, i128)> = Vec::new();
    let mut i: usize = 0;
    assert(ranked_view(out@) =~= Seq::<(Seq<char>, int)>::empty());
    while i < results.len()
        invariant
            i <= results.len(),
            all == ranked_view(results@),
            prefer_relative ==> normal(display_form(root@)) && forall|k: int|
                0 <= k < results@.len() ==> normal(display_form(#[trigger] results@[k].0@)),
            ranked_view(out@) == visible_results(all.take(i as int), root@, query@, prefer_relative),
        decreases results.len() - i,
    {
        assert(all.take(i + 1).drop_last() =~= all.take(i as int));
        assert(all.take(i + 1).last() == (results@[i as int].0@, results@[i as int].1 as int));
        if has_visible_match(results[i].0.as_str(), root, query, prefer_relative) {
            let ghost before = ranked_view(out@);
            out.push((results[i].0.clone(), results[i].1));
            assert(ranked_view(out@) =~= before.push(all[i as int]));
        }
        i += 1;
    }
    assert(all.take(results.len() as int) =~= all);
    out
}

/// Answers a search request: the ranked results that are shown, or the
/// error of the query with no results. Where rows are shown from the root,
/// the root and the entries are in normal form.
pub fn run_search(req: &SearchRequest) -> (response: SearchResponse)
    requires
        !req.use_regex && req.prefer_relative ==> normal(display_form(req.root@)) && forall|
            i: int,
        | 0 <= i < req.entries@.len() ==> normal(display_form(#[trigger] req.entries@[i]@)),
    ensures
        response.request_id == req.request_id,
        match search_outcome(req.query@, texts(req.entries@), req.limit as nat, req.use_regex) {
            Ok(list) => response.error is None && ranked_view(response.results@) == shown_results(
                list,
                req.root@,
                req.query@,
                req.prefer_relative,
                req.use_regex,
            ),
            Err(term) => response.results@.len() == 0 && (response.error matches Some(text)
                && text@ == "invalid regex: "@ + term),
        },
{
    match search_entries(req.query.as_str(), &req.entries, req.limit, req.use_regex) {
        Ok(raw) => {
            proof {
                if !req.use_regex && req.prefer_relative {
                    assert forall|k: int| 0 <= k < raw@.len() implies normal(
                        display_form(#[trigger] raw@[k].0@),
                    ) by {
                        let all = texts(req.entries@);
                        assert(all.contains(raw@[k].0@));
                        let i = choose|i: int| 0 <= i < all.len() && all[i] == raw@[k].0@;
                        assert(req.entries@[i]@ == raw@[k].0@);
                    }
                }
            }
            SearchResponse {
                request_id: req.request_id,
                results: filter_search_results(
                    raw,
                    req.root.as_str(),
                    req.query.as_str(),
                    req.prefer_relative,
                    req.use_regex,
                ),
                error: None,
            }
        },
        Err(e) => SearchResponse {
            request_id: req.request_id,
            results: Vec::new(),
            error: Some(e.message()),
        },
    }
}

/// An index request as the coordinator sends it.
#[derive(Debug, Clone)]
pub struct IndexRequest {
    pub request_id: u64,
    pub root: String,
    pub use_filelist: bool,
    pub include_files: bool,
    pub include_dirs: bool,
}

/// How the index worker begins to serve a request.
#[derive(Debug, Clone)]
pub enum IndexStart {
    /// Nothing is to be indexed: these messages answer the request.
    Answered(Vec<IndexResponse>),
    /// Read the manifest at this path, then stream its entries.
    ReadManifest(String),
    /// Send this message, then stream the walk.
    Walk(IndexResponse),
}

/// Decides how a request is served, from the names of the files that lie
/// directly in its root. With files and directories both switched off the
/// request is answered at once by `Started` and `Finished`, both with
/// source `Nothing`.
pub fn begin_index(req: &IndexRequest, root_files: &Vec<String>) -> (start: IndexStart)
    ensures
        match planned(req.use_filelist, req.include_files, req.include_dirs, texts(root_files@)) {
            IndexPlan::Nothing => start matches IndexStart::Answered(messages) && messages@.len()
                == 2 && (messages@[0] matches IndexResponse::Started { request_id, source }
                && request_id == req.request_id && source is Nothing) && (
            messages@[1] matches IndexResponse::Finished { request_id, source } && request_id
                == req.request_id && source is Nothing),
            IndexPlan::Manifest(k) => start matches IndexStart::ReadManifest(path) && path@
                == joined(req.root@, root_files@[k as int]@),
            IndexPlan::Walk => start matches IndexStart::Walk(
                IndexResponse::Started { request_id, source },
            ) && request_id == req.request_id && source is Walker,
        },
{
    match plan_index(req.use_filelist, req.include_files, req.include_dirs, root_files) {
        IndexPlan::Nothing => {
            let mut messages: Vec<IndexResponse> = Vec::new();
            messages.push(
                IndexResponse::Started { request_id: req.request_id, source: IndexSource::Nothing },
            );
            messages.push(
                IndexResponse::Finished {
                    request_id: req.request_id,
                    source: IndexSource::Nothing,
                },
            );
            IndexStart::Answered(messages)
        },
        IndexPlan::Manifest(k) => IndexStart::ReadManifest(
            string_of(&join(&chars_of(req.root.as_str()), &chars_of(root_files[k].as_str()))),
        ),
        IndexPlan::Walk => IndexStart::Walk(
            IndexResponse::Started { request_id: req.request_id, source: IndexSource::Walker },
        ),
    }
}

/// The entries of a build that wait to be sent.
#[derive(Debug, Clone)]
pub struct BatchBuffer {
    pub entries: Vec<Entry>,
    pub last_flush_ms: u64,
}

/// What the worker does with one entry that it has found.
#[derive(Debug, Clone)]
pub enum StreamStep {
    /// A newer request has been accepted: stop, and send nothing more.
    Superseded,
    /// The entry is of a kind that is switched off.
    Skipped,
    /// The entry waits in the buffer.
    Buffered,
    /// Send this batch.
    Send(IndexResponse),
}

impl BatchBuffer {
    /// An empty buffer, last sent at `now_ms`.
    pub fn new(now_ms: u64) -> (b: Self)
        ensures
            b.entries@.len() == 0,
            b.last_flush_ms == now_ms,
    {
        BatchBuffer { entries: Vec::new(), last_flush_ms: now_ms }
    }

    /// A batch is due once `entry` has joined the buffer: the buffer is
    /// full then, or old enough.
    pub open spec fn due_with(&self, entry: Entry, now_ms: u64) -> bool {
        self.entries@.push(entry).len() >= BATCH_MAX_ENTRIES || now_ms - self.last_flush_ms
            >= BATCH_MAX_AGE_MS
    }

    /// Empties the buffer into a batch for the given request; an empty
    /// buffer gives no message.
    pub fn flush_batch(&mut self, request_id: u64) -> (message: Option<IndexResponse>)
        ensures
            final(self).entries@.len() == 0,
            final(self).last_flush_ms == old(self).last_flush_ms,
            old(self).entries@.len() == 0 ==> message is None,
            old(self).entries@.len() > 0 ==> (message matches Some(
                IndexResponse::Batch { request_id: id, entries },
            ) && id == request_id && entries@ == old(self).entries@),
    {
        if self.entries.len() == 0 {
            return None;
        }
        let mut entries: Vec<Entry> = Vec::new();
        entries.append(&mut self.entries);
        Some(IndexResponse::Batch { request_id, entries })
    }

    /// Takes one entry that the build has found. Nothing is taken once the
    /// register of the latest accepted request no longer holds the id of
    /// this request, nor an entry of a kind that is switched off. Else the
    /// entry joins the buffer, and the buffer is sent where a batch is due.
    pub fn stream_step(
        &mut self,
        req: &IndexRequest,
        latest_request_id: u64,
        entry: Entry,
        now_ms: u64,
    ) -> (step: StreamStep)
        ensures
            latest_request_id != req.request_id ==> (step is Superseded) && *final(self) == *old(
                self,
            ),
            latest_request_id == req.request_id && !((entry.is_dir && req.include_dirs) || (
            !entry.is_dir && req.include_files)) ==> (step is Skipped) && *final(self) == *old(
                self,
            ),
            latest_request_id == req.request_id && ((entry.is_dir && req.include_dirs) || (
            !entry.is_dir && req.include_files)) ==> if old(self).due_with(entry, now_ms) {
                &&& step matches StreamStep::Send(IndexResponse::Batch { request_id, entries })
                &&& request_id == req.request_id
                &&& entries@ == old(self).entries@.push(entry)
                &&& final(self).entries@.len() == 0
                &&& final(self).last_flush_ms == now_ms
            } else {
                &&& step is Buffered
                &&& final(self).entries@ == old(self).entries@.push(entry)
                &&& final(self).last_flush_ms == old(self).last_flush_ms
            },
    {
        if latest_request_id != req.request_id {
            return StreamStep::Superseded;
        }
        if !((entry.is_dir && req.include_dirs) || (!entry.is_dir && req.include_files)) {
            return StreamStep::Skipped;
        }
        self.entries.push(entry);
        let aged = now_ms >= self.last_flush_ms && now_ms - self.last_flush_ms >= BATCH_MAX_AGE_MS;
        if self.entries.len() >= BATCH_MAX_ENTRIES || aged {
            match self.flush_batch(req.request_id) {
                Some(message) => {
                    self.last_flush_ms = now_ms;
                    StreamStep::Send(message)
                },
                None => StreamStep::Buffered,
            }
        } else {
            StreamStep::Buffered
        }
    }
}

/// How the streaming of a build ended.
#[derive(Debug, Clone)]
pub enum StreamEnd {
    /// Every entry was taken; the source of the build.
    Done(IndexSource),
    /// A newer request took over.
    Superseded,
    /// The build failed, with this description.
    Failed(String),
}

/// The last message of a build: `Finished` with the source, `Failed` with
/// the description, and none at all for a build that was superseded.
pub fn finish_index(request_id: u64, end: StreamEnd) -> (message: Option<IndexResponse>)
    ensures
        match end {
            StreamEnd::Done(source) => message matches Some(
                IndexResponse::Finished { request_id: id, source: s },
            ) && id == request_id && s == source,
            StreamEnd::Superseded => message is None,
            StreamEnd::Failed(error) => message matches Some(
                IndexResponse::Failed { request_id: id, error: e },
            ) && id == request_id && e == error,
        },
{
    match end {
        StreamEnd::Done(source) => Some(IndexResponse::Finished { request_id, source }),
        StreamEnd::Superseded => None,
        StreamEnd::Failed(error) => Some(IndexResponse::Failed { request_id, error }),
    }
}

} // verus!
